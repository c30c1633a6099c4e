//! x86-64 registers as the monitor names them, and their values in a
//! stopped thread's register file.
use vstd::prelude::*;
use vstd::string::*;

verus! {

/// The register file of a stopped thread.
#[derive(Clone, Copy, Debug, PartialEq, Eq, Structural, Default)]
pub struct UserRegs {
    pub rax: u64,
    pub rbx: u64,
    pub rcx: u64,
    pub rdx: u64,
    pub rbp: u64,
    pub rsi: u64,
    pub rdi: u64,
    pub rsp: u64,
    pub rip: u64,
    pub r8: u64,
    pub r9: u64,
    pub r10: u64,
    pub r11: u64,
    pub r12: u64,
    pub r13: u64,
    pub r14: u64,
    pub r15: u64,
    pub eflags: u64,
    pub cs: u64,
    pub ss: u64,
    pub ds: u64,
    pub es: u64,
    pub fs: u64,
    pub gs: u64,
}

/// Whether `a` and `b` hold the same characters.
pub fn str_eq(a: &str, b: &str) -> (r: bool)
    ensures
        r == (a@ == b@),
{
    let n = a.unicode_len();
    if n != b.unicode_len() {
        return false;
    }
    let mut i: usize = 0;
    while i < n
        invariant
            n == a@.len(),
            n == b@.len(),
            i <= n,
            forall|j: int| 0 <= j < i ==> a@[j] == b@[j],
        decreases n - i,
    {
        if a.get_char(i) != b.get_char(i) {
            return false;
        }
        i = i + 1;
    }
    assert(a@ =~= b@);
    true
}

/// Every register, by width.
#[derive(Clone, Copy, Debug, PartialEq, Eq, Structural)]
pub enum Register {
    Register64(Register64),
    Register32(Register32),
    Register16(Register16),
    Register8Low(Register8Low),
    Register8High(Register8High),
}

/// The 64-bit register that holds a register.
pub trait ArchRegister: Sized {
    spec fn spec_arch_register(self) -> Register;

    fn arch_register(self) -> (r: Register)
        ensures
            r == self.spec_arch_register(),
    ;
}

#[derive(Clone, Copy, Debug, PartialEq, Eq, Structural)]
pub enum Register64 {
    Rax,
    Rbx,
    Rcx,
    Rdx,
    Rbp,
    Rsi,
    Rdi,
    Rsp,
    Rip,
    R8,
    R9,
    R10,
    R11,
    R12,
    R13,
    R14,
    R15,
}

impl Register64 {
    /// The register's name.
    pub open spec fn spec_name(self) -> Seq<char> {
        match self {
        Register64::Rax => "rax"@,
        Register64::Rbx => "rbx"@,
        Register64::Rcx => "rcx"@,
        Register64::Rdx => "rdx"@,
        Register64::Rbp => "rbp"@,
        Register64::Rsi => "rsi"@,
        Register64::Rdi => "rdi"@,
        Register64::Rsp => "rsp"@,
        Register64::Rip => "rip"@,
        Register64::R8 => "r8"@,
        Register64::R9 => "r9"@,
        Register64::R10 => "r10"@,
        Register64::R11 => "r11"@,
        Register64::R12 => "r12"@,
        Register64::R13 => "r13"@,
        Register64::R14 => "r14"@,
        Register64::R15 => "r15"@,
        }
    }

    /// The register named `s`, if any.
    pub open spec fn spec_from_name(s: Seq<char>) -> Option<Register64> {
        if s == "rax"@ { Some(Register64::Rax) } else if s == "rbx"@ { Some(Register64::Rbx) } else if s == "rcx"@ { Some(Register64::Rcx) } else if s == "rdx"@ { Some(Register64::Rdx) } else if s == "rbp"@ { Some(Register64::Rbp) } else if s == "rsi"@ { Some(Register64::Rsi) } else if s == "rdi"@ { Some(Register64::Rdi) } else if s == "rsp"@ { Some(Register64::Rsp) } else if s == "rip"@ { Some(Register64::Rip) } else if s == "r8"@ { Some(Register64::R8) } else if s == "r9"@ { Some(Register64::R9) } else if s == "r10"@ { Some(Register64::R10) } else if s == "r11"@ { Some(Register64::R11) } else if s == "r12"@ { Some(Register64::R12) } else if s == "r13"@ { Some(Register64::R13) } else if s == "r14"@ { Some(Register64::R14) } else if s == "r15"@ { Some(Register64::R15) } else { None }
    }

    /// The register's name.
    pub fn name(&self) -> (r: &'static str)
        ensures
            r@ == self.spec_name(),
    {
        match self {
        Register64::Rax => "rax",
        Register64::Rbx => "rbx",
        Register64::Rcx => "rcx",
        Register64::Rdx => "rdx",
        Register64::Rbp => "rbp",
        Register64::Rsi => "rsi",
        Register64::Rdi => "rdi",
        Register64::Rsp => "rsp",
        Register64::Rip => "rip",
        Register64::R8 => "r8",
        Register64::R9 => "r9",
        Register64::R10 => "r10",
        Register64::R11 => "r11",
        Register64::R12 => "r12",
        Register64::R13 => "r13",
        Register64::R14 => "r14",
        Register64::R15 => "r15",
        }
    }

    /// The register named `s`.
    pub fn from_str(s: &str) -> (r: Result<Register64, ()>)
        ensures
            r == match Register64::spec_from_name(s@) {
                Some(x) => Ok(x),
                None => Err(()),
            },
    {
        if str_eq(s, "rax") {
            return Ok(Register64::Rax);
        }
        if str_eq(s, "rbx") {
            return Ok(Register64::Rbx);
        }
        if str_eq(s, "rcx") {
            return Ok(Register64::Rcx);
        }
        if str_eq(s, "rdx") {
            return Ok(Register64::Rdx);
        }
        if str_eq(s, "rbp") {
            return Ok(Register64::Rbp);
        }
        if str_eq(s, "rsi") {
            return Ok(Register64::Rsi);
        }
        if str_eq(s, "rdi") {
            return Ok(Register64::Rdi);
        }
        if str_eq(s, "rsp") {
            return Ok(Register64::Rsp);
        }
        if str_eq(s, "rip") {
            return Ok(Register64::Rip);
        }
        if str_eq(s, "r8") {
            return Ok(Register64::R8);
        }
        if str_eq(s, "r9") {
            return Ok(Register64::R9);
        }
        if str_eq(s, "r10") {
            return Ok(Register64::R10);
        }
        if str_eq(s, "r11") {
            return Ok(Register64::R11);
        }
        if str_eq(s, "r12") {
            return Ok(Register64::R12);
        }
        if str_eq(s, "r13") {
            return Ok(Register64::R13);
        }
        if str_eq(s, "r14") {
            return Ok(Register64::R14);
        }
        if str_eq(s, "r15") {
            return Ok(Register64::R15);
        }
        Err(())
    }
}

#[derive(Clone, Copy, Debug, PartialEq, Eq, Structural)]
pub enum Register32 {
    Eax,
    Ebx,
    Ecx,
    Edx,
    Ebp,
    Esi,
    Edi,
    Esp,
    Eip,
    R8d,
    R9d,
    R10d,
    R11d,
    R12d,
    R13d,
    R14d,
    R15d,
}

impl Register32 {
    /// The register's name.
    pub open spec fn spec_name(self) -> Seq<char> {
        match self {
        Register32::Eax => "eax"@,
        Register32::Ebx => "ebx"@,
        Register32::Ecx => "ecx"@,
        Register32::Edx => "edx"@,
        Register32::Ebp => "ebp"@,
        Register32::Esi => "esi"@,
        Register32::Edi => "edi"@,
        Register32::Esp => "esp"@,
        Register32::Eip => "eip"@,
        Register32::R8d => "r8d"@,
        Register32::R9d => "r9d"@,
        Register32::R10d => "r10d"@,
        Register32::R11d => "r11d"@,
        Register32::R12d => "r12d"@,
        Register32::R13d => "r13d"@,
        Register32::R14d => "r14d"@,
        Register32::R15d => "r15d"@,
        }
    }

    /// The register named `s`, if any.
    pub open spec fn spec_from_name(s: Seq<char>) -> Option<Register32> {
        if s == "eax"@ { Some(Register32::Eax) } else if s == "ebx"@ { Some(Register32::Ebx) } else if s == "ecx"@ { Some(Register32::Ecx) } else if s == "edx"@ { Some(Register32::Edx) } else if s == "ebp"@ { Some(Register32::Ebp) } else if s == "esi"@ { Some(Register32::Esi) } else if s == "edi"@ { Some(Register32::Edi) } else if s == "esp"@ { Some(Register32::Esp) } else if s == "eip"@ { Some(Register32::Eip) } else if s == "r8d"@ { Some(Register32::R8d) } else if s == "r9d"@ { Some(Register32::R9d) } else if s == "r10d"@ { Some(Register32::R10d) } else if s == "r11d"@ { Some(Register32::R11d) } else if s == "r12d"@ { Some(Register32::R12d) } else if s == "r13d"@ { Some(Register32::R13d) } else if s == "r14d"@ { Some(Register32::R14d) } else if s == "r15d"@ { Some(Register32::R15d) } else { None }
    }

    /// The register's name.
    pub fn name(&self) -> (r: &'static str)
        ensures
            r@ == self.spec_name(),
    {
        match self {
        Register32::Eax => "eax",
        Register32::Ebx => "ebx",
        Register32::Ecx => "ecx",
        Register32::Edx => "edx",
        Register32::Ebp => "ebp",
        Register32::Esi => "esi",
        Register32::Edi => "edi",
        Register32::Esp => "esp",
        Register32::Eip => "eip",
        Register32::R8d => "r8d",
        Register32::R9d => "r9d",
        Register32::R10d => "r10d",
        Register32::R11d => "r11d",
        Register32::R12d => "r12d",
        Register32::R13d => "r13d",
        Register32::R14d => "r14d",
        Register32::R15d => "r15d",
        }
    }

    /// The register named `s`.
    pub fn from_str(s: &str) -> (r: Result<Register32, ()>)
        ensures
            r == match Register32::spec_from_name(s@) {
                Some(x) => Ok(x),
                None => Err(()),
            },
    {
        if str_eq(s, "eax") {
            return Ok(Register32::Eax);
        }
        if str_eq(s, "ebx") {
            return Ok(Register32::Ebx);
        }
        if str_eq(s, "ecx") {
            return Ok(Register32::Ecx);
        }
        if str_eq(s, "edx") {
            return Ok(Register32::Edx);
        }
        if str_eq(s, "ebp") {
            return Ok(Register32::Ebp);
        }
        if str_eq(s, "esi") {
            return Ok(Register32::Esi);
        }
        if str_eq(s, "edi") {
            return Ok(Register32::Edi);
        }
        if str_eq(s, "esp") {
            return Ok(Register32::Esp);
        }
        if str_eq(s, "eip") {
            return Ok(Register32::Eip);
        }
        if str_eq(s, "r8d") {
            return Ok(Register32::R8d);
        }
        if str_eq(s, "r9d") {
            return Ok(Register32::R9d);
        }
        if str_eq(s, "r10d") {
            return Ok(Register32::R10d);
        }
        if str_eq(s, "r11d") {
            return Ok(Register32::R11d);
        }
        if str_eq(s, "r12d") {
            return Ok(Register32::R12d);
        }
        if str_eq(s, "r13d") {
            return Ok(Register32::R13d);
        }
        if str_eq(s, "r14d") {
            return Ok(Register32::R14d);
        }
        if str_eq(s, "r15d") {
            return Ok(Register32::R15d);
        }
        Err(())
    }
}

#[derive(Clone, Copy, Debug, PartialEq, Eq, Structural)]
pub enum Register16 {
    Ax,
    Bx,
    Cx,
    Dx,
    Bp,
    Si,
    Di,
    Sp,
    Ip,
    Cs,
    Ss,
    Ds,
    Es,
    Fs,
    Gs,
    R8w,
    R9w,
    R10w,
    R11w,
    R12w,
    R13w,
    R14w,
    R15w,
}

impl Register16 {
    /// The register's name.
    pub open spec fn spec_name(self) -> Seq<char> {
        match self {
        Register16::Ax => "ax"@,
        Register16::Bx => "bx"@,
        Register16::Cx => "cx"@,
        Register16::Dx => "dx"@,
        Register16::Bp => "bp"@,
        Register16::Si => "si"@,
        Register16::Di => "di"@,
        Register16::Sp => "sp"@,
        Register16::Ip => "ip"@,
        Register16::Cs => "cs"@,
        Register16::Ss => "ss"@,
        Register16::Ds => "ds"@,
        Register16::Es => "es"@,
        Register16::Fs => "fs"@,
        Register16::Gs => "gs"@,
        Register16::R8w => "r8w"@,
        Register16::R9w => "r9w"@,
        Register16::R10w => "r10w"@,
        Register16::R11w => "r11w"@,
        Register16::R12w => "r12w"@,
        Register16::R13w => "r13w"@,
        Register16::R14w => "r14w"@,
        Register16::R15w => "r15w"@,
        }
    }

    /// The register named `s`, if any.
    pub open spec fn spec_from_name(s: Seq<char>) -> Option<Register16> {
        if s == "ax"@ { Some(Register16::Ax) } else if s == "bx"@ { Some(Register16::Bx) } else if s == "cx"@ { Some(Register16::Cx) } else if s == "dx"@ { Some(Register16::Dx) } else if s == "bp"@ { Some(Register16::Bp) } else if s == "si"@ { Some(Register16::Si) } else if s == "di"@ { Some(Register16::Di) } else if s == "sp"@ { Some(Register16::Sp) } else if s == "ip"@ { Some(Register16::Ip) } else if s == "cs"@ { Some(Register16::Cs) } else if s == "ss"@ { Some(Register16::Ss) } else if s == "ds"@ { Some(Register16::Ds) } else if s == "es"@ { Some(Register16::Es) } else if s == "fs"@ { Some(Register16::Fs) } else if s == "gs"@ { Some(Register16::Gs) } else if s == "r8w"@ { Some(Register16::R8w) } else if s == "r9w"@ { Some(Register16::R9w) } else if s == "r10w"@ { Some(Register16::R10w) } else if s == "r11w"@ { Some(Register16::R11w) } else if s == "r12w"@ { Some(Register16::R12w) } else if s == "r13w"@ { Some(Register16::R13w) } else if s == "r14w"@ { Some(Register16::R14w) } else if s == "r15w"@ { Some(Register16::R15w) } else { None }
    }

    /// The register's name.
    pub fn name(&self) -> (r: &'static str)
        ensures
            r@ == self.spec_name(),
    {
        match self {
        Register16::Ax => "ax",
        Register16::Bx => "bx",
        Register16::Cx => "cx",
        Register16::Dx => "dx",
        Register16::Bp => "bp",
        Register16::Si => "si",
        Register16::Di => "di",
        Register16::Sp => "sp",
        Register16::Ip => "ip",
        Register16::Cs => "cs",
        Register16::Ss => "ss",
        Register16::Ds => "ds",
        Register16::Es => "es",
        Register16::Fs => "fs",
        Register16::Gs => "gs",
        Register16::R8w => "r8w",
        Register16::R9w => "r9w",
        Register16::R10w => "r10w",
        Register16::R11w => "r11w",
        Register16::R12w => "r12w",
        Register16::R13w => "r13w",
        Register16::R14w => "r14w",
        Register16::R15w => "r15w",
        }
    }

    /// The register named `s`.
    pub fn from_str(s: &str) -> (r: Result<Register16, ()>)
        ensures
            r == match Register16::spec_from_name(s@) {
                Some(x) => Ok(x),
                None => Err(()),
            },
    {
        if str_eq(s, "ax") {
            return Ok(Register16::Ax);
        }
        if str_eq(s, "bx") {
            return Ok(Register16::Bx);
        }
        if str_eq(s, "cx") {
            return Ok(Register16::Cx);
        }
        if str_eq(s, "dx") {
            return Ok(Register16::Dx);
        }
        if str_eq(s, "bp") {
            return Ok(Register16::Bp);
        }
        if str_eq(s, "si") {
            return Ok(Register16::Si);
        }
        if str_eq(s, "di") {
            return Ok(Register16::Di);
        }
        if str_eq(s, "sp") {
            return Ok(Register16::Sp);
        }
        if str_eq(s, "ip") {
            return Ok(Register16::Ip);
        }
        if str_eq(s, "cs") {
            return Ok(Register16::Cs);
        }
        if str_eq(s, "ss") {
            return Ok(Register16::Ss);
        }
        if str_eq(s, "ds") {
            return Ok(Register16::Ds);
        }
        if str_eq(s, "es") {
            return Ok(Register16::Es);
        }
        if str_eq(s, "fs") {
            return Ok(Register16::Fs);
        }
        if str_eq(s, "gs") {
            return Ok(Register16::Gs);
        }
        if str_eq(s, "r8w") {
            return Ok(Register16::R8w);
        }
        if str_eq(s, "r9w") {
            return Ok(Register16::R9w);
        }
        if str_eq(s, "r10w") {
            return Ok(Register16::R10w);
        }
        if str_eq(s, "r11w") {
            return Ok(Register16::R11w);
        }
        if str_eq(s, "r12w") {
            return Ok(Register16::R12w);
        }
        if str_eq(s, "r13w") {
            return Ok(Register16::R13w);
        }
        if str_eq(s, "r14w") {
            return Ok(Register16::R14w);
        }
        if str_eq(s, "r15w") {
            return Ok(Register16::R15w);
        }
        Err(())
    }
}

#[derive(Clone, Copy, Debug, PartialEq, Eq, Structural)]
pub enum Register8Low {
    Al,
    Bl,
    Cl,
    Dl,
    Bpl,
    Sil,
    Dil,
    Spl,
    R8b,
    R9b,
    R10b,
    R11b,
    R12b,
    R13b,
    R14b,
    R15b,
}

impl Register8Low {
    /// The register's name.
    pub open spec fn spec_name(self) -> Seq<char> {
        match self {
        Register8Low::Al => "al"@,
        Register8Low::Bl => "bl"@,
        Register8Low::Cl => "cl"@,
        Register8Low::Dl => "dl"@,
        Register8Low::Bpl => "bpl"@,
        Register8Low::Sil => "sil"@,
        Register8Low::Dil => "dil"@,
        Register8Low::Spl => "spl"@,
        Register8Low::R8b => "r8b"@,
        Register8Low::R9b => "r9b"@,
        Register8Low::R10b => "r10b"@,
        Register8Low::R11b => "r11b"@,
        Register8Low::R12b => "r12b"@,
        Register8Low::R13b => "r13b"@,
        Register8Low::R14b => "r14b"@,
        Register8Low::R15b => "r15b"@,
        }
    }

    /// The register named `s`, if any.
    pub open spec fn spec_from_name(s: Seq<char>) -> Option<Register8Low> {
        if s == "al"@ { Some(Register8Low::Al) } else if s == "bl"@ { Some(Register8Low::Bl) } else if s == "cl"@ { Some(Register8Low::Cl) } else if s == "dl"@ { Some(Register8Low::Dl) } else if s == "bpl"@ { Some(Register8Low::Bpl) } else if s == "sil"@ { Some(Register8Low::Sil) } else if s == "dil"@ { Some(Register8Low::Dil) } else if s == "spl"@ { Some(Register8Low::Spl) } else if s == "r8b"@ { Some(Register8Low::R8b) } else if s == "r9b"@ { Some(Register8Low::R9b) } else if s == "r10b"@ { Some(Register8Low::R10b) } else if s == "r11b"@ { Some(Register8Low::R11b) } else if s == "r12b"@ { Some(Register8Low::R12b) } else if s == "r13b"@ { Some(Register8Low::R13b) } else if s == "r14b"@ { Some(Register8Low::R14b) } else if s == "r15b"@ { Some(Register8Low::R15b) } else { None }
    }

    /// The register's name.
    pub fn name(&self) -> (r: &'static str)
        ensures
            r@ == self.spec_name(),
    {
        match self {
        Register8Low::Al => "al",
        Register8Low::Bl => "bl",
        Register8Low::Cl => "cl",
        Register8Low::Dl => "dl",
        Register8Low::Bpl => "bpl",
        Register8Low::Sil => "sil",
        Register8Low::Dil => "dil",
        Register8Low::Spl => "spl",
        Register8Low::R8b => "r8b",
        Register8Low::R9b => "r9b",
        Register8Low::R10b => "r10b",
        Register8Low::R11b => "r11b",
        Register8Low::R12b => "r12b",
        Register8Low::R13b => "r13b",
        Register8Low::R14b => "r14b",
        Register8Low::R15b => "r15b",
        }
    }

    /// The register named `s`.
    pub fn from_str(s: &str) -> (r: Result<Register8Low, ()>)
        ensures
            r == match Register8Low::spec_from_name(s@) {
                Some(x) => Ok(x),
                None => Err(()),
            },
    {
        if str_eq(s, "al") {
            return Ok(Register8Low::Al);
        }
        if str_eq(s, "bl") {
            return Ok(Register8Low::Bl);
        }
        if str_eq(s, "cl") {
            return Ok(Register8Low::Cl);
        }
        if str_eq(s, "dl") {
            return Ok(Register8Low::Dl);
        }
        if str_eq(s, "bpl") {
            return Ok(Register8Low::Bpl);
        }
        if str_eq(s, "sil") {
            return Ok(Register8Low::Sil);
        }
        if str_eq(s, "dil") {
            return Ok(Register8Low::Dil);
        }
        if str_eq(s, "spl") {
            return Ok(Register8Low::Spl);
        }
        if str_eq(s, "r8b") {
            return Ok(Register8Low::R8b);
        }
        if str_eq(s, "r9b") {
            return Ok(Register8Low::R9b);
        }
        if str_eq(s, "r10b") {
            return Ok(Register8Low::R10b);
        }
        if str_eq(s, "r11b") {
            return Ok(Register8Low::R11b);
        }
        if str_eq(s, "r12b") {
            return Ok(Register8Low::R12b);
        }
        if str_eq(s, "r13b") {
            return Ok(Register8Low::R13b);
        }
        if str_eq(s, "r14b") {
            return Ok(Register8Low::R14b);
        }
        if str_eq(s, "r15b") {
            return Ok(Register8Low::R15b);
        }
        Err(())
    }
}

#[derive(Clone, Copy, Debug, PartialEq, Eq, Structural)]
pub enum Register8High {
    Ah,
    Bh,
    Ch,
    Dh,
}

impl Register8High {
    /// The register's name.
    pub open spec fn spec_name(self) -> Seq<char> {
        match self {
        Register8High::Ah => "ah"@,
        Register8High::Bh => "bh"@,
        Register8High::Ch => "ch"@,
        Register8High::Dh => "dh"@,
        }
    }

    /// The register named `s`, if any.
    pub open spec fn spec_from_name(s: Seq<char>) -> Option<Register8High> {
        if s == "ah"@ { Some(Register8High::Ah) } else if s == "bh"@ { Some(Register8High::Bh) } else if s == "ch"@ { Some(Register8High::Ch) } else if s == "dh"@ { Some(Register8High::Dh) } else { None }
    }

    /// The register's name.
    pub fn name(&self) -> (r: &'static str)
        ensures
            r@ == self.spec_name(),
    {
        match self {
        Register8High::Ah => "ah",
        Register8High::Bh => "bh",
        Register8High::Ch => "ch",
        Register8High::Dh => "dh",
        }
    }

    /// The register named `s`.
    pub fn from_str(s: &str) -> (r: Result<Register8High, ()>)
        ensures
            r == match Register8High::spec_from_name(s@) {
                Some(x) => Ok(x),
                None => Err(()),
            },
    {
        if str_eq(s, "ah") {
            return Ok(Register8High::Ah);
        }
        if str_eq(s, "bh") {
            return Ok(Register8High::Bh);
        }
        if str_eq(s, "ch") {
            return Ok(Register8High::Ch);
        }
        if str_eq(s, "dh") {
            return Ok(Register8High::Dh);
        }
        Err(())
    }
}

impl Register64 {
    /// The register's value.
    pub open spec fn spec_value(self, regs: UserRegs) -> u64 {
        match self {
        Register64::Rax => regs.rax,
        Register64::Rbx => regs.rbx,
        Register64::Rcx => regs.rcx,
        Register64::Rdx => regs.rdx,
        Register64::Rbp => regs.rbp,
        Register64::Rsi => regs.rsi,
        Register64::Rdi => regs.rdi,
        Register64::Rsp => regs.rsp,
        Register64::Rip => regs.rip,
        Register64::R8 => regs.r8,
        Register64::R9 => regs.r9,
        Register64::R10 => regs.r10,
        Register64::R11 => regs.r11,
        Register64::R12 => regs.r12,
        Register64::R13 => regs.r13,
        Register64::R14 => regs.r14,
        Register64::R15 => regs.r15,
        }
    }

    pub fn value(self, registers: &UserRegs) -> (r: u64)
        ensures
            r == self.spec_value(*registers),
    {
        match self {
        Register64::Rax => registers.rax,
        Register64::Rbx => registers.rbx,
        Register64::Rcx => registers.rcx,
        Register64::Rdx => registers.rdx,
        Register64::Rbp => registers.rbp,
        Register64::Rsi => registers.rsi,
        Register64::Rdi => registers.rdi,
        Register64::Rsp => registers.rsp,
        Register64::Rip => registers.rip,
        Register64::R8 => registers.r8,
        Register64::R9 => registers.r9,
        Register64::R10 => registers.r10,
        Register64::R11 => registers.r11,
        Register64::R12 => registers.r12,
        Register64::R13 => registers.r13,
        Register64::R14 => registers.r14,
        Register64::R15 => registers.r15,
        }
    }
}

impl ArchRegister for Register64 {
    open spec fn spec_arch_register(self) -> Register {
        Register::Register64(self)
    }

    fn arch_register(self) -> (r: Register) {
        Register::Register64(self)
    }
}

impl Register32 {
    /// The 64-bit register that holds this one.
    pub open spec fn spec_wide(self) -> Register64 {
        match self {
        Register32::Eax => Register64::Rax,
        Register32::Ebx => Register64::Rbx,
        Register32::Ecx => Register64::Rcx,
        Register32::Edx => Register64::Rdx,
        Register32::Ebp => Register64::Rbp,
        Register32::Esi => Register64::Rsi,
        Register32::Edi => Register64::Rdi,
        Register32::Esp => Register64::Rsp,
        Register32::Eip => Register64::Rip,
        Register32::R8d => Register64::R8,
        Register32::R9d => Register64::R9,
        Register32::R10d => Register64::R10,
        Register32::R11d => Register64::R11,
        Register32::R12d => Register64::R12,
        Register32::R13d => Register64::R13,
        Register32::R14d => Register64::R14,
        Register32::R15d => Register64::R15,
        }
    }

    fn wide(self) -> (r: Register64)
        ensures
            r == self.spec_wide(),
    {
        match self {
        Register32::Eax => Register64::Rax,
        Register32::Ebx => Register64::Rbx,
        Register32::Ecx => Register64::Rcx,
        Register32::Edx => Register64::Rdx,
        Register32::Ebp => Register64::Rbp,
        Register32::Esi => Register64::Rsi,
        Register32::Edi => Register64::Rdi,
        Register32::Esp => Register64::Rsp,
        Register32::Eip => Register64::Rip,
        Register32::R8d => Register64::R8,
        Register32::R9d => Register64::R9,
        Register32::R10d => Register64::R10,
        Register32::R11d => Register64::R11,
        Register32::R12d => Register64::R12,
        Register32::R13d => Register64::R13,
        Register32::R14d => Register64::R14,
        Register32::R15d => Register64::R15,
        }
    }
}

impl ArchRegister for Register32 {
    open spec fn spec_arch_register(self) -> Register {
        Register::Register64(self.spec_wide())
    }

    fn arch_register(self) -> (r: Register) {
        Register::Register64(self.wide())
    }
}

impl Register8Low {
    /// The 64-bit register that holds this one.
    pub open spec fn spec_wide(self) -> Register64 {
        match self {
        Register8Low::Al => Register64::Rax,
        Register8Low::Bl => Register64::Rbx,
        Register8Low::Cl => Register64::Rcx,
        Register8Low::Dl => Register64::Rdx,
        Register8Low::Bpl => Register64::Rbp,
        Register8Low::Sil => Register64::Rsi,
        Register8Low::Dil => Register64::Rdi,
        Register8Low::Spl => Register64::Rsp,
        Register8Low::R8b => Register64::R8,
        Register8Low::R9b => Register64::R9,
        Register8Low::R10b => Register64::R10,
        Register8Low::R11b => Register64::R11,
        Register8Low::R12b => Register64::R12,
        Register8Low::R13b => Register64::R13,
        Register8Low::R14b => Register64::R14,
        Register8Low::R15b => Register64::R15,
        }
    }

    fn wide(self) -> (r: Register64)
        ensures
            r == self.spec_wide(),
    {
        match self {
        Register8Low::Al => Register64::Rax,
        Register8Low::Bl => Register64::Rbx,
        Register8Low::Cl => Register64::Rcx,
        Register8Low::Dl => Register64::Rdx,
        Register8Low::Bpl => Register64::Rbp,
        Register8Low::Sil => Register64::Rsi,
        Register8Low::Dil => Register64::Rdi,
        Register8Low::Spl => Register64::Rsp,
        Register8Low::R8b => Register64::R8,
        Register8Low::R9b => Register64::R9,
        Register8Low::R10b => Register64::R10,
        Register8Low::R11b => Register64::R11,
        Register8Low::R12b => Register64::R12,
        Register8Low::R13b => Register64::R13,
        Register8Low::R14b => Register64::R14,
        Register8Low::R15b => Register64::R15,
        }
    }
}

impl ArchRegister for Register8Low {
    open spec fn spec_arch_register(self) -> Register {
        Register::Register64(self.spec_wide())
    }

    fn arch_register(self) -> (r: Register) {
        Register::Register64(self.wide())
    }
}

impl Register8High {
    /// The 64-bit register that holds this one.
    pub open spec fn spec_wide(self) -> Register64 {
        match self {
        Register8High::Ah => Register64::Rax,
        Register8High::Bh => Register64::Rbx,
        Register8High::Ch => Register64::Rcx,
        Register8High::Dh => Register64::Rdx,
        }
    }

    fn wide(self) -> (r: Register64)
        ensures
            r == self.spec_wide(),
    {
        match self {
        Register8High::Ah => Register64::Rax,
        Register8High::Bh => Register64::Rbx,
        Register8High::Ch => Register64::Rcx,
        Register8High::Dh => Register64::Rdx,
        }
    }
}

impl ArchRegister for Register8High {
    open spec fn spec_arch_register(self) -> Register {
        Register::Register64(self.spec_wide())
    }

    fn arch_register(self) -> (r: Register) {
        Register::Register64(self.wide())
    }
}

impl ArchRegister for Register16 {
    open spec fn spec_arch_register(self) -> Register {
        match self {
        Register16::Ax => Register::Register64(Register64::Rax),
        Register16::Bx => Register::Register64(Register64::Rbx),
        Register16::Cx => Register::Register64(Register64::Rcx),
        Register16::Dx => Register::Register64(Register64::Rdx),
        Register16::Bp => Register::Register64(Register64::Rbp),
        Register16::Si => Register::Register64(Register64::Rsi),
        Register16::Di => Register::Register64(Register64::Rdi),
        Register16::Sp => Register::Register64(Register64::Rsp),
        Register16::Ip => Register::Register64(Register64::Rip),
        Register16::R8w => Register::Register64(Register64::R8),
        Register16::R9w => Register::Register64(Register64::R9),
        Register16::R10w => Register::Register64(Register64::R10),
        Register16::R11w => Register::Register64(Register64::R11),
        Register16::R12w => Register::Register64(Register64::R12),
        Register16::R13w => Register::Register64(Register64::R13),
        Register16::R14w => Register::Register64(Register64::R14),
        Register16::R15w => Register::Register64(Register64::R15),
        Register16::Cs => Register::Register16(Register16::Cs),
        Register16::Ss => Register::Register16(Register16::Ss),
        Register16::Ds => Register::Register16(Register16::Ds),
        Register16::Es => Register::Register16(Register16::Es),
        Register16::Fs => Register::Register16(Register16::Fs),
        Register16::Gs => Register::Register16(Register16::Gs),
        }
    }

    fn arch_register(self) -> (r: Register) {
        match self {
        Register16::Ax => Register::Register64(Register64::Rax),
        Register16::Bx => Register::Register64(Register64::Rbx),
        Register16::Cx => Register::Register64(Register64::Rcx),
        Register16::Dx => Register::Register64(Register64::Rdx),
        Register16::Bp => Register::Register64(Register64::Rbp),
        Register16::Si => Register::Register64(Register64::Rsi),
        Register16::Di => Register::Register64(Register64::Rdi),
        Register16::Sp => Register::Register64(Register64::Rsp),
        Register16::Ip => Register::Register64(Register64::Rip),
        Register16::R8w => Register::Register64(Register64::R8),
        Register16::R9w => Register::Register64(Register64::R9),
        Register16::R10w => Register::Register64(Register64::R10),
        Register16::R11w => Register::Register64(Register64::R11),
        Register16::R12w => Register::Register64(Register64::R12),
        Register16::R13w => Register::Register64(Register64::R13),
        Register16::R14w => Register::Register64(Register64::R14),
        Register16::R15w => Register::Register64(Register64::R15),
        Register16::Cs => Register::Register16(Register16::Cs),
        Register16::Ss => Register::Register16(Register16::Ss),
        Register16::Ds => Register::Register16(Register16::Ds),
        Register16::Es => Register::Register16(Register16::Es),
        Register16::Fs => Register::Register16(Register16::Fs),
        Register16::Gs => Register::Register16(Register16::Gs),
        }
    }
}

impl Register32 {
    /// The low 32 bits of the 64-bit register.
    pub open spec fn spec_value(self, regs: UserRegs) -> u64 {
        self.spec_wide().spec_value(regs) & 0xffff_ffff
    }

    pub fn value(self, registers: &UserRegs) -> (r: u64)
        ensures
            r == self.spec_value(*registers),
    {
        self.wide().value(registers) & 0xffff_ffff
    }
}

impl Register8Low {
    /// The low 8 bits of the 64-bit register.
    pub open spec fn spec_value(self, regs: UserRegs) -> u64 {
        self.spec_wide().spec_value(regs) & 0xff
    }

    pub fn value(self, registers: &UserRegs) -> (r: u64)
        ensures
            r == self.spec_value(*registers),
    {
        self.wide().value(registers) & 0xff
    }
}

impl Register8High {
    /// Bits 8 to 15 of the 64-bit register.
    pub open spec fn spec_value(self, regs: UserRegs) -> u64 {
        (self.spec_wide().spec_value(regs) >> 8u64) & 0xff
    }

    pub fn value(self, registers: &UserRegs) -> (r: u64)
        ensures
            r == self.spec_value(*registers),
    {
        (self.wide().value(registers) >> 8) & 0xff
    }
}

impl Register16 {
    /// A segment register's low 16 bits, or the low 16 bits of the 64-bit
    /// register.
    pub open spec fn spec_value(self, regs: UserRegs) -> u64 {
        match self {
            Register16::Cs => regs.cs & 0xffff,
            Register16::Ss => regs.ss & 0xffff,
            Register16::Ds => regs.ds & 0xffff,
            Register16::Es => regs.es & 0xffff,
            Register16::Fs => regs.fs & 0xffff,
            Register16::Gs => regs.gs & 0xffff,
            _ => match self.spec_arch_register() {
                Register::Register64(w) => w.spec_value(regs) & 0xffff,
                _ => 0,
            },
        }
    }

    pub fn value(self, registers: &UserRegs) -> (r: u64)
        ensures
            r == self.spec_value(*registers),
    {
        match self {
            Register16::Cs => registers.cs & 0xffff,
            Register16::Ss => registers.ss & 0xffff,
            Register16::Ds => registers.ds & 0xffff,
            Register16::Es => registers.es & 0xffff,
            Register16::Fs => registers.fs & 0xffff,
            Register16::Gs => registers.gs & 0xffff,
            _ => match self.arch_register() {
                Register::Register64(w) => w.value(registers) & 0xffff,
                _ => 0,
            },
        }
    }
}

impl Register {
    /// The register's value in `regs`.
    pub open spec fn spec_value(self, regs: UserRegs) -> u64 {
        match self {
            Register::Register64(r) => r.spec_value(regs),
            Register::Register32(r) => r.spec_value(regs),
            Register::Register16(r) => r.spec_value(regs),
            Register::Register8Low(r) => r.spec_value(regs),
            Register::Register8High(r) => r.spec_value(regs),
        }
    }

    pub fn value(self, registers: &UserRegs) -> (r: u64)
        ensures
            r == self.spec_value(*registers),
    {
        match self {
            Register::Register64(r) => r.value(registers),
            Register::Register32(r) => r.value(registers),
            Register::Register16(r) => r.value(registers),
            Register::Register8Low(r) => r.value(registers),
            Register::Register8High(r) => r.value(registers),
        }
    }

    /// The register's name.
    pub open spec fn spec_name(self) -> Seq<char> {
        match self {
            Register::Register64(r) => r.spec_name(),
            Register::Register32(r) => r.spec_name(),
            Register::Register16(r) => r.spec_name(),
            Register::Register8Low(r) => r.spec_name(),
            Register::Register8High(r) => r.spec_name(),
        }
    }

    /// The register's name.
    pub fn name(&self) -> (r: &'static str)
        ensures
            r@ == self.spec_name(),
    {
        match self {
            Register::Register64(r) => r.name(),
            Register::Register32(r) => r.name(),
            Register::Register16(r) => r.name(),
            Register::Register8Low(r) => r.name(),
            Register::Register8High(r) => r.name(),
        }
    }

    /// The register named `s`, trying the 64-, 32-, 16-bit and then the
    /// low and high 8-bit names.
    pub open spec fn spec_from_name(s: Seq<char>) -> Option<Register> {
        match Register64::spec_from_name(s) {
            Some(r) => Some(Register::Register64(r)),
            None => match Register32::spec_from_name(s) {
                Some(r) => Some(Register::Register32(r)),
                None => match Register16::spec_from_name(s) {
                    Some(r) => Some(Register::Register16(r)),
                    None => match Register8Low::spec_from_name(s) {
                        Some(r) => Some(Register::Register8Low(r)),
                        None => match Register8High::spec_from_name(s) {
                            Some(r) => Some(Register::Register8High(r)),
                            None => None,
                        },
                    },
                },
            },
        }
    }

    pub fn from_str(s: &str) -> (r: Result<Register, ()>)
        ensures
            r == match Register::spec_from_name(s@) {
                Some(x) => Ok(x),
                None => Err(()),
            },
    {
        if let Ok(r) = Register64::from_str(s) {
            return Ok(Register::Register64(r));
        }
        if let Ok(r) = Register32::from_str(s) {
            return Ok(Register::Register32(r));
        }
        if let Ok(r) = Register16::from_str(s) {
            return Ok(Register::Register16(r));
        }
        if let Ok(r) = Register8Low::from_str(s) {
            return Ok(Register::Register8Low(r));
        }
        if let Ok(r) = Register8High::from_str(s) {
            return Ok(Register::Register8High(r));
        }
        Err(())
    }
}

impl From<Register64> for Register {
    fn from(register: Register64) -> (r: Register)
        ensures
            r == Register::Register64(register),
    {
        Register::Register64(register)
    }
}

impl vstd::std_specs::convert::FromSpecImpl<Register64> for Register {
    open spec fn obeys_from_spec() -> bool {
        true
    }

    open spec fn from_spec(register: Register64) -> Register {
        Register::Register64(register)
    }
}

impl From<Register32> for Register {
    fn from(register: Register32) -> (r: Register)
        ensures
            r == Register::Register32(register),
    {
        Register::Register32(register)
    }
}

impl vstd::std_specs::convert::FromSpecImpl<Register32> for Register {
    open spec fn obeys_from_spec() -> bool {
        true
    }

    open spec fn from_spec(register: Register32) -> Register {
        Register::Register32(register)
    }
}

impl From<Register16> for Register {
    fn from(register: Register16) -> (r: Register)
        ensures
            r == Register::Register16(register),
    {
        Register::Register16(register)
    }
}

impl vstd::std_specs::convert::FromSpecImpl<Register16> for Register {
    open spec fn obeys_from_spec() -> bool {
        true
    }

    open spec fn from_spec(register: Register16) -> Register {
        Register::Register16(register)
    }
}

impl From<Register8Low> for Register {
    fn from(register: Register8Low) -> (r: Register)
        ensures
            r == Register::Register8Low(register),
    {
        Register::Register8Low(register)
    }
}

impl vstd::std_specs::convert::FromSpecImpl<Register8Low> for Register {
    open spec fn obeys_from_spec() -> bool {
        true
    }

    open spec fn from_spec(register: Register8Low) -> Register {
        Register::Register8Low(register)
    }
}

impl From<Register8High> for Register {
    fn from(register: Register8High) -> (r: Register)
        ensures
            r == Register::Register8High(register),
    {
        Register::Register8High(register)
    }
}

impl vstd::std_specs::convert::FromSpecImpl<Register8High> for Register {
    open spec fn obeys_from_spec() -> bool {
        true
    }

    open spec fn from_spec(register: Register8High) -> Register {
        Register::Register8High(register)
    }
}

} // verus!

//! Runtime predicates of the monitor, lowered from exported predicate
//! names, and their evaluation on live register state.
use vstd::prelude::*;
use vstd::string::*;
use crate::register::{str_eq, Register, UserRegs};
use crate::text::contains_seq;

verus! {

pub const CARRY_FLAG: u64 = 0x1;
pub const PARITY_FLAG: u64 = 0x4;
pub const AUXILIARY_CARRY_FLAG: u64 = 0x10;
pub const ZERO_FLAG: u64 = 0x40;
pub const SIGN_FLAG: u64 = 0x80;
pub const TRAP_FLAG: u64 = 0x100;
pub const INTERRUPT_FLAG: u64 = 0x200;
pub const DIRECTION_FLAG: u64 = 0x400;
pub const OVERFLOW_FLAG: u64 = 0x800;

/// Width of a memory operand, in bits, as the decoder reports it.
pub type AccessSize = u8;

/// A decoded memory operand: `segment:[base + index * scale + displacement]`.
#[derive(Clone, Copy, Debug, PartialEq, Eq)]
pub struct MemoryLocation {
    pub segment: Option<Register>,
    pub base: Option<Register>,
    pub index: Option<Register>,
    pub scale: u8,
    pub displacement: Option<i64>,
}

impl MemoryLocation {
    /// `base + index * scale + displacement` in 64-bit wrapping arithmetic;
    /// absent parts count as zero.
    pub open spec fn spec_address(self, regs: UserRegs) -> u64 {
        let b: u64 = match self.base {
            Some(r) => r.spec_value(regs),
            None => 0,
        };
        let i: u64 = match self.index {
            Some(r) => r.spec_value(regs).wrapping_mul(self.scale as u64),
            None => 0,
        };
        let a = b.wrapping_add(i);
        match self.displacement {
            Some(d) => a.wrapping_add_signed(d),
            None => a,
        }
    }

    pub fn address(&self, registers: &UserRegs) -> (r: u64)
        ensures
            r == self.spec_address(*registers),
    {
        let b: u64 = match self.base {
            Some(r) => r.value(registers),
            None => 0,
        };
        let i: u64 = match self.index {
            Some(r) => r.value(registers).wrapping_mul(self.scale as u64),
            None => 0,
        };
        let a = b.wrapping_add(i);
        match self.displacement {
            Some(d) => a.wrapping_add_signed(d),
            None => a,
        }
    }
}

/// What a comparison reads.
#[derive(Clone, Copy, Debug, PartialEq, Eq)]
pub enum ValueDestination {
    /// The address of a memory operand.
    Address(MemoryLocation),
    /// The value at a memory operand, with the operand width.
    Memory(AccessSize, MemoryLocation),
    /// A register.
    Register(Register),
}

impl ValueDestination {
    pub fn register(register: Register) -> (r: Self)
        ensures
            r == ValueDestination::Register(register),
    {
        ValueDestination::Register(register)
    }
}

#[derive(Clone, Copy, Debug, PartialEq, Eq, Structural)]
pub enum Compare {
    Less,
    Greater,
    GreaterOrEqual,
    Equal,
    NotEqual,
}

#[derive(Clone, Copy, Debug, PartialEq, Eq)]
pub struct ComparePredicate {
    pub destination: ValueDestination,
    pub compare: Compare,
    pub value: usize,
}

#[derive(Clone, Copy, Debug, PartialEq, Eq, Structural)]
pub enum EdgeTransition {
    Taken,
    NotTaken,
}

#[derive(Clone, Copy, Debug, PartialEq, Eq, Structural)]
pub struct EdgePredicate {
    pub source: usize,
    pub transition: EdgeTransition,
    pub destination: usize,
}

/// A predicate the monitor can test on a stopped thread.
#[derive(Clone, Copy, Debug, PartialEq, Eq)]
pub enum Predicate {
    Compare(ComparePredicate),
    Edge(EdgePredicate),
    /// The flags value has every bit of the mask set.
    FlagSet(u64),
    Visited,
}

/// A decoded instruction operand; only memory operands carry a location.
#[derive(Clone, Copy, Debug, PartialEq, Eq)]
pub struct DecodedOperand {
    pub memory: Option<MemoryLocation>,
}

/// What the monitor needs of a decoded instruction.
#[derive(Clone, Debug, PartialEq, Eq)]
pub struct DecodedInstruction {
    pub operand_width: u8,
    pub operands: Vec<DecodedOperand>,
}

/// The last memory operand among the first `n` operands.
pub open spec fn last_memory(ops: Seq<DecodedOperand>, n: int) -> Option<MemoryLocation>
    decreases n,
{
    if n <= 0 {
        None
    } else if ops[n - 1].memory.is_some() {
        ops[n - 1].memory
    } else {
        last_memory(ops, n - 1)
    }
}

/// The last memory operand of `instruction`.
pub fn last_memory_operand(instruction: &DecodedInstruction) -> (r: Option<MemoryLocation>)
    ensures
        r == last_memory(instruction.operands@, instruction.operands@.len() as int),
{
    let mut k: usize = instruction.operands.len();
    while k > 0
        invariant
            k <= instruction.operands@.len(),
            last_memory(instruction.operands@, instruction.operands@.len() as int)
                == last_memory(instruction.operands@, k as int),
        decreases k,
    {
        if instruction.operands[k - 1].memory.is_some() {
            return instruction.operands[k - 1].memory;
        }
        k = k - 1;
    }
    None
}

/// Why a predicate name could not be lowered.
#[derive(Clone, Copy, Debug, PartialEq, Eq, Structural)]
pub enum ConversionError {
    /// The name has more than three space-separated parts.
    TooManyParts,
    /// A part that the name's function needs is missing.
    MissingPart,
    /// An address or value part is not `0x` and hexadecimal digits.
    BadNumber,
    /// The register part names no register.
    UnknownRegister,
    /// The instruction has no memory operand for a memory destination.
    NoMemoryOperand,
}

/// The space-separated parts of `s`, empty parts included.
pub open spec fn split_spaces(s: Seq<char>) -> Seq<Seq<char>>
    decreases s.len(),
{
    if s.len() == 0 {
        seq![Seq::empty()]
    } else {
        let prev = split_spaces(s.drop_last());
        if s.last() == ' ' {
            prev.push(Seq::empty())
        } else {
            prev.update(prev.len() - 1, prev.last().push(s.last()))
        }
    }
}

proof fn lemma_split_nonempty(s: Seq<char>)
    ensures
        split_spaces(s).len() >= 1,
    decreases s.len(),
{
    if s.len() > 0 {
        lemma_split_nonempty(s.drop_last());
    }
}

/// The parts of `s` separated by single spaces.
pub fn split_on_space(s: &str) -> (r: Vec<String>)
    ensures
        r@.len() == split_spaces(s@).len(),
        forall|i: int| 0 <= i < r@.len() ==> (#[trigger] r@[i])@ == split_spaces(s@)[i],
{
    let n = s.unicode_len();
    let mut parts: Vec<String> = Vec::new();
    let mut cur = String::new();
    let mut i: usize = 0;
    while i < n
        invariant
            n == s@.len(),
            i <= n,
            parts@.len() + 1 == split_spaces(s@.subrange(0, i as int)).len(),
            forall|k: int| 0 <= k < parts@.len() ==> (#[trigger] parts@[k])@ == split_spaces(s@.subrange(0, i as int))[k],
            cur@ == split_spaces(s@.subrange(0, i as int)).last(),
        decreases n - i,
    {
        let c = s.get_char(i);
        proof {
            let t = s@.subrange(0, i + 1);
            assert(t.drop_last() =~= s@.subrange(0, i as int));
            assert(t.last() == c);
            lemma_split_nonempty(s@.subrange(0, i as int));
        }
        if c == ' ' {
            let done = cur;
            parts.push(done);
            cur = String::new();
        } else {
            crate::text::push_char(&mut cur, c);
        }
        i = i + 1;
    }
    parts.push(cur);
    proof {
        assert(s@.subrange(0, n as int) =~= s@);
    }
    parts
}

/// The digits of a `0x`-prefixed number: what follows the first two
/// characters, less one `+`.
pub open spec fn hex_body(p: Seq<char>) -> Seq<char> {
    if p.len() > 2 && p[2] == '+' { p.subrange(3, p.len() as int) } else { p.subrange(2, p.len() as int) }
}

/// Whether every character of `d` is a hexadecimal digit.
pub open spec fn all_hex(d: Seq<char>) -> bool {
    forall|i: int| 0 <= i < d.len() ==> crate::text::hex_value(#[trigger] d[i]).is_some()
}

/// The value of `0x` and hexadecimal digits (an optional `+` before the
/// digits), if it fits.
pub open spec fn spec_hex_after_prefix(p: Seq<char>) -> Option<usize> {
    if p.len() < 2 {
        None
    } else {
        let d = hex_body(p);
        if d.len() > 0 && all_hex(d) && hex_digits_value(d) <= usize::MAX {
            Some(hex_digits_value(d) as usize)
        } else {
            None
        }
    }
}

/// The value of a string of hexadecimal digits.
pub open spec fn hex_digits_value(d: Seq<char>) -> nat
    decreases d.len(),
{
    if d.len() == 0 {
        0
    } else {
        hex_digits_value(d.drop_last()) * 16 + match crate::text::hex_value(d.last()) {
            Some(v) => v,
            None => 0,
        }
    }
}

fn hex_digit_value(c: char) -> (r: Option<usize>)
    ensures
        match crate::text::hex_value(c) {
            Some(v) => r == Some(v as usize),
            None => r.is_none(),
        },
{
    if '0' <= c && c <= '9' {
        Some((c as u32 - '0' as u32) as usize)
    } else if 'a' <= c && c <= 'f' {
        Some((c as u32 - 'a' as u32 + 10) as usize)
    } else if 'A' <= c && c <= 'F' {
        Some((c as u32 - 'A' as u32 + 10) as usize)
    } else {
        None
    }
}

proof fn lemma_hex_prefix_le(d: Seq<char>, n: int)
    requires
        0 <= n <= d.len(),
    ensures
        hex_digits_value(d.subrange(0, n)) <= hex_digits_value(d),
    decreases d.len(),
{
    if n < d.len() {
        let init = d.drop_last();
        lemma_hex_prefix_le(init, n);
        assert(init.subrange(0, n) =~= d.subrange(0, n));
    } else {
        assert(d.subrange(0, n) =~= d);
    }
}

/// Parses the characters of `p` after its first two as a hexadecimal
/// number, as the address and value parts of predicate names are written.
pub fn hex_after_prefix(p: &str) -> (r: Option<usize>)
    ensures
        r == spec_hex_after_prefix(p@),
{
    let n = p.unicode_len();
    if n < 2 {
        return None;
    }
    let start: usize = if n > 2 && p.get_char(2) == '+' { 3 } else { 2 };
    let ghost d = p@.subrange(start as int, n as int);
    if start >= n {
        return None;
    }
    let mut v: usize = 0;
    let mut k: usize = start;
    while k < n
        invariant
            n == p@.len(),
            n >= 2,
            start < n,
            start == (if n > 2 && p@[2] == '+' { 3usize } else { 2usize }),
            start <= k <= n,
            d == p@.subrange(start as int, n as int),
            forall|i: int| start <= i < k ==> crate::text::hex_value(#[trigger] p@[i]).is_some(),
            v == hex_digits_value(p@.subrange(start as int, k as int)),
        decreases n - k,
    {
        let c = p.get_char(k);
        proof {
            assert(p@.subrange(start as int, k + 1).drop_last() =~= p@.subrange(start as int, k as int));
            assert(p@.subrange(start as int, k + 1).last() == c);
        }
        match hex_digit_value(c) {
            Some(x) => {
                if v > (usize::MAX - x) / 16 {
                    proof {
                        assert(d.subrange(0, k + 1 - start) =~= p@.subrange(start as int, k + 1));
                        lemma_hex_prefix_le(d, k + 1 - start);
                        assert(hex_digits_value(p@.subrange(start as int, k + 1)) == v * 16 + x);
                        let m = usize::MAX as int;
                        assert(v * 16 + x > m) by (nonlinear_arith)
                            requires
                                v > (m - x) / 16,
                                0 <= x < 16,
                                x <= m,
                        ;
                    }
                    return None;
                }
                proof {
                    let m = usize::MAX as int;
                    assert(v * 16 + x <= m) by (nonlinear_arith)
                        requires
                            v <= (m - x) / 16,
                            0 <= x,
                            x <= m,
                    ;
                }
                v = v * 16 + x;
            }
            None => {
                assert(d == hex_body(p@));
                assert(d[k - start] == c);
                assert(!crate::text::hex_value(d[k - start]).is_some());
                assert(!all_hex(d));
                return None;
            }
        }
        k = k + 1;
    }
    proof {
        assert(d == hex_body(p@));
        assert(p@.subrange(start as int, n as int) =~= d);
        assert forall|i: int| 0 <= i < d.len() implies crate::text::hex_value(#[trigger] d[i]).is_some() by {
            assert(d[i] == p@[start + i]);
        }
    }
    Some(v)
}

/// The flag mask a flag predicate name tests: `Some(Some(mask))` for the
/// minimum and maximum forms, `Some(None)` for the unsupported last-value
/// forms, `None` for other names.
pub open spec fn flag_of_name(f: Seq<char>) -> Option<Option<u64>> {
    if f == "min_carry_flag_set"@ { Some(Some(CARRY_FLAG)) } else if f == "min_parity_flag_set"@ { Some(Some(PARITY_FLAG)) } else if f == "min_adjust_flag_set"@ { Some(Some(AUXILIARY_CARRY_FLAG)) } else if f == "min_zero_flag_set"@ { Some(Some(ZERO_FLAG)) } else if f == "min_sign_flag_set"@ { Some(Some(SIGN_FLAG)) } else if f == "min_trap_flag_set"@ { Some(Some(TRAP_FLAG)) } else if f == "min_interrupt_flag_set"@ { Some(Some(INTERRUPT_FLAG)) } else if f == "min_direction_flag_set"@ { Some(Some(DIRECTION_FLAG)) } else if f == "min_overflow_flag_set"@ { Some(Some(OVERFLOW_FLAG)) } else if f == "max_carry_flag_set"@ { Some(Some(CARRY_FLAG)) } else if f == "max_parity_flag_set"@ { Some(Some(PARITY_FLAG)) } else if f == "max_adjust_flag_set"@ { Some(Some(AUXILIARY_CARRY_FLAG)) } else if f == "max_zero_flag_set"@ { Some(Some(ZERO_FLAG)) } else if f == "max_sign_flag_set"@ { Some(Some(SIGN_FLAG)) } else if f == "max_trap_flag_set"@ { Some(Some(TRAP_FLAG)) } else if f == "max_interrupt_flag_set"@ { Some(Some(INTERRUPT_FLAG)) } else if f == "max_direction_flag_set"@ { Some(Some(DIRECTION_FLAG)) } else if f == "max_overflow_flag_set"@ { Some(Some(OVERFLOW_FLAG)) } else if f == "last_carry_flag_set"@ { Some(None) } else if f == "last_parity_flag_set"@ { Some(None) } else if f == "last_adjust_flag_set"@ { Some(None) } else if f == "last_zero_flag_set"@ { Some(None) } else if f == "last_sign_flag_set"@ { Some(None) } else if f == "last_trap_flag_set"@ { Some(None) } else if f == "last_interrupt_flag_set"@ { Some(None) } else if f == "last_direction_flag_set"@ { Some(None) } else if f == "last_overflow_flag_set"@ { Some(None) } else { None }
}

fn flag_of(f: &str) -> (r: Option<Option<u64>>)
    ensures
        r == flag_of_name(f@),
{
    if str_eq(f, "min_carry_flag_set") {
        return Some(Some(CARRY_FLAG));
    }
    if str_eq(f, "min_parity_flag_set") {
        return Some(Some(PARITY_FLAG));
    }
    if str_eq(f, "min_adjust_flag_set") {
        return Some(Some(AUXILIARY_CARRY_FLAG));
    }
    if str_eq(f, "min_zero_flag_set") {
        return Some(Some(ZERO_FLAG));
    }
    if str_eq(f, "min_sign_flag_set") {
        return Some(Some(SIGN_FLAG));
    }
    if str_eq(f, "min_trap_flag_set") {
        return Some(Some(TRAP_FLAG));
    }
    if str_eq(f, "min_interrupt_flag_set") {
        return Some(Some(INTERRUPT_FLAG));
    }
    if str_eq(f, "min_direction_flag_set") {
        return Some(Some(DIRECTION_FLAG));
    }
    if str_eq(f, "min_overflow_flag_set") {
        return Some(Some(OVERFLOW_FLAG));
    }
    if str_eq(f, "max_carry_flag_set") {
        return Some(Some(CARRY_FLAG));
    }
    if str_eq(f, "max_parity_flag_set") {
        return Some(Some(PARITY_FLAG));
    }
    if str_eq(f, "max_adjust_flag_set") {
        return Some(Some(AUXILIARY_CARRY_FLAG));
    }
    if str_eq(f, "max_zero_flag_set") {
        return Some(Some(ZERO_FLAG));
    }
    if str_eq(f, "max_sign_flag_set") {
        return Some(Some(SIGN_FLAG));
    }
    if str_eq(f, "max_trap_flag_set") {
        return Some(Some(TRAP_FLAG));
    }
    if str_eq(f, "max_interrupt_flag_set") {
        return Some(Some(INTERRUPT_FLAG));
    }
    if str_eq(f, "max_direction_flag_set") {
        return Some(Some(DIRECTION_FLAG));
    }
    if str_eq(f, "max_overflow_flag_set") {
        return Some(Some(OVERFLOW_FLAG));
    }
    if str_eq(f, "last_carry_flag_set") {
        return Some(None);
    }
    if str_eq(f, "last_parity_flag_set") {
        return Some(None);
    }
    if str_eq(f, "last_adjust_flag_set") {
        return Some(None);
    }
    if str_eq(f, "last_zero_flag_set") {
        return Some(None);
    }
    if str_eq(f, "last_sign_flag_set") {
        return Some(None);
    }
    if str_eq(f, "last_trap_flag_set") {
        return Some(None);
    }
    if str_eq(f, "last_interrupt_flag_set") {
        return Some(None);
    }
    if str_eq(f, "last_direction_flag_set") {
        return Some(None);
    }
    if str_eq(f, "last_overflow_flag_set") {
        return Some(None);
    }
    None
}

/// The comparison a register-value predicate name makes: `Some(Some(c))`
/// for the minimum and maximum forms, `Some(None)` for the unsupported
/// last-value and difference forms, `None` for other names.
pub open spec fn compare_of_name(f: Seq<char>) -> Option<Option<Compare>> {
    if f == "min_reg_val_less"@ { Some(Some(Compare::Less)) } else if f == "max_reg_val_less"@ { Some(Some(Compare::Less)) } else if f == "last_reg_val_less"@ { Some(None) } else if f == "max_min_diff_reg_val_less"@ { Some(None) } else if f == "min_reg_val_greater_or_equal"@ { Some(Some(Compare::GreaterOrEqual)) } else if f == "max_reg_val_greater_or_equal"@ { Some(Some(Compare::GreaterOrEqual)) } else if f == "last_reg_val_greater_or_equal"@ { Some(None) } else if f == "max_min_diff_reg_val_greater_or_equal"@ { Some(None) } else { None }
}

fn compare_of(f: &str) -> (r: Option<Option<Compare>>)
    ensures
        r == compare_of_name(f@),
{
    if str_eq(f, "min_reg_val_less") {
        return Some(Some(Compare::Less));
    }
    if str_eq(f, "max_reg_val_less") {
        return Some(Some(Compare::Less));
    }
    if str_eq(f, "last_reg_val_less") {
        return Some(None);
    }
    if str_eq(f, "max_min_diff_reg_val_less") {
        return Some(None);
    }
    if str_eq(f, "min_reg_val_greater_or_equal") {
        return Some(Some(Compare::GreaterOrEqual));
    }
    if str_eq(f, "max_reg_val_greater_or_equal") {
        return Some(Some(Compare::GreaterOrEqual));
    }
    if str_eq(f, "last_reg_val_greater_or_equal") {
        return Some(None);
    }
    if str_eq(f, "max_min_diff_reg_val_greater_or_equal") {
        return Some(None);
    }
    None
}

/// Register names the monitor cannot read: segments and the flags.
pub open spec fn unsupported_register(r: Seq<char>) -> bool {
    r == "seg_cs"@ || r == "seg_ss"@ || r == "seg_ds"@ || r == "seg_es"@ || r == "seg_fs"@ || r == "seg_gs"@ || r == "eflags"@
}

/// What a register-value predicate reads, from its first part.
pub open spec fn spec_destination(part: Seq<char>, instr: DecodedInstruction) -> Result<Option<ValueDestination>, ConversionError> {
    let memory = last_memory(instr.operands@, instr.operands@.len() as int);
    if part == "memory_address"@ {
        match memory {
            Some(m) => Ok(Some(ValueDestination::Address(m))),
            None => Err(ConversionError::NoMemoryOperand),
        }
    } else if part == "memory_value"@ {
        match memory {
            Some(m) => Ok(Some(ValueDestination::Memory(instr.operand_width, m))),
            None => Err(ConversionError::NoMemoryOperand),
        }
    } else if unsupported_register(part) {
        Ok(None)
    } else {
        match Register::spec_from_name(part) {
            Some(r) => Ok(Some(ValueDestination::Register(r))),
            None => Err(ConversionError::UnknownRegister),
        }
    }
}

fn destination(part: &str, instr: &DecodedInstruction) -> (r: Result<Option<ValueDestination>, ConversionError>)
    ensures
        r == spec_destination(part@, *instr),
{
    let memory = last_memory_operand(instr);
    if str_eq(part, "memory_address") {
        match memory {
            Some(m) => Ok(Some(ValueDestination::Address(m))),
            None => Err(ConversionError::NoMemoryOperand),
        }
    } else if str_eq(part, "memory_value") {
        match memory {
            Some(m) => Ok(Some(ValueDestination::Memory(instr.operand_width, m))),
            None => Err(ConversionError::NoMemoryOperand),
        }
    } else if str_eq(part, "seg_cs") || str_eq(part, "seg_ss") || str_eq(part, "seg_ds") || str_eq(part, "seg_es") || str_eq(part, "seg_fs") || str_eq(part, "seg_gs") || str_eq(part, "eflags") {
        Ok(None)
    } else {
        match Register::from_str(part) {
            Ok(r) => Ok(Some(ValueDestination::Register(r))),
            Err(_) => Err(ConversionError::UnknownRegister),
        }
    }
}

/// The runtime predicate that an exported predicate name stands for, at
/// an instruction with the given decoding. `Ok(None)` for unknown functions and for the families the
/// monitor does not support (last-value forms, instruction counts,
/// successor counts, segment registers, the flags register as a value).
pub open spec fn spec_convert(name: Seq<char>, instr: DecodedInstruction) -> Result<Option<Predicate>, ConversionError> {
    let parts = split_spaces(name);
    if parts.len() > 3 {
        Err(ConversionError::TooManyParts)
    } else {
        let function = if parts.len() == 3 { parts[1] } else { parts[0] };
        if contains_seq(function, "edge"@) {
            match spec_hex_after_prefix(parts[0]) {
                None => Err(ConversionError::BadNumber),
                Some(source) => if parts.len() < 3 {
                    Err(ConversionError::MissingPart)
                } else {
                    match spec_hex_after_prefix(parts[2]) {
                        None => Err(ConversionError::BadNumber),
                        Some(destination) => if function == "has_edge_to"@ {
                            Ok(Some(Predicate::Edge(EdgePredicate { source, transition: EdgeTransition::Taken, destination })))
                        } else if function == "edge_only_taken_to"@ {
                            Ok(Some(Predicate::Edge(EdgePredicate { source, transition: EdgeTransition::NotTaken, destination })))
                        } else if function == "last_edge_to"@ {
                            Ok(None)
                        } else {
                            Ok(None)
                        },
                    }
                },
            }
        } else if contains_seq(function, "reg_val"@) {
            if parts.len() < 3 {
                Err(ConversionError::MissingPart)
            } else {
                match spec_hex_after_prefix(parts[2]) {
                    None => Err(ConversionError::BadNumber),
                    Some(value) => match spec_destination(parts[0], instr) {
                        Err(e) => Err(e),
                        Ok(None) => Ok(None),
                        Ok(Some(destination)) => match compare_of_name(function) {
                            Some(Some(compare)) => Ok(Some(Predicate::Compare(ComparePredicate { destination, compare, value }))),
                            Some(None) => Ok(None),
                            None => Ok(None),
                        },
                    },
                }
            }
        } else if contains_seq(function, "ins_count"@) || contains_seq(function, "selector_val"@)
            || contains_seq(function, "num_successors"@) {
            Ok(None)
        } else if contains_seq(function, "flag"@) {
            match flag_of_name(function) {
                Some(Some(mask)) => Ok(Some(Predicate::FlagSet(mask))),
                Some(None) => Ok(None),
                None => Ok(None),
            }
        } else if function == "is_visited"@ {
            Ok(Some(Predicate::Visited))
        } else {
            Ok(None)
        }
    }
}

/// Lowers the exported predicate name `predicate` at an instruction with
/// the given decoding.
pub fn convert_predicate(predicate: &str, instruction: &DecodedInstruction) -> (r: Result<Option<Predicate>, ConversionError>)
    ensures
        r == spec_convert(predicate@, *instruction),
{
    let parts = split_on_space(predicate);
    proof {
        lemma_split_nonempty(predicate@);
    }
    if parts.len() > 3 {
        return Err(ConversionError::TooManyParts);
    }
    let function: &str = if parts.len() == 3 { parts[1].as_str() } else { parts[0].as_str() };
    if crate::text::contains(function, "edge") {
        let source = match hex_after_prefix(parts[0].as_str()) {
            Some(v) => v,
            None => return Err(ConversionError::BadNumber),
        };
        if parts.len() < 3 {
            return Err(ConversionError::MissingPart);
        }
        let destination = match hex_after_prefix(parts[2].as_str()) {
            Some(v) => v,
            None => return Err(ConversionError::BadNumber),
        };
        if str_eq(function, "has_edge_to") {
            Ok(Some(Predicate::Edge(EdgePredicate { source, transition: EdgeTransition::Taken, destination })))
        } else if str_eq(function, "edge_only_taken_to") {
            Ok(Some(Predicate::Edge(EdgePredicate { source, transition: EdgeTransition::NotTaken, destination })))
        } else if str_eq(function, "last_edge_to") {
            Ok(None)
        } else {
            Ok(None)
        }
    } else if crate::text::contains(function, "reg_val") {
        if parts.len() < 3 {
            return Err(ConversionError::MissingPart);
        }
        let value = match hex_after_prefix(parts[2].as_str()) {
            Some(v) => v,
            None => return Err(ConversionError::BadNumber),
        };
        match destination(parts[0].as_str(), instruction) {
            Err(e) => Err(e),
            Ok(None) => Ok(None),
            Ok(Some(destination)) => match compare_of(function) {
                Some(Some(compare)) => Ok(Some(Predicate::Compare(ComparePredicate { destination, compare, value }))),
                Some(None) => Ok(None),
                None => Ok(None),
            },
        }
    } else if crate::text::contains(function, "ins_count") || crate::text::contains(function, "selector_val")
        || crate::text::contains(function, "num_successors") {
        Ok(None)
    } else if crate::text::contains(function, "flag") {
        match flag_of(function) {
            Some(Some(mask)) => Ok(Some(Predicate::FlagSet(mask))),
            Some(None) => Ok(None),
            None => Ok(None),
        }
    } else if str_eq(function, "is_visited") {
        Ok(Some(Predicate::Visited))
    } else {
        Ok(None)
    }
}

} // verus!

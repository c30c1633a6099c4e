//! AT&T operand syntax: immediates, registers and memory operands, parsed
//! from characters. The grammar is stated by the spec functions below;
//! each parser returns what its spec function returns.
use vstd::prelude::*;
use vstd::string::*;
use crate::register::{Register, UserRegs};
use crate::text::push_char;

verus! {

/// Width of a memory access.
#[derive(Clone, Copy, Debug, PartialEq, Eq, Structural)]
pub enum AccessSize {
    Size1Byte,
    Size2Byte,
    Size4Byte,
    Size8Byte,
}

/// Scale of an index register.
#[derive(Clone, Copy, Debug, PartialEq, Eq, Structural)]
pub enum ArraySize {
    Size1Byte,
    Size2Byte,
    Size4Byte,
    Size8Byte,
}

impl AccessSize {
    /// The size named by the digit string `s`.
    pub open spec fn spec_from_name(s: Seq<char>) -> Option<AccessSize> {
        if s == seq!['1'] { Some(AccessSize::Size1Byte) }
        else if s == seq!['2'] { Some(AccessSize::Size2Byte) }
        else if s == seq!['4'] { Some(AccessSize::Size4Byte) }
        else if s == seq!['8'] { Some(AccessSize::Size8Byte) }
        else { None }
    }

    pub fn from_str(s: &str) -> (r: Result<AccessSize, ()>)
        ensures
            r == match AccessSize::spec_from_name(s@) {
                Some(x) => Ok(x),
                None => Err(()),
            },
    {
        if s.unicode_len() != 1 {
            return Err(());
        }
        let c = s.get_char(0);
        assert(s@ =~= seq![c]);
        if c == '1' {
            Ok(AccessSize::Size1Byte)
        } else if c == '2' {
            Ok(AccessSize::Size2Byte)
        } else if c == '4' {
            Ok(AccessSize::Size4Byte)
        } else if c == '8' {
            Ok(AccessSize::Size8Byte)
        } else {
            Err(())
        }
    }

    /// Eight bytes.
    pub fn default() -> (r: AccessSize)
        ensures
            r == AccessSize::Size8Byte,
    {
        AccessSize::Size8Byte
    }
}

impl ArraySize {
    /// The scale named by the digit string `s`.
    pub open spec fn spec_from_name(s: Seq<char>) -> Option<ArraySize> {
        if s == seq!['1'] { Some(ArraySize::Size1Byte) }
        else if s == seq!['2'] { Some(ArraySize::Size2Byte) }
        else if s == seq!['4'] { Some(ArraySize::Size4Byte) }
        else if s == seq!['8'] { Some(ArraySize::Size8Byte) }
        else { None }
    }

    /// The scale in bytes.
    pub open spec fn spec_bytes(self) -> u64 {
        match self {
            ArraySize::Size1Byte => 1,
            ArraySize::Size2Byte => 2,
            ArraySize::Size4Byte => 4,
            ArraySize::Size8Byte => 8,
        }
    }

    pub fn bytes(self) -> (r: u64)
        ensures
            r == self.spec_bytes(),
    {
        match self {
            ArraySize::Size1Byte => 1,
            ArraySize::Size2Byte => 2,
            ArraySize::Size4Byte => 4,
            ArraySize::Size8Byte => 8,
        }
    }

    /// One byte.
    pub fn default() -> (r: ArraySize)
        ensures
            r == ArraySize::Size1Byte,
    {
        ArraySize::Size1Byte
    }
}

/// A memory operand: `offset(base, index, scale)`.
#[derive(Clone, Copy, Debug, PartialEq, Eq)]
pub struct MemoryLocation {
    pub offset: Option<i64>,
    pub base: Option<Register>,
    pub index: Option<(Register, ArraySize)>,
}

impl MemoryLocation {
    /// `base + index * scale + offset` in 64-bit wrapping arithmetic; absent
    /// parts count as zero.
    pub open spec fn spec_address(self, regs: UserRegs) -> u64 {
        let b: u64 = match self.base {
            Some(r) => r.spec_value(regs),
            None => 0,
        };
        let i: u64 = match self.index {
            Some((r, s)) => r.spec_value(regs).wrapping_mul(s.spec_bytes()),
            None => 0,
        };
        let a = b.wrapping_add(i);
        match self.offset {
            Some(o) => a.wrapping_add_signed(o),
            None => a,
        }
    }

    pub fn address(&self, registers: &UserRegs) -> (r: u64)
        ensures
            r == self.spec_address(*registers),
    {
        let b: u64 = match self.base {
            Some(r) => r.value(registers),
            None => 0,
        };
        let i: u64 = match self.index {
            Some((r, s)) => r.value(registers).wrapping_mul(s.bytes()),
            None => 0,
        };
        let a = b.wrapping_add(i);
        match self.offset {
            Some(o) => a.wrapping_add_signed(o),
            None => a,
        }
    }
}

/// One instruction operand.
#[derive(Clone, Copy, Debug, PartialEq, Eq)]
pub enum Operand {
    Memory(MemoryLocation),
    Register(Register),
    Immediate(usize),
}

#[inline]
pub fn is_space(chr: char) -> (r: bool)
    ensures
        r == (chr == ' ' || chr == '\t'),
{
    chr == ' ' || chr == '\t'
}

/// Character classes of the grammar: 0 spaces, 1 decimal digits, 2
/// hexadecimal digits, 3 ASCII letters and digits.
pub open spec fn in_class(c: char, class: int) -> bool {
    if class == 0 {
        c == ' ' || c == '\t'
    } else if class == 1 {
        '0' <= c && c <= '9'
    } else if class == 2 {
        ('0' <= c && c <= '9') || ('a' <= c && c <= 'f') || ('A' <= c && c <= 'F')
    } else {
        ('0' <= c && c <= '9') || ('a' <= c && c <= 'z') || ('A' <= c && c <= 'Z')
    }
}

/// The end of the longest run of `class` characters from `i`.
pub open spec fn run_end(s: Seq<char>, i: int, class: int) -> int
    decreases s.len() - i,
{
    if 0 <= i < s.len() && in_class(s[i], class) {
        run_end(s, i + 1, class)
    } else {
        i
    }
}

/// The value of a digit character.
pub open spec fn digit_value(c: char) -> nat {
    if '0' <= c && c <= '9' {
        (c as int - '0' as int) as nat
    } else if 'a' <= c && c <= 'f' {
        (c as int - 'a' as int + 10) as nat
    } else if 'A' <= c && c <= 'F' {
        (c as int - 'A' as int + 10) as nat
    } else {
        0
    }
}

/// The value of a digit string in `base`.
pub open spec fn digits_value(d: Seq<char>, base: nat) -> nat
    decreases d.len(),
{
    if d.len() == 0 {
        0
    } else {
        digits_value(d.drop_last(), base) * base + digit_value(d.last())
    }
}

/// A run of at least one digit of `class` in `base` at `i`, whose value
/// fits in `usize`.
pub open spec fn spec_digits(s: Seq<char>, i: int, class: int, base: nat) -> Option<(usize, int)> {
    let j = run_end(s, i, class);
    if j == i {
        None
    } else {
        let v = digits_value(s.subrange(i, j), base);
        if v <= usize::MAX { Some((v as usize, j)) } else { None }
    }
}

/// The two's-complement negation of `v`.
pub open spec fn negate(v: usize) -> usize {
    if v == 0 { 0 } else { (usize::MAX - v + 1) as usize }
}

/// An optional `-`, then `0x` and hexadecimal digits or decimal digits.
pub open spec fn spec_address(s: Seq<char>, i: int) -> Option<(usize, int)> {
    let neg = 0 <= i < s.len() && s[i] == '-';
    let k = if neg { i + 1 } else { i };
    let num = if 0 <= k && k + 2 <= s.len() && s[k] == '0' && s[k + 1] == 'x' {
        spec_digits(s, k + 2, 2, 16)
    } else {
        spec_digits(s, k, 1, 10)
    };
    match num {
        Some((v, j)) => Some((if neg { negate(v) } else { v }, j)),
        None => None,
    }
}

/// `%` and a register name.
pub open spec fn spec_register(s: Seq<char>, i: int) -> Option<(Register, int)> {
    if 0 <= i < s.len() && s[i] == '%' {
        let j = run_end(s, i + 1, 3);
        if j == i + 1 {
            None
        } else {
            match Register::spec_from_name(s.subrange(i + 1, j)) {
                Some(r) => Some((r, j)),
                None => None,
            }
        }
    } else {
        None
    }
}

/// `,`, spaces and a scale digit string.
pub open spec fn spec_scale(s: Seq<char>, i: int) -> Option<(ArraySize, int)> {
    if 0 <= i < s.len() && s[i] == ',' {
        let k = run_end(s, i + 1, 0);
        let j = run_end(s, k, 1);
        if j == k {
            None
        } else {
            match ArraySize::spec_from_name(s.subrange(k, j)) {
                Some(a) => Some((a, j)),
                None => None,
            }
        }
    } else {
        None
    }
}

/// `,`, spaces, an index register and an optional scale (one byte when absent).
pub open spec fn spec_index(s: Seq<char>, i: int) -> Option<((Register, ArraySize), int)> {
    if 0 <= i < s.len() && s[i] == ',' {
        let k = run_end(s, i + 1, 0);
        match spec_register(s, k) {
            Some((r, j)) => match spec_scale(s, j) {
                Some((a, j2)) => Some(((r, a), j2)),
                None => Some(((r, ArraySize::Size1Byte), j)),
            },
            None => None,
        }
    } else {
        None
    }
}

/// `(`, spaces, an optional base register, an optional index, spaces, `)`.
pub open spec fn spec_inner(s: Seq<char>, i: int) -> Option<(Option<Register>, Option<(Register, ArraySize)>, int)> {
    if 0 <= i < s.len() && s[i] == '(' {
        let k = run_end(s, i + 1, 0);
        let (base, k2) = match spec_register(s, k) {
            Some((r, j)) => (Some(r), j),
            None => (None, k),
        };
        let (index, k3) = match spec_index(s, k2) {
            Some((x, j)) => (Some(x), j),
            None => (None, k2),
        };
        let k4 = run_end(s, k3, 0);
        if 0 <= k4 < s.len() && s[k4] == ')' {
            Some((base, index, k4 + 1))
        } else {
            None
        }
    } else {
        None
    }
}

/// An optional offset and an optional parenthesised part, not both absent.
pub open spec fn spec_memory(s: Seq<char>, i: int) -> Option<(MemoryLocation, int)> {
    let (offset, k) = match spec_address(s, i) {
        Some((v, j)) => (Some(v as i64), j),
        None => (None, i),
    };
    let (base, index, k2) = match spec_inner(s, k) {
        Some((b, x, j)) => (b, x, j),
        None => (None, None, k),
    };
    if offset.is_none() && base.is_none() && index.is_none() {
        None
    } else {
        Some((MemoryLocation { offset, base, index }, k2))
    }
}

/// Spaces, then an immediate (`$`), a register (`%`) or a memory operand.
pub open spec fn spec_operand(s: Seq<char>, i: int) -> Option<(Operand, int)> {
    let k = run_end(s, i, 0);
    if k >= s.len() {
        None
    } else if s[k] == '$' {
        match spec_address(s, k + 1) {
            Some((v, j)) => Some((Operand::Immediate(v), j)),
            None => None,
        }
    } else if s[k] == '%' {
        match spec_register(s, k) {
            Some((r, j)) => Some((Operand::Register(r), j)),
            None => None,
        }
    } else {
        match spec_memory(s, k) {
            Some((m, j)) => Some((Operand::Memory(m), j)),
            None => None,
        }
    }
}

/// Further operands after `,` from position `p`, appended to `acc`; stops
/// before a `,` that no operand follows.
pub open spec fn spec_more_operands(s: Seq<char>, p: int, acc: Seq<Operand>) -> (Seq<Operand>, int)
    decreases s.len() - p,
{
    if 0 <= p < s.len() && s[p] == ',' {
        match spec_operand(s, p + 1) {
            Some((o, q)) => if p < q <= s.len() {
                spec_more_operands(s, q, acc.push(o))
            } else {
                (acc, p)
            },
            None => (acc, p),
        }
    } else {
        (acc, p)
    }
}

/// A `,`-separated list of operands; empty when the first does not parse.
pub open spec fn spec_operands(s: Seq<char>) -> (Seq<Operand>, int) {
    match spec_operand(s, 0) {
        Some((o, q)) => if 0 < q <= s.len() { spec_more_operands(s, q, seq![o]) } else { (Seq::empty(), 0) },
        None => (Seq::empty(), 0),
    }
}

/// The characters of `input`.
pub fn chars_of(input: &str) -> (r: Vec<char>)
    ensures
        r@ == input@,
{
    let n = input.unicode_len();
    let mut r: Vec<char> = Vec::new();
    let mut i: usize = 0;
    while i < n
        invariant
            n == input@.len(),
            i <= n,
            r@ == input@.subrange(0, i as int),
        decreases n - i,
    {
        r.push(input.get_char(i));
        assert(input@.subrange(0, i + 1) =~= input@.subrange(0, i as int).push(input@[i as int]));
        i = i + 1;
    }
    assert(input@.subrange(0, n as int) =~= input@);
    r
}

/// The characters of `s` from `i` on, as a string.
fn rest_of(s: &Vec<char>, i: usize) -> (r: String)
    requires
        i <= s@.len(),
    ensures
        r@ == s@.subrange(i as int, s@.len() as int),
{
    let mut r = String::new();
    let mut k: usize = i;
    while k < s.len()
        invariant
            i <= k <= s@.len(),
            r@ == s@.subrange(i as int, k as int),
        decreases s@.len() - k,
    {
        push_char(&mut r, s[k]);
        assert(s@.subrange(i as int, k + 1) =~= s@.subrange(i as int, k as int).push(s@[k as int]));
        k = k + 1;
    }
    r
}

fn class_member(c: char, class: u8) -> (r: bool)
    ensures
        r == in_class(c, class as int),
{
    if class == 0 {
        c == ' ' || c == '\t'
    } else if class == 1 {
        '0' <= c && c <= '9'
    } else if class == 2 {
        ('0' <= c && c <= '9') || ('a' <= c && c <= 'f') || ('A' <= c && c <= 'F')
    } else {
        ('0' <= c && c <= '9') || ('a' <= c && c <= 'z') || ('A' <= c && c <= 'Z')
    }
}

fn run(s: &Vec<char>, i: usize, class: u8) -> (j: usize)
    requires
        i <= s@.len(),
    ensures
        j as int == run_end(s@, i as int, class as int),
        i <= j <= s@.len(),
        forall|k: int| i <= k < j ==> in_class(#[trigger] s@[k], class as int),
{
    let mut j: usize = i;
    while j < s.len() && class_member(s[j], class)
        invariant
            i <= j <= s@.len(),
            run_end(s@, i as int, class as int) == run_end(s@, j as int, class as int),
            forall|k: int| i <= k < j ==> in_class(#[trigger] s@[k], class as int),
        decreases s@.len() - j,
    {
        j = j + 1;
    }
    j
}

fn digit_of(c: char) -> (r: usize)
    ensures
        r == digit_value(c),
        r < 16,
{
    if '0' <= c && c <= '9' {
        (c as u32 - '0' as u32) as usize
    } else if 'a' <= c && c <= 'f' {
        (c as u32 - 'a' as u32 + 10) as usize
    } else if 'A' <= c && c <= 'F' {
        (c as u32 - 'A' as u32 + 10) as usize
    } else {
        0
    }
}

proof fn lemma_digits_prefix(d: Seq<char>, n: int, base: nat)
    requires
        0 <= n <= d.len(),
        base >= 1,
    ensures
        digits_value(d.subrange(0, n), base) <= digits_value(d, base),
    decreases d.len(),
{
    if n < d.len() {
        let init = d.drop_last();
        lemma_digits_prefix(init, n, base);
        assert(init.subrange(0, n) =~= d.subrange(0, n));
        assert(digits_value(init, base) <= digits_value(init, base) * base) by (nonlinear_arith)
            requires
                base >= 1,
        ;
    } else {
        assert(d.subrange(0, n) =~= d);
    }
}

fn parse_digits(s: &Vec<char>, i: usize, class: u8, base: usize) -> (r: Option<(usize, usize)>)
    requires
        i <= s@.len(),
        (class == 1 && base == 10) || (class == 2 && base == 16),
    ensures
        match r {
            Some((v, j)) => spec_digits(s@, i as int, class as int, base as nat) == Some((v, j as int)) && j <= s@.len(),
            None => spec_digits(s@, i as int, class as int, base as nat).is_none(),
        },
{
    let j = run(s, i, class);
    if j == i {
        return None;
    }
    let mut v: usize = 0;
    let mut k: usize = i;
    while k < j
        invariant
            i <= k <= j,
            j <= s@.len(),
            j as int == run_end(s@, i as int, class as int),
            j != i,
            (class == 1 && base == 10) || (class == 2 && base == 16),
            v == digits_value(s@.subrange(i as int, k as int), base as nat),
        decreases j - k,
    {
        let d = digit_of(s[k]);
        proof {
            assert(s@.subrange(i as int, k + 1).drop_last() =~= s@.subrange(i as int, k as int));
            assert(s@.subrange(i as int, k + 1).last() == s@[k as int]);
        }
        if v > (usize::MAX - d) / base {
            proof {
                let whole = s@.subrange(i as int, j as int);
                assert(whole.subrange(0, k + 1 - i) =~= s@.subrange(i as int, k + 1));
                lemma_digits_prefix(whole, k + 1 - i, base as nat);
                assert(digits_value(s@.subrange(i as int, k + 1), base as nat) == v * base + d);
                let m = usize::MAX as int;
                assert(v * base + d > m) by (nonlinear_arith)
                    requires
                        v > (m - d) / (base as int),
                        base >= 10,
                        0 <= d < 16,
                        d <= m,
                ;
            }
            return None;
        }
        proof {
            let m = usize::MAX as int;
            assert(v * base + d <= m) by (nonlinear_arith)
                requires
                    v <= (m - d) / (base as int),
                    base >= 10,
                    0 <= d,
                    d <= m,
            ;
        }
        v = v * base + d;
        k = k + 1;
    }
    Some((v, j))
}

/// An optional `-`, then `0x` and hexadecimal digits or decimal digits.
fn parse_address(s: &Vec<char>, i: usize) -> (r: Option<(usize, usize)>)
    requires
        i <= s@.len(),
    ensures
        match r {
            Some((v, j)) => spec_address(s@, i as int) == Some((v, j as int)) && j <= s@.len(),
            None => spec_address(s@, i as int).is_none(),
        },
{
    let neg = i < s.len() && s[i] == '-';
    let k = if neg { i + 1 } else { i };
    let num = if k < s.len() && k + 1 < s.len() && s[k] == '0' && s[k + 1] == 'x' {
        parse_digits(s, k + 2, 2, 16)
    } else {
        parse_digits(s, k, 1, 10)
    };
    match num {
        Some((v, j)) => Some((if neg { if v == 0 { 0 } else { usize::MAX - v + 1 } } else { v }, j)),
        None => None,
    }
}

fn parse_register(s: &Vec<char>, i: usize) -> (r: Option<(Register, usize)>)
    requires
        i <= s@.len(),
    ensures
        match r {
            Some((x, j)) => spec_register(s@, i as int) == Some((x, j as int)) && j <= s@.len(),
            None => spec_register(s@, i as int).is_none(),
        },
{
    if i < s.len() && s[i] == '%' {
        let j = run(s, i + 1, 3);
        if j == i + 1 {
            return None;
        }
        let name = slice_string(s, i + 1, j);
        match Register::from_str(name.as_str()) {
            Ok(x) => Some((x, j)),
            Err(_) => None,
        }
    } else {
        None
    }
}

/// The characters of `s` from `i` to `j`, as a string.
fn slice_string(s: &Vec<char>, i: usize, j: usize) -> (r: String)
    requires
        i <= j <= s@.len(),
    ensures
        r@ == s@.subrange(i as int, j as int),
{
    let mut r = String::new();
    let mut k: usize = i;
    while k < j
        invariant
            i <= k <= j,
            j <= s@.len(),
            r@ == s@.subrange(i as int, k as int),
        decreases j - k,
    {
        push_char(&mut r, s[k]);
        assert(s@.subrange(i as int, k + 1) =~= s@.subrange(i as int, k as int).push(s@[k as int]));
        k = k + 1;
    }
    r
}

fn parse_scale(s: &Vec<char>, i: usize) -> (r: Option<(ArraySize, usize)>)
    requires
        i <= s@.len(),
    ensures
        match r {
            Some((x, j)) => spec_scale(s@, i as int) == Some((x, j as int)) && j <= s@.len(),
            None => spec_scale(s@, i as int).is_none(),
        },
{
    if i < s.len() && s[i] == ',' {
        let k = run(s, i + 1, 0);
        let j = run(s, k, 1);
        if j == k {
            return None;
        }
        if j == k + 1 {
            let c = s[k];
            assert(s@.subrange(k as int, j as int) =~= seq![c]);
            proof {
                if c != '1' {
                    lemma_single_differs(c, '1');
                }
                if c != '2' {
                    lemma_single_differs(c, '2');
                }
                if c != '4' {
                    lemma_single_differs(c, '4');
                }
                if c != '8' {
                    lemma_single_differs(c, '8');
                }
            }
            if c == '1' {
                Some((ArraySize::Size1Byte, j))
            } else if c == '2' {
                Some((ArraySize::Size2Byte, j))
            } else if c == '4' {
                Some((ArraySize::Size4Byte, j))
            } else if c == '8' {
                Some((ArraySize::Size8Byte, j))
            } else {
                proof {
                    lemma_single_differs(c, '1');
                    lemma_single_differs(c, '2');
                    lemma_single_differs(c, '4');
                    lemma_single_differs(c, '8');
                }
                None
            }
        } else {
            assert(s@.subrange(k as int, j as int).len() != 1);
            assert(seq!['1'].len() == 1 && seq!['2'].len() == 1 && seq!['4'].len() == 1 && seq!['8'].len() == 1);
            None
        }
    } else {
        None
    }
}

fn parse_index(s: &Vec<char>, i: usize) -> (r: Option<((Register, ArraySize), usize)>)
    requires
        i <= s@.len(),
    ensures
        match r {
            Some((x, j)) => spec_index(s@, i as int) == Some((x, j as int)) && j <= s@.len(),
            None => spec_index(s@, i as int).is_none(),
        },
{
    if i < s.len() && s[i] == ',' {
        let k = run(s, i + 1, 0);
        match parse_register(s, k) {
            Some((x, j)) => match parse_scale(s, j) {
                Some((a, j2)) => Some(((x, a), j2)),
                None => Some(((x, ArraySize::Size1Byte), j)),
            },
            None => None,
        }
    } else {
        None
    }
}

fn parse_inner(s: &Vec<char>, i: usize) -> (r: Option<(Option<Register>, Option<(Register, ArraySize)>, usize)>)
    requires
        i <= s@.len(),
    ensures
        match r {
            Some((b, x, j)) => spec_inner(s@, i as int) == Some((b, x, j as int)) && j <= s@.len(),
            None => spec_inner(s@, i as int).is_none(),
        },
{
    if i < s.len() && s[i] == '(' {
        let k = run(s, i + 1, 0);
        let (base, k2) = match parse_register(s, k) {
            Some((x, j)) => (Some(x), j),
            None => (None, k),
        };
        let (index, k3) = match parse_index(s, k2) {
            Some((x, j)) => (Some(x), j),
            None => (None, k2),
        };
        let k4 = run(s, k3, 0);
        if k4 < s.len() && s[k4] == ')' {
            Some((base, index, k4 + 1))
        } else {
            None
        }
    } else {
        None
    }
}

fn parse_memory(s: &Vec<char>, i: usize) -> (r: Option<(MemoryLocation, usize)>)
    requires
        i <= s@.len(),
    ensures
        match r {
            Some((m, j)) => spec_memory(s@, i as int) == Some((m, j as int)) && j <= s@.len(),
            None => spec_memory(s@, i as int).is_none(),
        },
{
    let (offset, k) = match parse_address(s, i) {
        Some((v, j)) => (Some(#[verifier::truncate] (v as i64)), j),
        None => (None, i),
    };
    let (base, index, k2) = match parse_inner(s, k) {
        Some((b, x, j)) => (b, x, j),
        None => (None, None, k),
    };
    if offset.is_none() && base.is_none() && index.is_none() {
        None
    } else {
        Some((MemoryLocation { offset, base, index }, k2))
    }
}

fn parse_operand(s: &Vec<char>, i: usize) -> (r: Option<(Operand, usize)>)
    requires
        i <= s@.len(),
    ensures
        match r {
            Some((o, j)) => spec_operand(s@, i as int) == Some((o, j as int)) && j <= s@.len(),
            None => spec_operand(s@, i as int).is_none(),
        },
{
    let k = run(s, i, 0);
    if k >= s.len() {
        None
    } else if s[k] == '$' {
        match parse_address(s, k + 1) {
            Some((v, j)) => Some((Operand::Immediate(v), j)),
            None => None,
        }
    } else if s[k] == '%' {
        match parse_register(s, k) {
            Some((x, j)) => Some((Operand::Register(x), j)),
            None => None,
        }
    } else {
        match parse_memory(s, k) {
            Some((m, j)) => Some((Operand::Memory(m), j)),
            None => None,
        }
    }
}

/// A `,`-separated list of operands, and the text after the last one. An
/// input whose first operand does not parse gives an empty list and the
/// whole input; a `,` that no operand follows is left in the rest.
pub fn operands(input: &str) -> (r: Result<(String, Vec<Operand>), ()>)
    ensures
        match r {
            Ok((rest, list)) => {
                let (l, p) = spec_operands(input@);
                &&& list@ == l
                &&& 0 <= p <= input@.len()
                &&& rest@ == input@.subrange(p, input@.len() as int)
            },
            Err(_) => false,
        },
{
    let s = chars_of(input);
    let mut list: Vec<Operand> = Vec::new();
    let mut p: usize = 0;
    match parse_operand(&s, 0) {
        Some((o, q)) => {
            proof {
                lemma_operand_advances(s@, 0);
            }
            list.push(o);
            p = q;
            assert(list@ =~= seq![o]);
            while p < s.len() && s[p] == ','
                invariant
                    0 < p <= s@.len(),
                    spec_operands(s@) == spec_more_operands(s@, p as int, list@),
                ensures
                    0 < p <= s@.len(),
                    spec_operands(s@) == (list@, p as int),
                decreases s@.len() - p,
            {
                match parse_operand(&s, p + 1) {
                    Some((o2, q2)) => {
                        proof {
                            lemma_operand_advances(s@, p + 1);
                        }
                        list.push(o2);
                        p = q2;
                    }
                    None => {
                        break;
                    }
                }
            }
        }
        None => {}
    }
    let rest = rest_of(&s, p);
    assert(spec_operands(s@) == (list@, p as int));
    Ok((rest, list))
}

/// One operand after optional spaces, and the text after it.
pub fn operand(input: &str) -> (r: Result<(String, Operand), ()>)
    ensures
        match r {
            Ok((rest, o)) => exists|j: int| spec_operand(input@, 0) == Some((o, j)) && 0 <= j <= input@.len()
                && rest@ == input@.subrange(j, input@.len() as int),
            Err(_) => spec_operand(input@, 0).is_none(),
        },
{
    let s = chars_of(input);
    match parse_operand(&s, 0) {
        Some((o, j)) => {
            proof {
                lemma_operand_advances(s@, 0);
            }
            Ok((rest_of(&s, j), o))
        }
        None => Err(()),
    }
}

proof fn lemma_single_differs(c: char, d: char)
    requires
        c != d,
    ensures
        seq![c] != seq![d],
{
    assert(seq![c][0] == c);
    assert(seq![d][0] == d);
}

proof fn lemma_run_bounds(s: Seq<char>, i: int, class: int)
    requires
        0 <= i <= s.len(),
    ensures
        i <= run_end(s, i, class) <= s.len(),
    decreases s.len() - i,
{
    if 0 <= i < s.len() && in_class(s[i], class) {
        lemma_run_bounds(s, i + 1, class);
    }
}

/// A parsed operand is not empty and ends inside the input.
proof fn lemma_operand_advances(s: Seq<char>, i: int)
    requires
        0 <= i <= s.len(),
    ensures
        match spec_operand(s, i) {
            Some((o, j)) => i < j <= s.len(),
            None => true,
        },
{
    lemma_run_bounds(s, i, 0);
    let k = run_end(s, i, 0);
    if k < s.len() {
        lemma_address_bounds(s, k + 1);
        lemma_address_bounds(s, k);
        lemma_register_bounds(s, k);
        if s[k] != '$' && s[k] != '%' {
            lemma_memory_bounds(s, k);
        }
    }
}

proof fn lemma_digits_bounds(s: Seq<char>, i: int, class: int, base: nat)
    requires
        0 <= i <= s.len(),
    ensures
        match spec_digits(s, i, class, base) {
            Some((v, j)) => i < j <= s.len(),
            None => true,
        },
{
    lemma_run_bounds(s, i, class);
}

proof fn lemma_address_bounds(s: Seq<char>, i: int)
    requires
        0 <= i <= s.len() + 1,
    ensures
        i <= s.len() ==> match spec_address(s, i) {
            Some((v, j)) => i < j <= s.len(),
            None => true,
        },
{
    if i <= s.len() {
        let neg = 0 <= i < s.len() && s[i] == '-';
        let k = if neg { i + 1 } else { i };
        if 0 <= k && k + 2 <= s.len() && s[k] == '0' && s[k + 1] == 'x' {
            lemma_digits_bounds(s, k + 2, 2, 16);
        } else {
            lemma_digits_bounds(s, k, 1, 10);
        }
    }
}

proof fn lemma_register_bounds(s: Seq<char>, i: int)
    requires
        0 <= i <= s.len(),
    ensures
        match spec_register(s, i) {
            Some((r, j)) => i < j <= s.len(),
            None => true,
        },
{
    if 0 <= i < s.len() && s[i] == '%' {
        lemma_run_bounds(s, i + 1, 3);
    }
}

proof fn lemma_memory_bounds(s: Seq<char>, i: int)
    requires
        0 <= i <= s.len(),
    ensures
        match spec_memory(s, i) {
            Some((m, j)) => i < j <= s.len(),
            None => true,
        },
{
    lemma_address_bounds(s, i);
    let k = match spec_address(s, i) {
        Some((v, j)) => j,
        None => i,
    };
    lemma_inner_bounds(s, k);
}

proof fn lemma_inner_bounds(s: Seq<char>, i: int)
    requires
        0 <= i <= s.len(),
    ensures
        match spec_inner(s, i) {
            Some((b, x, j)) => i < j <= s.len(),
            None => true,
        },
{
    if 0 <= i < s.len() && s[i] == '(' {
        lemma_run_bounds(s, i + 1, 0);
        let k = run_end(s, i + 1, 0);
        lemma_register_bounds(s, k);
        let k2 = match spec_register(s, k) {
            Some((r, j)) => j,
            None => k,
        };
        lemma_index_bounds(s, k2);
        let k3 = match spec_index(s, k2) {
            Some((x, j)) => j,
            None => k2,
        };
        lemma_run_bounds(s, k3, 0);
    }
}

proof fn lemma_index_bounds(s: Seq<char>, i: int)
    requires
        0 <= i <= s.len(),
    ensures
        match spec_index(s, i) {
            Some((x, j)) => i < j <= s.len(),
            None => true,
        },
{
    if 0 <= i < s.len() && s[i] == ',' {
        lemma_run_bounds(s, i + 1, 0);
        let k = run_end(s, i + 1, 0);
        lemma_register_bounds(s, k);
        match spec_register(s, k) {
            Some((r, j)) => {
                if 0 <= j < s.len() && s[j] == ',' {
                    lemma_run_bounds(s, j + 1, 0);
                    let k2 = run_end(s, j + 1, 0);
                    lemma_run_bounds(s, k2, 1);
                }
            },
            None => {},
        }
    }
}

} // verus!

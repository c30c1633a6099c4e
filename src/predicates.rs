//! The predicate library: boolean classifiers over one instruction summary,
//! and predicates that bind a classifier to an address with its parameters
//! and score.
use vstd::prelude::*;
use vstd::string::*;
use crate::trace::{Instruction, Register, Selector, EFLAGS_INDEX};

verus! {

/// A score as the exact fraction `num / den`.
#[derive(Clone, Copy, Debug, PartialEq, Eq, Structural)]
pub struct Score {
    pub num: u64,
    pub den: u64,
}

/// Whether score `a` is below score `b`, as fractions.
pub open spec fn score_lt(a: Score, b: Score) -> bool {
    (a.num as int) * (b.den as int) < (b.num as int) * (a.den as int)
}

/// Whether scores `a` and `b` are the same fraction.
pub open spec fn score_eq(a: Score, b: Score) -> bool {
    (a.num as int) * (b.den as int) == (b.num as int) * (a.den as int)
}

/// The product of two 64-bit values, exact in 128 bits.
pub fn mul_wide(a: u64, b: u64) -> (r: u128)
    ensures
        r == (a as int) * (b as int),
{
    proof {
        assert((a as int) * (b as int) <= 0xffff_ffff_ffff_ffff * 0xffff_ffff_ffff_ffff) by (nonlinear_arith)
            requires
                a <= 0xffff_ffff_ffff_ffff,
                b <= 0xffff_ffff_ffff_ffff,
                0 <= a,
                0 <= b,
        ;
    }
    (a as u128) * (b as u128)
}

impl Score {
    /// The score zero.
    pub fn zero() -> (r: Score)
        ensures
            r.num == 0 && r.den == 1,
    {
        Score { num: 0, den: 1 }
    }

    /// Whether this score is below `other`.
    pub fn less_than(&self, other: &Score) -> (r: bool)
        ensures
            r == score_lt(*self, *other),
    {
        mul_wide(self.num, other.den) < mul_wide(other.num, self.den)
    }

    /// Whether this score is the same fraction as `other`.
    pub fn same_as(&self, other: &Score) -> (r: bool)
        ensures
            r == score_eq(*self, *other),
    {
        mul_wide(self.num, other.den) == mul_wide(other.num, self.den)
    }

    /// Whether this score is strictly above the fraction `num / den`.
    pub fn above(&self, num: u64, den: u64) -> (r: bool)
        ensures
            r == ((self.num as int) * (den as int) > (num as int) * (self.den as int)),
    {
        mul_wide(self.num, den) > mul_wide(num, self.den)
    }
}

/// The classifier functions of the predicate library.
#[derive(Clone, Copy, Debug, PartialEq, Eq, Structural)]
pub enum Classifier {
    Empty,
    IsVisited,
    MinRegValLess,
    MaxRegValLess,
    MaxMinDiffRegValLess,
    MinRegValGreaterOrEqual,
    MaxRegValGreaterOrEqual,
    MaxMinDiffRegValGreaterOrEqual,
    /// Bit `pos` of the minimum flags value is set.
    MinFlagSet(u64),
    /// Bit `pos` of the maximum flags value is set.
    MaxFlagSet(u64),
    NumSuccessorsGreater,
    NumSuccessorsEqual,
    HasEdgeTo,
    EdgeOnlyTakenTo,
}

/// The value of register `i` in `m`, if present.
pub open spec fn reg_value(m: Map<usize, Register>, i: usize) -> Option<u64> {
    if m.contains_key(i) {
        Some(m[i].value)
    } else {
        None
    }
}

/// `max - min` in 64-bit wrapping arithmetic.
pub open spec fn wrapping_diff(max: u64, min: u64) -> u64 {
    if max >= min {
        (max - min) as u64
    } else {
        (max - min + 0x1_0000_0000_0000_0000) as u64
    }
}

/// Whether bit `pos` of the flags value in `m` is set; false when absent.
pub open spec fn flag_bit_set(m: Map<usize, Register>, pos: u64) -> bool {
    match reg_value(m, EFLAGS_INDEX) {
        Some(v) => v & (1u64 << pos) != 0,
        None => false,
    }
}

/// Whether some successor of `instr` is `dst`.
pub open spec fn has_successor(instr: Instruction, dst: usize) -> bool {
    exists|k: int| 0 <= k < instr.successors@.len() && instr.successors@[k].address == dst
}

/// The parameters that each classifier needs are present.
pub open spec fn params_ok(c: Classifier, p1: Option<usize>, p2: Option<usize>) -> bool {
    match c {
        Classifier::MinRegValLess | Classifier::MaxRegValLess | Classifier::MaxMinDiffRegValLess
        | Classifier::MinRegValGreaterOrEqual | Classifier::MaxRegValGreaterOrEqual
        | Classifier::MaxMinDiffRegValGreaterOrEqual => p1.is_some() && p2.is_some(),
        Classifier::MinFlagSet(pos) | Classifier::MaxFlagSet(pos) => pos < 64,
        Classifier::NumSuccessorsGreater | Classifier::NumSuccessorsEqual | Classifier::HasEdgeTo
        | Classifier::EdgeOnlyTakenTo => p1.is_some(),
        _ => true,
    }
}

/// Truth of classifier `c` with parameters `p1`, `p2` on `instr`.
pub open spec fn classify(c: Classifier, instr: Instruction, p1: Option<usize>, p2: Option<usize>) -> bool {
    let min = instr.registers_min.view();
    let max = instr.registers_max.view();
    match c {
        Classifier::Empty => false,
        Classifier::IsVisited => true,
        Classifier::MinRegValLess => match reg_value(min, p1->0) {
            Some(v) => v < p2->0 as u64,
            None => false,
        },
        Classifier::MaxRegValLess => match reg_value(max, p1->0) {
            Some(v) => v < p2->0 as u64,
            None => false,
        },
        Classifier::MaxMinDiffRegValLess => match (reg_value(max, p1->0), reg_value(min, p1->0)) {
            (Some(hi), Some(lo)) => wrapping_diff(hi, lo) < p2->0 as u64,
            _ => false,
        },
        Classifier::MinRegValGreaterOrEqual => match reg_value(min, p1->0) {
            Some(v) => v >= p2->0 as u64,
            None => false,
        },
        Classifier::MaxRegValGreaterOrEqual => match reg_value(max, p1->0) {
            Some(v) => v >= p2->0 as u64,
            None => false,
        },
        Classifier::MaxMinDiffRegValGreaterOrEqual => match (reg_value(max, p1->0), reg_value(min, p1->0)) {
            (Some(hi), Some(lo)) => wrapping_diff(hi, lo) >= p2->0 as u64,
            _ => false,
        },
        Classifier::MinFlagSet(pos) => flag_bit_set(min, pos),
        Classifier::MaxFlagSet(pos) => flag_bit_set(max, pos),
        Classifier::NumSuccessorsGreater => instr.successors@.len() > p1->0,
        Classifier::NumSuccessorsEqual => instr.successors@.len() == p1->0,
        Classifier::HasEdgeTo => has_successor(instr, p1->0),
        Classifier::EdgeOnlyTakenTo => has_successor(instr, p1->0) && instr.successors@.len() == 1,
    }
}

/// What a predicate tests: its classifier, parameters and address.
pub open spec fn test_of(p: Predicate) -> (Classifier, Option<usize>, Option<usize>, usize) {
    (p.function, p.p1, p.p2, p.address)
}

/// The tests of a list of predicates, in order.
pub open spec fn tests(s: Seq<Predicate>) -> Seq<(Classifier, Option<usize>, Option<usize>, usize)> {
    s.map_values(|p: Predicate| test_of(p))
}

/// The tests of a concatenation are the concatenated tests.
pub proof fn lemma_tests_append(a: Seq<Predicate>, b: Seq<Predicate>)
    ensures
        tests(a + b) == tests(a) + tests(b),
{
    assert(tests(a + b) =~= tests(a) + tests(b));
}

/// The tests of a list extended by one predicate.
pub proof fn lemma_tests_push(a: Seq<Predicate>, p: Predicate)
    ensures
        tests(a.push(p)) == tests(a).push(test_of(p)),
{
    assert(tests(a.push(p)) =~= tests(a).push(test_of(p)));
}

/// A classifier's truth depends on the classifier, its parameters and the
/// instruction summary alone: the same inputs always give the same result.
pub proof fn lemma_classify_deterministic(
    c: Classifier,
    i1: Instruction,
    i2: Instruction,
    p1: Option<usize>,
    p2: Option<usize>,
)
    requires
        i1 == i2,
    ensures
        classify(c, i1, p1, p2) == classify(c, i2, p1, p2),
{
}

/// A classifier bound to an instruction address, with its parameters and score.
#[derive(Debug)]
pub struct Predicate {
    pub name: String,
    pub p1: Option<usize>,
    pub p2: Option<usize>,
    pub function: Classifier,
    pub score: Score,
    pub address: usize,
}

/// Truth of predicate `p` on the summary at its address; false when the
/// address was not visited.
pub open spec fn holds(p: Predicate, instr: Option<Instruction>) -> bool {
    match instr {
        Some(i) => classify(p.function, i, p.p1, p.p2),
        None => false,
    }
}

/// A predicate reduced to what is exported: name, address and score.
#[derive(Debug)]
pub struct SerializedPredicate {
    pub name: String,
    pub score: Score,
    pub address: usize,
}

impl SerializedPredicate {
    pub fn new(name: String, address: usize, score: Score) -> (r: SerializedPredicate)
        ensures
            r.name@ == name@,
            r.address == address,
            r.score == score,
    {
        SerializedPredicate { name, score, address }
    }
}

impl Predicate {
    pub open spec fn wf(&self) -> bool {
        params_ok(self.function, self.p1, self.p2)
    }

    /// A predicate with score zero.
    pub fn new(name: &str, address: usize, function: Classifier, p1: Option<usize>, p2: Option<usize>) -> (r: Predicate)
        ensures
            r.name@ == name@,
            r.address == address,
            r.function == function,
            r.p1 == p1,
            r.p2 == p2,
            r.score == (Score { num: 0, den: 1 }),
    {
        Predicate { name: String::from_str(name), address, p1, p2, function, score: Score::zero() }
    }

    /// The exported form.
    pub fn to_serialzed(&self) -> (r: SerializedPredicate)
        ensures
            r.name@ == self.name@,
            r.address == self.address,
            r.score == self.score,
    {
        SerializedPredicate::new(self.name.clone(), self.address, self.score)
    }

    /// Truth on the summary at the predicate's address, if any.
    pub fn execute(&self, instruction_option: Option<&Instruction>) -> (r: bool)
        requires
            self.wf(),
        ensures
            r == match instruction_option {
                Some(i) => classify(self.function, *i, self.p1, self.p2),
                None => false,
            },
    {
        match instruction_option {
            Some(instruction) => classify_exec(self.function, instruction, self.p1, self.p2),
            None => false,
        }
    }

    /// The predicate that never holds.
    pub fn gen_empty(address: usize) -> (r: Predicate)
        ensures
            r.address == address,
            r.function == Classifier::Empty,
            r.name@ == "empty"@,
            r.wf(),
    {
        Predicate::new("empty", address, Classifier::Empty, None, None)
    }

    /// The predicate's name.
    pub fn to_string(&self) -> (r: String)
        ensures
            r@ == self.name@,
    {
        self.name.clone()
    }
}

/// Evaluates classifier `c` on `instr`.
pub fn classify_exec(c: Classifier, instr: &Instruction, p1: Option<usize>, p2: Option<usize>) -> (r: bool)
    requires
        params_ok(c, p1, p2),
    ensures
        r == classify(c, *instr, p1, p2),
{
    match c {
        Classifier::Empty => empty(instr, p1, p2),
        Classifier::IsVisited => is_visited(instr, p1, p2),
        Classifier::MinRegValLess => min_reg_val_less(instr, p1, p2),
        Classifier::MaxRegValLess => max_reg_val_less(instr, p1, p2),
        Classifier::MaxMinDiffRegValLess => max_min_diff_reg_val_less(instr, p1, p2),
        Classifier::MinRegValGreaterOrEqual => min_reg_val_greater_or_equal(instr, p1, p2),
        Classifier::MaxRegValGreaterOrEqual => max_reg_val_greater_or_equal(instr, p1, p2),
        Classifier::MaxMinDiffRegValGreaterOrEqual => max_min_diff_reg_val_greater_or_equal(instr, p1, p2),
        Classifier::MinFlagSet(pos) => is_flag_bit_set(instr, Selector::RegMin, pos),
        Classifier::MaxFlagSet(pos) => is_flag_bit_set(instr, Selector::RegMax, pos),
        Classifier::NumSuccessorsGreater => num_successors_greater(instr, p1, p2),
        Classifier::NumSuccessorsEqual => num_successors_equal(instr, p1, p2),
        Classifier::HasEdgeTo => has_edge_to(instr, p1, p2),
        Classifier::EdgeOnlyTakenTo => edge_only_taken_to(instr, p1, p2),
    }
}

pub fn empty(_instruction: &Instruction, _p1: Option<usize>, _p2: Option<usize>) -> (r: bool)
    ensures
        !r,
{
    false
}

pub fn is_visited(_instruction: &Instruction, _p1: Option<usize>, _p2: Option<usize>) -> (r: bool)
    ensures
        r,
{
    true
}

/// The name of the `<` comparison for `selector`.
pub fn selector_val_less_name(selector: &Selector) -> (r: String)
    requires
        *selector != Selector::RegLast,
    ensures
        r@ == match *selector {
            Selector::RegMin => "min_reg_val_less"@,
            Selector::RegMax => "max_reg_val_less"@,
            Selector::RegMaxMinDiff => "max_min_diff_reg_val_less"@,
            _ => "ins_count_less"@,
        },
{
    match selector {
        Selector::RegMin => String::from_str("min_reg_val_less"),
        Selector::RegMax => String::from_str("max_reg_val_less"),
        Selector::RegMaxMinDiff => String::from_str("max_min_diff_reg_val_less"),
        _ => String::from_str("ins_count_less"),
    }
}

/// The `<` classifier for `selector`.
pub fn selector_val_less(selector: &Selector) -> (r: Classifier)
    requires
        *selector == Selector::RegMin || *selector == Selector::RegMax || *selector == Selector::RegMaxMinDiff,
    ensures
        r == match *selector {
            Selector::RegMin => Classifier::MinRegValLess,
            Selector::RegMax => Classifier::MaxRegValLess,
            _ => Classifier::MaxMinDiffRegValLess,
        },
{
    match selector {
        Selector::RegMin => Classifier::MinRegValLess,
        Selector::RegMax => Classifier::MaxRegValLess,
        _ => Classifier::MaxMinDiffRegValLess,
    }
}

/// The name of the `>=` comparison for `selector`.
pub fn selector_val_greater_or_equal_name(selector: &Selector) -> (r: String)
    requires
        *selector != Selector::RegLast,
    ensures
        r@ == match *selector {
            Selector::RegMin => "min_reg_val_greater_or_equal"@,
            Selector::RegMax => "max_reg_val_greater_or_equal"@,
            Selector::RegMaxMinDiff => "max_min_diff_reg_val_greater_or_equal"@,
            _ => "ins_count_greater_or_equal"@,
        },
{
    match selector {
        Selector::RegMin => String::from_str("min_reg_val_greater_or_equal"),
        Selector::RegMax => String::from_str("max_reg_val_greater_or_equal"),
        Selector::RegMaxMinDiff => String::from_str("max_min_diff_reg_val_greater_or_equal"),
        _ => String::from_str("ins_count_greater_or_equal"),
    }
}

/// The `>=` classifier for `selector`.
pub fn selector_val_greater_or_equal(selector: &Selector) -> (r: Classifier)
    requires
        *selector == Selector::RegMin || *selector == Selector::RegMax || *selector == Selector::RegMaxMinDiff,
    ensures
        r == match *selector {
            Selector::RegMin => Classifier::MinRegValGreaterOrEqual,
            Selector::RegMax => Classifier::MaxRegValGreaterOrEqual,
            _ => Classifier::MaxMinDiffRegValGreaterOrEqual,
        },
{
    match selector {
        Selector::RegMin => Classifier::MinRegValGreaterOrEqual,
        Selector::RegMax => Classifier::MaxRegValGreaterOrEqual,
        _ => Classifier::MaxMinDiffRegValGreaterOrEqual,
    }
}

pub fn min_reg_val_less(instruction: &Instruction, reg_index: Option<usize>, value: Option<usize>) -> (r: bool)
    requires
        reg_index.is_some(),
        value.is_some(),
    ensures
        r == classify(Classifier::MinRegValLess, *instruction, reg_index, value),
{
    match instruction.registers_min.get(reg_index.unwrap()) {
        Some(reg) => reg.value() < value.unwrap() as u64,
        None => false,
    }
}

pub fn max_reg_val_less(instruction: &Instruction, reg_index: Option<usize>, value: Option<usize>) -> (r: bool)
    requires
        reg_index.is_some(),
        value.is_some(),
    ensures
        r == classify(Classifier::MaxRegValLess, *instruction, reg_index, value),
{
    match instruction.registers_max.get(reg_index.unwrap()) {
        Some(reg) => reg.value() < value.unwrap() as u64,
        None => false,
    }
}

pub fn max_min_diff_reg_val_less(instruction: &Instruction, reg_index: Option<usize>, value: Option<usize>) -> (r: bool)
    requires
        reg_index.is_some(),
        value.is_some(),
    ensures
        r == classify(Classifier::MaxMinDiffRegValLess, *instruction, reg_index, value),
{
    match (instruction.registers_max.get(reg_index.unwrap()), instruction.registers_min.get(reg_index.unwrap())) {
        (Some(reg_max), Some(reg_min)) => reg_max.value().wrapping_sub(reg_min.value()) < value.unwrap() as u64,
        _ => false,
    }
}

pub fn min_reg_val_greater_or_equal(instruction: &Instruction, reg_index: Option<usize>, value: Option<usize>) -> (r: bool)
    requires
        reg_index.is_some(),
        value.is_some(),
    ensures
        r == classify(Classifier::MinRegValGreaterOrEqual, *instruction, reg_index, value),
{
    match instruction.registers_min.get(reg_index.unwrap()) {
        Some(reg) => reg.value() >= value.unwrap() as u64,
        None => false,
    }
}

pub fn max_reg_val_greater_or_equal(instruction: &Instruction, reg_index: Option<usize>, value: Option<usize>) -> (r: bool)
    requires
        reg_index.is_some(),
        value.is_some(),
    ensures
        r == classify(Classifier::MaxRegValGreaterOrEqual, *instruction, reg_index, value),
{
    match instruction.registers_max.get(reg_index.unwrap()) {
        Some(reg) => reg.value() >= value.unwrap() as u64,
        None => false,
    }
}

pub fn max_min_diff_reg_val_greater_or_equal(instruction: &Instruction, reg_index: Option<usize>, value: Option<usize>) -> (r: bool)
    requires
        reg_index.is_some(),
        value.is_some(),
    ensures
        r == classify(Classifier::MaxMinDiffRegValGreaterOrEqual, *instruction, reg_index, value),
{
    match (instruction.registers_max.get(reg_index.unwrap()), instruction.registers_min.get(reg_index.unwrap())) {
        (Some(reg_max), Some(reg_min)) => reg_max.value().wrapping_sub(reg_min.value()) >= value.unwrap() as u64,
        _ => false,
    }
}

fn is_flag_bit_set(instruction: &Instruction, reg_type: Selector, pos: u64) -> (r: bool)
    requires
        reg_type == Selector::RegMin || reg_type == Selector::RegMax,
        pos < 64,
    ensures
        reg_type == Selector::RegMin ==> r == flag_bit_set(instruction.registers_min.view(), pos),
        reg_type == Selector::RegMax ==> r == flag_bit_set(instruction.registers_max.view(), pos),
{
    match reg_type {
        Selector::RegMin => is_reg_bit_set(instruction.registers_min.get(EFLAGS_INDEX), pos),
        _ => is_reg_bit_set(instruction.registers_max.get(EFLAGS_INDEX), pos),
    }
}

fn is_reg_bit_set(reg: Option<&Register>, pos: u64) -> (r: bool)
    requires
        pos < 64,
    ensures
        r == match reg {
            Some(v) => v.value & (1u64 << pos) != 0,
            None => false,
        },
{
    match reg {
        Some(v) => v.value() & (1u64 << pos) != 0,
        None => false,
    }
}

pub fn min_carry_flag_set(instruction: &Instruction, _p1: Option<usize>, _p2: Option<usize>) -> (r: bool)
    ensures
        r == flag_bit_set(instruction.registers_min.view(), 0),
{
    is_flag_bit_set(instruction, Selector::RegMin, 0)
}

pub fn min_parity_flag_set(instruction: &Instruction, _p1: Option<usize>, _p2: Option<usize>) -> (r: bool)
    ensures
        r == flag_bit_set(instruction.registers_min.view(), 2),
{
    is_flag_bit_set(instruction, Selector::RegMin, 2)
}

pub fn min_adjust_flag_set(instruction: &Instruction, _p1: Option<usize>, _p2: Option<usize>) -> (r: bool)
    ensures
        r == flag_bit_set(instruction.registers_min.view(), 4),
{
    is_flag_bit_set(instruction, Selector::RegMin, 4)
}

pub fn min_zero_flag_set(instruction: &Instruction, _p1: Option<usize>, _p2: Option<usize>) -> (r: bool)
    ensures
        r == flag_bit_set(instruction.registers_min.view(), 6),
{
    is_flag_bit_set(instruction, Selector::RegMin, 6)
}

pub fn min_sign_flag_set(instruction: &Instruction, _p1: Option<usize>, _p2: Option<usize>) -> (r: bool)
    ensures
        r == flag_bit_set(instruction.registers_min.view(), 7),
{
    is_flag_bit_set(instruction, Selector::RegMin, 7)
}

pub fn min_trap_flag_set(instruction: &Instruction, _p1: Option<usize>, _p2: Option<usize>) -> (r: bool)
    ensures
        r == flag_bit_set(instruction.registers_min.view(), 8),
{
    is_flag_bit_set(instruction, Selector::RegMin, 8)
}

pub fn min_interrupt_flag_set(instruction: &Instruction, _p1: Option<usize>, _p2: Option<usize>) -> (r: bool)
    ensures
        r == flag_bit_set(instruction.registers_min.view(), 9),
{
    is_flag_bit_set(instruction, Selector::RegMin, 9)
}

pub fn min_direction_flag_set(instruction: &Instruction, _p1: Option<usize>, _p2: Option<usize>) -> (r: bool)
    ensures
        r == flag_bit_set(instruction.registers_min.view(), 10),
{
    is_flag_bit_set(instruction, Selector::RegMin, 10)
}

pub fn min_overflow_flag_set(instruction: &Instruction, _p1: Option<usize>, _p2: Option<usize>) -> (r: bool)
    ensures
        r == flag_bit_set(instruction.registers_min.view(), 11),
{
    is_flag_bit_set(instruction, Selector::RegMin, 11)
}

pub fn max_carry_flag_set(instruction: &Instruction, _p1: Option<usize>, _p2: Option<usize>) -> (r: bool)
    ensures
        r == flag_bit_set(instruction.registers_max.view(), 0),
{
    is_flag_bit_set(instruction, Selector::RegMax, 0)
}

pub fn max_parity_flag_set(instruction: &Instruction, _p1: Option<usize>, _p2: Option<usize>) -> (r: bool)
    ensures
        r == flag_bit_set(instruction.registers_max.view(), 2),
{
    is_flag_bit_set(instruction, Selector::RegMax, 2)
}

pub fn max_adjust_flag_set(instruction: &Instruction, _p1: Option<usize>, _p2: Option<usize>) -> (r: bool)
    ensures
        r == flag_bit_set(instruction.registers_max.view(), 4),
{
    is_flag_bit_set(instruction, Selector::RegMax, 4)
}

pub fn max_zero_flag_set(instruction: &Instruction, _p1: Option<usize>, _p2: Option<usize>) -> (r: bool)
    ensures
        r == flag_bit_set(instruction.registers_max.view(), 6),
{
    is_flag_bit_set(instruction, Selector::RegMax, 6)
}

pub fn max_sign_flag_set(instruction: &Instruction, _p1: Option<usize>, _p2: Option<usize>) -> (r: bool)
    ensures
        r == flag_bit_set(instruction.registers_max.view(), 7),
{
    is_flag_bit_set(instruction, Selector::RegMax, 7)
}

pub fn max_trap_flag_set(instruction: &Instruction, _p1: Option<usize>, _p2: Option<usize>) -> (r: bool)
    ensures
        r == flag_bit_set(instruction.registers_max.view(), 8),
{
    is_flag_bit_set(instruction, Selector::RegMax, 8)
}

pub fn max_interrupt_flag_set(instruction: &Instruction, _p1: Option<usize>, _p2: Option<usize>) -> (r: bool)
    ensures
        r == flag_bit_set(instruction.registers_max.view(), 9),
{
    is_flag_bit_set(instruction, Selector::RegMax, 9)
}

pub fn max_direction_flag_set(instruction: &Instruction, _p1: Option<usize>, _p2: Option<usize>) -> (r: bool)
    ensures
        r == flag_bit_set(instruction.registers_max.view(), 10),
{
    is_flag_bit_set(instruction, Selector::RegMax, 10)
}

pub fn max_overflow_flag_set(instruction: &Instruction, _p1: Option<usize>, _p2: Option<usize>) -> (r: bool)
    ensures
        r == flag_bit_set(instruction.registers_max.view(), 11),
{
    is_flag_bit_set(instruction, Selector::RegMax, 11)
}

pub fn num_successors_greater(instruction: &Instruction, n: Option<usize>, _p2: Option<usize>) -> (r: bool)
    requires
        n.is_some(),
    ensures
        r == (instruction.successors@.len() > n->0),
{
    instruction.successors.len() > n.unwrap()
}

pub fn num_successors_equal(instruction: &Instruction, n: Option<usize>, _p2: Option<usize>) -> (r: bool)
    requires
        n.is_some(),
    ensures
        r == (instruction.successors@.len() == n->0),
{
    instruction.successors.len() == n.unwrap()
}

pub fn has_edge_to(instruction: &Instruction, address: Option<usize>, _p2: Option<usize>) -> (r: bool)
    requires
        address.is_some(),
    ensures
        r == has_successor(*instruction, address->0),
{
    let dst = address.unwrap();
    let mut k: usize = 0;
    while k < instruction.successors.len()
        invariant
            k <= instruction.successors@.len(),
            dst == address->0,
            forall|j: int| 0 <= j < k ==> instruction.successors@[j].address != dst,
        decreases instruction.successors@.len() - k,
    {
        if instruction.successors[k].address == dst {
            assert(instruction.successors@[k as int].address == dst);
            return true;
        }
        k = k + 1;
    }
    false
}

pub fn edge_only_taken_to(instruction: &Instruction, address: Option<usize>, p2: Option<usize>) -> (r: bool)
    requires
        address.is_some(),
    ensures
        r == (has_successor(*instruction, address->0) && instruction.successors@.len() == 1),
{
    has_edge_to(instruction, address, p2) && instruction.successors.len() == 1
}

} // verus!

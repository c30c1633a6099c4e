//! Threshold synthesis: data-driven constants for register comparisons,
//! placed mid-gap between observed values.
use vstd::prelude::*;
use crate::predicates::{
    selector_val_greater_or_equal, selector_val_greater_or_equal_name, selector_val_less,
    selector_val_less_name, Classifier, Predicate, Score,
};
use crate::predicate_analysis::{balanced_score, lemma_balanced_den, lemma_count_same_test, lemma_score_le_trans, lemma_score_lt_le};
use crate::predicates::{score_lt, test_of, tests, lemma_tests_append};
use crate::text::{dec_seq, dec_string, hex_seq, hex_string, push_char, push_str};
use crate::trace::{register_name, register_name_spec, Selector, EFLAGS_INDEX, MEMORY_ADDRESS_INDEX, REGISTER_COUNT, RSP_INDEX};
use crate::trace_analyzer::{any_records, values_in, TraceAnalyzer};

verus! {

/// The name of a register comparison: `reg pred 0xvalue`, or `pred value`
/// without a register.
pub open spec fn reg_val_name(reg_index: Option<usize>, pred_name: Seq<char>, value: u64) -> Seq<char> {
    match reg_index {
        Some(i) => register_name_spec(i as int) + seq![' '] + pred_name + seq![' ', '0', 'x'] + hex_seq(value as nat),
        None => pred_name + seq![' '] + dec_seq(value as nat),
    }
}

pub fn gen_reg_val_name(reg_index: Option<usize>, pred_name: String, value: u64) -> (r: String)
    requires
        reg_index.is_some() ==> reg_index->0 < REGISTER_COUNT,
    ensures
        r@ == reg_val_name(reg_index, pred_name@, value),
{
    match reg_index {
        Some(i) => {
            let mut r = String::new();
            push_str(&mut r, register_name(i));
            push_char(&mut r, ' ');
            push_str(&mut r, pred_name.as_str());
            push_char(&mut r, ' ');
            push_char(&mut r, '0');
            push_char(&mut r, 'x');
            let h = hex_string(value);
            push_str(&mut r, h.as_str());
            r
        }
        None => {
            let mut r = pred_name;
            push_char(&mut r, ' ');
            let d = dec_string(value);
            push_str(&mut r, d.as_str());
            r
        }
    }
}

/// Whether `v` lies between two distinct values of `values`, above the
/// lower and at most the upper, or is itself one of them.
pub open spec fn between_observed(v: u64, values: Seq<u64>) -> bool {
    values.contains(v) || exists|lo: u64, hi: u64| values.contains(lo) && values.contains(hi) && lo < v <= hi
}

/// The score of `S[reg] < v` at `address`, the figure that picks the
/// thresholds.
pub open spec fn value_score(t: TraceAnalyzer, address: usize, selector: Selector, reg: usize, v: u64) -> Score {
    balanced_score(
        Predicate {
            name: arbitrary(),
            p1: Some(reg),
            p2: Some(v as usize),
            function: selector_val_less_spec(selector),
            score: Score { num: 0, den: 1 },
            address,
        },
        t.crashes.0@,
        t.non_crashes.0@,
    )
}

/// Whether `t` is the mid-gap threshold below `v`: the mean, halves
/// rounded up, of `v` and the largest value of `values` below it, or `v`
/// itself when none is below.
#[verifier::opaque]
pub open spec fn mid_gap(values: Seq<u64>, v: u64, t: u64) -> bool {
    &&& (forall|u: u64| values.contains(u) ==> u >= v) ==> t == v
    &&& (exists|u: u64| values.contains(u) && u < v) ==> exists|w: u64| values.contains(w) && w < v
        && (forall|u: u64| values.contains(u) && u < v ==> u <= w) && t == w + (v - w + 1) / 2
}

/// The values of register `reg` that `selector` reads at `address`, crash
/// traces first.
pub open spec fn observed_values(t: TraceAnalyzer, address: usize, selector: Selector, reg: usize) -> Seq<u64> {
    values_in(t.crashes.0@, address, selector, reg) + values_in(t.non_crashes.0@, address, selector, reg)
}

/// Whether `l` is the smallest observed value of lowest score.
#[verifier::opaque]
pub open spec fn is_low(t: TraceAnalyzer, address: usize, selector: Selector, reg: usize, l: u64) -> bool {
    let obs = observed_values(t, address, selector, reg);
    let f = |v: u64| value_score(t, address, selector, reg, v);
    &&& obs.contains(l)
    &&& forall|v: u64| obs.contains(v) ==> !score_lt(f(v), f(l))
    &&& forall|v: u64| obs.contains(v) && v < l ==> score_lt(f(l), f(v))
}

/// Whether `h` is the largest observed value of highest score.
#[verifier::opaque]
pub open spec fn is_high(t: TraceAnalyzer, address: usize, selector: Selector, reg: usize, h: u64) -> bool {
    let obs = observed_values(t, address, selector, reg);
    let f = |v: u64| value_score(t, address, selector, reg, v);
    &&& obs.contains(h)
    &&& forall|v: u64| obs.contains(v) ==> !score_lt(f(h), f(v))
    &&& forall|v: u64| obs.contains(v) && v > h ==> score_lt(f(v), f(h))
}

/// The mid-gap threshold below `v`.
pub open spec fn mid_value(obs: Seq<u64>, v: u64) -> u64 {
    choose|x: u64| mid_gap(obs, v, x)
}

/// The tests of the two synthesized predicates of one register: `>=` the
/// threshold below the value of lowest score, `<` the threshold below the
/// value of highest score; none without observed values.
#[verifier::opaque]
pub open spec fn synth_tests(t: TraceAnalyzer, address: usize, selector: Selector, reg: usize)
    -> Seq<(Classifier, Option<usize>, Option<usize>, usize)>
{
    let obs = observed_values(t, address, selector, reg);
    if obs.len() == 0 {
        Seq::empty()
    } else {
        let low = choose|l: u64| is_low(t, address, selector, reg, l);
        let high = choose|h: u64| is_high(t, address, selector, reg, h);
        seq![
            (selector_val_greater_or_equal_spec(selector), Some(reg), Some(mid_value(obs, low) as usize), address),
            (selector_val_less_spec(selector), Some(reg), Some(mid_value(obs, high) as usize), address),
        ]
    }
}

/// Whether register `reg` gets synthesized thresholds at `address`: some
/// trace records it, it is not the stack pointer, the flags or the memory
/// address, and its values are neither all heap nor all stack addresses.
pub open spec fn synth_eligible(t: TraceAnalyzer, address: usize, selector: Selector, reg: usize) -> bool {
    let obs = observed_values(t, address, selector, reg);
    &&& any_records(t.crashes.0@, address, reg) || any_records(t.non_crashes.0@, address, reg)
    &&& reg != RSP_INDEX && reg != EFLAGS_INDEX && reg != MEMORY_ADDRESS_INDEX
    &&& !all_within(obs, t.memory_addresses.heap_start, t.memory_addresses.heap_end)
    &&& !all_within(obs, t.memory_addresses.stack_start, t.memory_addresses.stack_end)
}

/// The synthesized tests of the registers below `n`, in register order.
pub open spec fn reg_synth_tests(t: TraceAnalyzer, address: usize, selector: Selector, n: int)
    -> Seq<(Classifier, Option<usize>, Option<usize>, usize)>
    decreases n,
{
    if n <= 0 {
        Seq::empty()
    } else {
        reg_synth_tests(t, address, selector, n - 1) + if synth_eligible(t, address, selector, (n - 1) as usize) {
            synth_tests(t, address, selector, (n - 1) as usize)
        } else {
            Seq::empty()
        }
    }
}

/// The synthesized tests at `address`: the maximum selector's, then the
/// minimum selector's.
pub open spec fn constant_tests(t: TraceAnalyzer, address: usize) -> Seq<(Classifier, Option<usize>, Option<usize>, usize)> {
    reg_synth_tests(t, address, Selector::RegMax, REGISTER_COUNT as int)
        + reg_synth_tests(t, address, Selector::RegMin, REGISTER_COUNT as int)
}

/// Index `low` holds the first value of lowest score and `high` the last
/// value of highest score.
#[verifier::opaque]
pub open spec fn extremes(t: TraceAnalyzer, address: usize, selector: Selector, reg: usize, values: Seq<u64>, low: int, high: int) -> bool {
    let f = |v: u64| value_score(t, address, selector, reg, v);
    &&& 0 <= low < values.len() && 0 <= high < values.len()
    &&& forall|m: int| 0 <= m < values.len() ==> !score_lt(f(values[m]), f(values[low]))
    &&& forall|m: int| 0 <= m < low ==> score_lt(f(values[low]), f(values[m]))
    &&& forall|m: int| 0 <= m < values.len() ==> !score_lt(f(values[high]), f(values[m]))
    &&& forall|m: int| high < m < values.len() ==> score_lt(f(values[m]), f(values[high]))
}

proof fn lemma_extremes(t: TraceAnalyzer, address: usize, selector: Selector, reg: usize, values: Seq<u64>, low: int, high: int)
    requires
        extremes(t, address, selector, reg, values, low, high),
        forall|i: int, j: int| 0 <= i < j < values.len() ==> values[i] < values[j],
        forall|v: u64| values.contains(v) <==> observed_values(t, address, selector, reg).contains(v),
    ensures
        is_low(t, address, selector, reg, values[low]),
        is_high(t, address, selector, reg, values[high]),
{
    reveal(extremes);
    reveal(is_low);
    reveal(is_high);
    let obs = observed_values(t, address, selector, reg);
    let f = |v: u64| value_score(t, address, selector, reg, v);
    assert(values.contains(values[low]) && values.contains(values[high]));
    assert forall|v: u64| obs.contains(v) implies !score_lt(f(v), f(values[low])) && !score_lt(f(values[high]), f(v)) by {
        assert(values.contains(v));
        let m = choose|m: int| 0 <= m < values.len() && values[m] == v;
    }
    assert forall|v: u64| obs.contains(v) && v < values[low] implies score_lt(f(values[low]), f(v)) by {
        assert(values.contains(v));
        let m = choose|m: int| 0 <= m < values.len() && values[m] == v;
        if m > low {
            assert(values[low] < values[m]);
        }
    }
    assert forall|v: u64| obs.contains(v) && v > values[high] implies score_lt(f(v), f(values[high])) by {
        assert(values.contains(v));
        let m = choose|m: int| 0 <= m < values.len() && values[m] == v;
        if m < high {
            assert(values[m] < values[high]);
        }
    }
}

proof fn lemma_synth_choice(t: TraceAnalyzer, address: usize, selector: Selector, reg: usize, lv: u64, hv: u64, t_ge: u64, t_lt: u64)
    requires
        is_low(t, address, selector, reg, lv),
        is_high(t, address, selector, reg, hv),
        mid_gap(observed_values(t, address, selector, reg), lv, t_ge),
        mid_gap(observed_values(t, address, selector, reg), hv, t_lt),
    ensures
        synth_tests(t, address, selector, reg) == seq![
            (selector_val_greater_or_equal_spec(selector), Some(reg), Some(t_ge as usize), address),
            (selector_val_less_spec(selector), Some(reg), Some(t_lt as usize), address),
        ],
{
    reveal(synth_tests);
    reveal(is_low);
    let obs = observed_values(t, address, selector, reg);
    let l = choose|l: u64| is_low(t, address, selector, reg, l);
    let h = choose|h: u64| is_high(t, address, selector, reg, h);
    lemma_low_unique(t, address, selector, reg, l, lv);
    lemma_high_unique(t, address, selector, reg, h, hv);
    assert(obs.contains(lv));
    lemma_mid_unique(obs, lv, mid_value(obs, lv), t_ge);
    lemma_mid_unique(obs, hv, mid_value(obs, hv), t_lt);
}

proof fn lemma_low_unique(t: TraceAnalyzer, address: usize, selector: Selector, reg: usize, a: u64, b: u64)
    requires
        is_low(t, address, selector, reg, a),
        is_low(t, address, selector, reg, b),
    ensures
        a == b,
{
    reveal(is_low);
    reveal(is_high);
    let f = |v: u64| value_score(t, address, selector, reg, v);
    if a < b {
        assert(score_lt(f(b), f(a)));
    } else if b < a {
        assert(score_lt(f(a), f(b)));
    }
}

proof fn lemma_high_unique(t: TraceAnalyzer, address: usize, selector: Selector, reg: usize, a: u64, b: u64)
    requires
        is_high(t, address, selector, reg, a),
        is_high(t, address, selector, reg, b),
    ensures
        a == b,
{
    reveal(is_low);
    reveal(is_high);
    let f = |v: u64| value_score(t, address, selector, reg, v);
    if a < b {
        assert(score_lt(f(b), f(a)));
    } else if b < a {
        assert(score_lt(f(a), f(b)));
    }
}

proof fn lemma_mid_unique(obs: Seq<u64>, v: u64, x: u64, y: u64)
    requires
        mid_gap(obs, v, x),
        mid_gap(obs, v, y),
    ensures
        x == y,
{
    reveal(mid_gap);
    if exists|u: u64| obs.contains(u) && u < v {
        let w1 = choose|w: u64| obs.contains(w) && w < v && (forall|u: u64| obs.contains(u) && u < v ==> u <= w)
            && x == w + (v - w + 1) / 2;
        let w2 = choose|w: u64| obs.contains(w) && w < v && (forall|u: u64| obs.contains(u) && u < v ==> u <= w)
            && y == w + (v - w + 1) / 2;
        assert(w1 <= w2 && w2 <= w1);
    }
}

/// Whether every value lies in `[start, end]`.
pub open spec fn all_within(values: Seq<u64>, start: usize, end: usize) -> bool {
    forall|i: int| 0 <= i < values.len() ==> start <= #[trigger] values[i] && values[i] <= end
}

fn all_in_range(values: &Vec<u64>, start: usize, end: usize) -> (r: bool)
    ensures
        r == all_within(values@, start, end),
{
    let mut k: usize = 0;
    while k < values.len()
        invariant
            k <= values@.len(),
            forall|i: int| 0 <= i < k ==> start <= #[trigger] values@[i] && values@[i] <= end,
        decreases values@.len() - k,
    {
        if !(start as u64 <= values[k] && values[k] <= end as u64) {
            return false;
        }
        k = k + 1;
    }
    true
}

/// Synthesis of threshold predicates.
pub struct PredicateSynthesizer {}

impl PredicateSynthesizer {
    /// Synthesized thresholds for the maximum, then the minimum selector.
    pub fn constant_predicates_at_address(address: usize, trace_analyzer: &TraceAnalyzer) -> (r: Vec<Predicate>)
        requires
            trace_analyzer.wf(),
            trace_analyzer.scorable(),
        ensures
            forall|i: int| 0 <= i < r@.len() ==> (#[trigger] r@[i]).wf() && r@[i].address == address,
            tests(r@) == constant_tests(*trace_analyzer, address),
    {
        let mut predicates = PredicateSynthesizer::register_constant_predicates_at_address(address, trace_analyzer, &Selector::RegMax);
        let mut more = PredicateSynthesizer::register_constant_predicates_at_address(address, trace_analyzer, &Selector::RegMin);
        let ghost a = predicates@;
        let ghost b = more@;
        predicates.append(&mut more);
        proof {
            lemma_tests_append(a, b);
        }
        predicates
    }

    /// Thresholds for every register that some trace records at `address`,
    /// except the stack pointer, the flags and the memory address, and
    /// except registers whose values all point into the heap or all into
    /// the stack.
    fn register_constant_predicates_at_address(address: usize, trace_analyzer: &TraceAnalyzer, selector: &Selector) -> (r: Vec<Predicate>)
        requires
            trace_analyzer.wf(),
            trace_analyzer.scorable(),
            *selector == Selector::RegMin || *selector == Selector::RegMax,
        ensures
            forall|i: int| 0 <= i < r@.len() ==> (#[trigger] r@[i]).wf() && r@[i].address == address
                && r@[i].p1.is_some() && r@[i].p1->0 != RSP_INDEX && r@[i].p1->0 != EFLAGS_INDEX
                && r@[i].p1->0 != MEMORY_ADDRESS_INDEX,
            tests(r@) == reg_synth_tests(*trace_analyzer, address, *selector, REGISTER_COUNT as int),
    {
        let mut r: Vec<Predicate> = Vec::new();
        let mut reg_index: usize = 0;
        assert(tests(r@) =~= reg_synth_tests(*trace_analyzer, address, *selector, 0));
        let bounds = trace_analyzer.memory_addresses;
        while reg_index < REGISTER_COUNT
            invariant
                trace_analyzer.wf(),
                trace_analyzer.scorable(),
                *selector == Selector::RegMin || *selector == Selector::RegMax,
                reg_index <= REGISTER_COUNT,
                forall|i: int| 0 <= i < r@.len() ==> (#[trigger] r@[i]).wf() && r@[i].address == address
                    && r@[i].p1.is_some() && r@[i].p1->0 != RSP_INDEX && r@[i].p1->0 != EFLAGS_INDEX
                    && r@[i].p1->0 != MEMORY_ADDRESS_INDEX,
                bounds == trace_analyzer.memory_addresses,
                tests(r@) == reg_synth_tests(*trace_analyzer, address, *selector, reg_index as int),
            decreases REGISTER_COUNT - reg_index,
        {
            let ghost r_before = r@;
            if trace_analyzer.any_instruction_at_address_contains_reg(address, reg_index)
                && reg_index != RSP_INDEX && reg_index != EFLAGS_INDEX && reg_index != MEMORY_ADDRESS_INDEX
            {
                let values = trace_analyzer.values_at_address(address, selector, reg_index);
                if !all_in_range(&values, bounds.heap_start, bounds.heap_end)
                    && !all_in_range(&values, bounds.stack_start, bounds.stack_end)
                {
                    let mut found = PredicateSynthesizer::synthesize_constant_predicates(address, trace_analyzer, selector, reg_index);
                    let ghost before = r@;
                    let ghost fv = found@;
                    r.append(&mut found);
                    proof {
                        lemma_tests_append(before, fv);
                        assert forall|i: int| 0 <= i < r@.len() implies (#[trigger] r@[i]).wf() && r@[i].address == address
                            && r@[i].p1.is_some() && r@[i].p1->0 != RSP_INDEX && r@[i].p1->0 != EFLAGS_INDEX
                            && r@[i].p1->0 != MEMORY_ADDRESS_INDEX by {
                            if i >= before.len() {
                                assert(r@[i] == fv[i - before.len()]);
                            }
                        }
                    }
                }
            }
            proof {
                let t = *trace_analyzer;
                let n = reg_index as int + 1;
                assert(reg_synth_tests(t, address, *selector, n) == reg_synth_tests(t, address, *selector, n - 1)
                    + if synth_eligible(t, address, *selector, reg_index) {
                        synth_tests(t, address, *selector, reg_index)
                    } else {
                        Seq::empty()
                    });
                if r@ == r_before {
                    assert(tests(r@) =~= reg_synth_tests(t, address, *selector, n));
                } else {
                    assert(tests(r@) =~= reg_synth_tests(t, address, *selector, n));
                }
            }
            reg_index = reg_index + 1;
        }
        r
    }

    /// The two threshold predicates of one register: `>=` the threshold
    /// below the value of lowest score, `<` the threshold below the value of
    /// highest score. Scores are those of `S[reg] < v` for each observed
    /// value `v`; among equal lowest scores the smallest value is taken,
    /// among equal highest scores the largest. Each threshold lies between
    /// observed values.
    pub fn synthesize_constant_predicates(address: usize, trace_analyzer: &TraceAnalyzer, selector: &Selector, reg_index: usize) -> (r: Vec<Predicate>)
        requires
            trace_analyzer.scorable(),
            *selector == Selector::RegMin || *selector == Selector::RegMax,
            reg_index < REGISTER_COUNT,
        ensures
            r@.len() == 0 || r@.len() == 2,
            forall|i: int| 0 <= i < r@.len() ==> (#[trigger] r@[i]).wf() && r@[i].address == address
                && r@[i].p1 == Some(reg_index),
            r@.len() == 2 ==> r@[0].function == (if *selector == Selector::RegMin {
                Classifier::MinRegValGreaterOrEqual
            } else {
                Classifier::MaxRegValGreaterOrEqual
            }),
            r@.len() == 2 ==> r@[1].function == (if *selector == Selector::RegMin {
                Classifier::MinRegValLess
            } else {
                Classifier::MaxRegValLess
            }),
            forall|i: int| 0 <= i < r@.len() ==> exists|t: u64| (#[trigger] r@[i]).p2 == Some(t as usize)
                && between_observed(t, values_in(trace_analyzer.crashes.0@, address, *selector, reg_index)
                    + values_in(trace_analyzer.non_crashes.0@, address, *selector, reg_index)),
            tests(r@) == synth_tests(*trace_analyzer, address, *selector, reg_index),
            observed_values(*trace_analyzer, address, *selector, reg_index).len() > 0 ==> r@.len() == 2,
    {
        let values = trace_analyzer.unique_values_at_address(address, selector, reg_index);
        let ghost observed = values_in(trace_analyzer.crashes.0@, address, *selector, reg_index)
            + values_in(trace_analyzer.non_crashes.0@, address, *selector, reg_index);
        if values.len() == 0 {
            proof {
                reveal(synth_tests);
                if observed.len() > 0 {
                    assert(observed.contains(observed[0]));
                    assert(values@.contains(observed[0]));
                }
            }
            let r: Vec<Predicate> = Vec::new();
            assert(tests(r@) =~= Seq::<(Classifier, Option<usize>, Option<usize>, usize)>::empty());
            return r;
        }
        let (low, high) = PredicateSynthesizer::pick_extremes(address, trace_analyzer, selector, reg_index, &values);
        let t_ge = PredicateSynthesizer::arithmetic_mean(values[low], &values);
        let t_lt = PredicateSynthesizer::arithmetic_mean(values[high], &values);
        proof {
            PredicateSynthesizer::lemma_mean_between(values@[low as int], values@, t_ge, observed);
            PredicateSynthesizer::lemma_mean_between(values@[high as int], values@, t_lt, observed);
            let t = *trace_analyzer;
            lemma_extremes(t, address, *selector, reg_index, values@, low as int, high as int);
            PredicateSynthesizer::lemma_mid_gap_same_set(values@, observed, values@[low as int], t_ge);
            PredicateSynthesizer::lemma_mid_gap_same_set(values@, observed, values@[high as int], t_lt);
            lemma_synth_choice(t, address, *selector, reg_index, values@[low as int], values@[high as int], t_ge, t_lt);
        }
        let r = PredicateSynthesizer::build_constant_predicates(address, selector, reg_index, t_ge, t_lt);
        assert(r@[0].p2 == Some(t_ge as usize));
        assert(r@[1].p2 == Some(t_lt as usize));
        assert(tests(r@) =~= synth_tests(*trace_analyzer, address, *selector, reg_index));
        r
    }

    /// The position of the first value of lowest score and of the last
    /// value of highest score.
    fn pick_extremes(address: usize, trace_analyzer: &TraceAnalyzer, selector: &Selector, reg_index: usize, values: &Vec<u64>) -> (r: (usize, usize))
        requires
            trace_analyzer.scorable(),
            *selector == Selector::RegMin || *selector == Selector::RegMax,
            values@.len() > 0,
        ensures
            r.0 < values@.len(),
            r.1 < values@.len(),
            extremes(*trace_analyzer, address, *selector, reg_index, values@, r.0 as int, r.1 as int),
    {
        let mut low: usize = 0;
        let mut high: usize = 0;
        let ghost fs = |v: u64| value_score(*trace_analyzer, address, *selector, reg_index, v);
        let mut low_score = PredicateSynthesizer::evaluate_value_at_address(address, trace_analyzer, selector, reg_index, values[0]);
        let mut high_score = low_score;
        assert(low_score == fs(values@[0]));
        let mut k: usize = 1;
        while k < values.len()
            invariant
                trace_analyzer.scorable(),
                *selector == Selector::RegMin || *selector == Selector::RegMax,
                1 <= k <= values@.len(),
                low < k,
                high < k,
                forall|v: u64| #[trigger] fs(v) == value_score(*trace_analyzer, address, *selector, reg_index, v),
                low_score == fs(values@[low as int]),
                high_score == fs(values@[high as int]),
                low_score.den > 0,
                high_score.den > 0,
                forall|m: int| 0 <= m < k ==> (#[trigger] fs(values@[m])).den > 0,
                forall|m: int| 0 <= m < k ==> !score_lt(#[trigger] fs(values@[m]), low_score),
                forall|m: int| 0 <= m < low ==> score_lt(low_score, #[trigger] fs(values@[m])),
                forall|m: int| 0 <= m < k ==> !score_lt(high_score, #[trigger] fs(values@[m])),
                forall|m: int| high < m < k ==> score_lt(#[trigger] fs(values@[m]), high_score),
            decreases values@.len() - k,
        {
            let f = PredicateSynthesizer::evaluate_value_at_address(address, trace_analyzer, selector, reg_index, values[k]);
            assert(f == fs(values@[k as int]));
            if f.less_than(&low_score) {
                proof {
                    assert forall|m: int| 0 <= m < k implies !score_lt(#[trigger] fs(values@[m]), f) by {
                        lemma_score_lt_le(f, low_score, fs(values@[m]));
                    }
                    assert forall|m: int| 0 <= m < k implies score_lt(f, #[trigger] fs(values@[m])) by {
                        lemma_score_lt_le(f, low_score, fs(values@[m]));
                    }
                }
                low = k;
                low_score = f;
            }
            if !f.less_than(&high_score) {
                proof {
                    assert forall|m: int| 0 <= m < k implies !score_lt(f, #[trigger] fs(values@[m])) by {
                        lemma_score_le_trans(fs(values@[m]), high_score, f);
                    }
                }
                high = k;
                high_score = f;
            }
            k = k + 1;
        }
        proof {
            reveal(extremes);
        }
        (low, high)
    }

    proof fn lemma_mid_gap_same_set(a: Seq<u64>, b: Seq<u64>, v: u64, t: u64)
        requires
            mid_gap(a, v, t),
            forall|u: u64| a.contains(u) <==> b.contains(u),
        ensures
            mid_gap(b, v, t),
    {
    reveal(mid_gap);
        if forall|u: u64| b.contains(u) ==> u >= v {
            assert forall|u: u64| a.contains(u) implies u >= v by {
                assert(b.contains(u));
            }
        }
        if exists|u: u64| b.contains(u) && u < v {
            let u = choose|u: u64| b.contains(u) && u < v;
            assert(a.contains(u));
            let w = choose|w: u64| a.contains(w) && w < v && (forall|x: u64| a.contains(x) && x < v ==> x <= w)
                && t == w + (v - w + 1) / 2;
            assert(b.contains(w));
            assert forall|x: u64| b.contains(x) && x < v implies x <= w by {
                assert(a.contains(x));
            }
        }
    }

    proof fn lemma_mean_between(v1: u64, values: Seq<u64>, t: u64, observed: Seq<u64>)
        requires
            values.contains(v1),
            forall|v: u64| values.contains(v) <==> observed.contains(v),
            (forall|i: int| 0 <= i < values.len() ==> values[i] >= v1) ==> t == v1,
            (exists|i: int| 0 <= i < values.len() && values[i] < v1) ==> exists|i: int| 0 <= i < values.len()
                && #[trigger] values[i] < v1 && values[i] < t <= v1,
        ensures
            between_observed(t, observed),
    {
        if exists|i: int| 0 <= i < values.len() && values[i] < v1 {
            let i = choose|i: int| 0 <= i < values.len() && #[trigger] values[i] < v1 && values[i] < t <= v1;
            assert(values.contains(values[i]));
            assert(observed.contains(values[i]));
            assert(observed.contains(v1));
        } else {
            assert(observed.contains(v1));
        }
    }

    /// The rounded mean of `v1` and the largest value below it, or `v1`
    /// when no value is below it; halves round up.
    pub fn arithmetic_mean(v1: u64, values: &Vec<u64>) -> (r: u64)
        ensures
            (forall|i: int| 0 <= i < values@.len() ==> values@[i] >= v1) ==> r == v1,
            (exists|i: int| 0 <= i < values@.len() && values@[i] < v1) ==> exists|i: int| 0 <= i < values@.len()
                && #[trigger] values@[i] < v1 && values@[i] < r <= v1
                && (forall|j: int| 0 <= j < values@.len() && values@[j] < v1 ==> values@[j] <= values@[i])
                && r == values@[i] + (v1 - values@[i] + 1) / 2,
            mid_gap(values@, v1, r),
    {
    reveal(mid_gap);
        let mut found = false;
        let mut below: u64 = 0;
        let mut at: usize = 0;
        let mut k: usize = 0;
        while k < values.len()
            invariant
                k <= values@.len(),
                found ==> at < k && values@[at as int] == below && below < v1,
                found ==> forall|j: int| 0 <= j < k && values@[j] < v1 ==> values@[j] <= below,
                !found ==> forall|j: int| 0 <= j < k ==> values@[j] >= v1,
            decreases values@.len() - k,
        {
            let v = values[k];
            if v < v1 && (!found || v > below) {
                found = true;
                below = v;
                at = k;
            }
            k = k + 1;
        }
        if found {
            let gap = v1 - below;
            let r = below + (gap / 2 + gap % 2);
            assert(values@[at as int] < v1 && values@[at as int] < r <= v1);
            proof {
                assert(values@.contains(below));
                assert forall|u: u64| values@.contains(u) && u < v1 implies u <= below by {
                    let j = choose|j: int| 0 <= j < values@.len() && values@[j] == u;
                }
            }
            r
        } else {
            proof {
                assert forall|u: u64| values@.contains(u) implies u >= v1 by {
                    let j = choose|j: int| 0 <= j < values@.len() && values@[j] == u;
                }
            }
            v1
        }
    }

    /// `S[reg] >= v1` and `S[reg] < v2`.
    fn build_constant_predicates(address: usize, selector: &Selector, reg_index: usize, v1: u64, v2: u64) -> (r: Vec<Predicate>)
        requires
            *selector == Selector::RegMin || *selector == Selector::RegMax,
            reg_index < REGISTER_COUNT,
        ensures
            r@.len() == 2,
            r@[0].function == selector_val_greater_or_equal_spec(*selector),
            r@[1].function == selector_val_less_spec(*selector),
            r@[0].p2 == Some(v1 as usize),
            r@[1].p2 == Some(v2 as usize),
            forall|i: int| 0 <= i < 2 ==> (#[trigger] r@[i]).wf() && r@[i].address == address
                && r@[i].p1 == Some(reg_index),
    {
        let name1 = gen_reg_val_name(Some(reg_index), selector_val_greater_or_equal_name(selector), v1);
        let name2 = gen_reg_val_name(Some(reg_index), selector_val_less_name(selector), v2);
        let mut r: Vec<Predicate> = Vec::new();
        r.push(Predicate::new(name1.as_str(), address, selector_val_greater_or_equal(selector), Some(reg_index), Some(v1 as usize)));
        r.push(Predicate::new(name2.as_str(), address, selector_val_less(selector), Some(reg_index), Some(v2 as usize)));
        r
    }

    /// The score of `S[reg] < val` at `address`.
    fn evaluate_value_at_address(address: usize, trace_analyzer: &TraceAnalyzer, selector: &Selector, reg_index: usize, val: u64) -> (r: Score)
        requires
            trace_analyzer.scorable(),
            *selector == Selector::RegMin || *selector == Selector::RegMax,
        ensures
            r == value_score(*trace_analyzer, address, *selector, reg_index, val),
            r.den > 0,
    {
        let name = selector_val_less_name(selector);
        let predicate = Predicate::new(name.as_str(), address, selector_val_less(selector), Some(reg_index), Some(val as usize));
        let r = PredicateSynthesizer::evaluate_predicate_with_reachability(address, trace_analyzer, &predicate);
        proof {
            let q = Predicate {
                name: arbitrary(),
                p1: Some(reg_index),
                p2: Some(val as usize),
                function: selector_val_less_spec(*selector),
                score: Score { num: 0, den: 1 },
                address,
            };
            lemma_count_same_test(trace_analyzer.crashes.0@, predicate, q);
            lemma_count_same_test(trace_analyzer.non_crashes.0@, predicate, q);
            lemma_balanced_den(q, trace_analyzer.crashes.0@, trace_analyzer.non_crashes.0@);
        }
        r
    }

    /// The score of `predicate` at `address`, where a non-crash trace that
    /// does not visit `address` counts as a true negative. With predicates
    /// that never hold on an unvisited address, this is the balanced score.
    pub fn evaluate_predicate_with_reachability(address: usize, trace_analyzer: &TraceAnalyzer, predicate: &Predicate) -> (r: Score)
        requires
            trace_analyzer.scorable(),
            predicate.wf(),
            predicate.address == address,
        ensures
            r == balanced_score(*predicate, trace_analyzer.crashes.0@, trace_analyzer.non_crashes.0@),
    {
        let scored = crate::predicate_analysis::PredicateAnalyzer::evaluate_predicate(trace_analyzer, predicate);
        scored.score
    }
}

/// The `<` classifier of a selector.
pub open spec fn selector_val_less_spec(selector: Selector) -> Classifier {
    if selector == Selector::RegMin {
        Classifier::MinRegValLess
    } else if selector == Selector::RegMax {
        Classifier::MaxRegValLess
    } else {
        Classifier::MaxMinDiffRegValLess
    }
}

/// The `>=` classifier of a selector.
pub open spec fn selector_val_greater_or_equal_spec(selector: Selector) -> Classifier {
    if selector == Selector::RegMin {
        Classifier::MinRegValGreaterOrEqual
    } else if selector == Selector::RegMax {
        Classifier::MaxRegValGreaterOrEqual
    } else {
        Classifier::MaxMinDiffRegValGreaterOrEqual
    }
}

} // verus!

//! Scoring: how well a predicate separates crash traces from non-crash
//! traces, and the best predicate among candidates.
use vstd::prelude::*;
use crate::predicates::{holds, mul_wide, score_lt, test_of, tests, Classifier, Predicate, Score};
use crate::trace::Trace;
use crate::trace_analyzer::{instr_at, visited_by_any, TraceAnalyzer};

verus! {

broadcast use vstd::std_specs::hash::group_hash_axioms;

/// Number of traces of `ts` on which `p` holds at its address.
pub open spec fn count_holds(ts: Seq<Trace>, p: Predicate) -> nat
    decreases ts.len(),
{
    if ts.len() == 0 {
        0
    } else {
        count_holds(ts.drop_last(), p) + if holds(p, instr_at(ts.last(), p.address)) { 1nat } else { 0nat }
    }
}

/// Number of traces of `ts` that visit `a`.
pub open spec fn count_visits(ts: Seq<Trace>, a: usize) -> nat
    decreases ts.len(),
{
    if ts.len() == 0 {
        0
    } else {
        count_visits(ts.drop_last(), a) + if ts.last().instructions@.contains_key(a) { 1nat } else { 0nat }
    }
}

/// Both trace sets are non-empty and small enough for exact scores.
pub open spec fn counts_fit(nc: nat, nn: nat) -> bool {
    nc > 0 && nn > 0 && 2 * nc * nn <= 0xffff_ffff_ffff_ffff
}

/// The balanced score `(TPR + TNR) / 2` of `p` as a fraction over
/// `2 * #crashes * #non-crashes`: true positives are crash traces on which
/// `p` holds, true negatives non-crash traces on which it does not (an
/// unvisited address counts as not holding).
pub open spec fn balanced_score(p: Predicate, crashes: Seq<Trace>, non_crashes: Seq<Trace>) -> Score {
    Score { num: score_num(p, crashes, non_crashes) as u64, den: score_den(crashes, non_crashes) as u64 }
}

/// The numerator of the balanced score, as an integer.
pub open spec fn score_num(p: Predicate, crashes: Seq<Trace>, non_crashes: Seq<Trace>) -> int {
    let nc = crashes.len();
    let nn = non_crashes.len();
    let tp = count_holds(crashes, p);
    let tn = nn - count_holds(non_crashes, p);
    tp * nn + tn * nc
}

/// The denominator of the balanced score, as an integer.
pub open spec fn score_den(crashes: Seq<Trace>, non_crashes: Seq<Trace>) -> int {
    (2 * crashes.len() * non_crashes.len()) as int
}

proof fn lemma_count_bounded(ts: Seq<Trace>, p: Predicate)
    ensures
        count_holds(ts, p) <= ts.len(),
    decreases ts.len(),
{
    if ts.len() > 0 {
        lemma_count_bounded(ts.drop_last(), p);
    }
}

/// Counts the traces on which `p` holds.
pub fn count_true(ts: &Vec<Trace>, p: &Predicate) -> (r: usize)
    requires
        p.wf(),
    ensures
        r == count_holds(ts@, *p),
{
    let mut c: usize = 0;
    let mut i: usize = 0;
    while i < ts.len()
        invariant
            p.wf(),
            i <= ts@.len(),
            c == count_holds(ts@.subrange(0, i as int), *p),
            c <= i,
        decreases ts@.len() - i,
    {
        let instr = ts[i].instructions.get(&p.address);
        let h = p.execute(instr);
        proof {
            let s1 = ts@.subrange(0, i + 1);
            assert(s1.drop_last() =~= ts@.subrange(0, i as int));
            assert(s1.last() == ts@[i as int]);
        }
        if h {
            c = c + 1;
        }
        i = i + 1;
    }
    assert(ts@.subrange(0, ts@.len() as int) =~= ts@);
    c
}

/// The balanced score from the counts.
fn score_from_counts(tp: usize, holds_non: usize, nc: usize, nn: usize) -> (r: Score)
    requires
        tp <= nc,
        holds_non <= nn,
        counts_fit(nc as nat, nn as nat),
    ensures
        r.num == tp * nn + (nn - holds_non) * nc,
        r.den == 2 * nc * nn,
        r.den > 0,
{
    let tn = nn - holds_non;
    proof {
        assert(tp * nn <= nc * nn) by (nonlinear_arith)
            requires
                tp <= nc,
        ;
        assert(tn * nc <= nn * nc) by (nonlinear_arith)
            requires
                tn <= nn,
        ;
        assert(nn * nc == nc * nn) by (nonlinear_arith);
        assert(nc * nn > 0) by (nonlinear_arith)
            requires
                nc > 0,
                nn > 0,
        ;
    }
    let a = mul_wide(tp as u64, nn as u64);
    let b = mul_wide(tn as u64, nc as u64);
    let d = mul_wide(nc as u64, nn as u64);
    assert(2 * nc * nn == 2 * (nc * nn)) by (nonlinear_arith);
    assert(a + b <= 2 * d);
    assert(2 * d <= 0xffff_ffff_ffff_ffff);
    Score { num: (a + b) as u64, den: (2 * d) as u64 }
}

impl TraceAnalyzer {
    /// Whether the trace counts allow exact scores.
    pub open spec fn scorable(&self) -> bool {
        counts_fit(self.crashes.0@.len(), self.non_crashes.0@.len())
    }
}

/// A copy of `p` carrying `score`.
pub fn rescored(p: &Predicate, score: Score) -> (r: Predicate)
    ensures
        r.name@ == p.name@,
        r.p1 == p.p1,
        r.p2 == p.p2,
        r.function == p.function,
        r.address == p.address,
        r.score == score,
{
    Predicate { name: p.name.clone(), p1: p.p1, p2: p.p2, function: p.function, score, address: p.address }
}

/// Scoring of predicates against the analyzer's trace sets.
pub struct PredicateAnalyzer {}

impl PredicateAnalyzer {
    /// A copy of `predicate` carrying its balanced score.
    pub fn evaluate_predicate(trace_analyzer: &TraceAnalyzer, predicate: &Predicate) -> (r: Predicate)
        requires
            trace_analyzer.scorable(),
            predicate.wf(),
        ensures
            r.name@ == predicate.name@,
            r.p1 == predicate.p1,
            r.p2 == predicate.p2,
            r.function == predicate.function,
            r.address == predicate.address,
            r.wf(),
            r.score == balanced_score(*predicate, trace_analyzer.crashes.0@, trace_analyzer.non_crashes.0@),
            r.score.den > 0,
    {
        let tp = count_true(&trace_analyzer.crashes.0, predicate);
        let fp = count_true(&trace_analyzer.non_crashes.0, predicate);
        proof {
            lemma_count_bounded(trace_analyzer.crashes.0@, *predicate);
            lemma_count_bounded(trace_analyzer.non_crashes.0@, *predicate);
        }
        let score = score_from_counts(tp, fp, trace_analyzer.crashes.len(), trace_analyzer.non_crashes.len());
        rescored(predicate, score)
    }

    /// The candidate with the highest score; among equal best scores, the
    /// last one.
    pub fn best_of(candidates: Vec<Predicate>) -> (r: Predicate)
        requires
            candidates@.len() > 0,
            forall|i: int| 0 <= i < candidates@.len() ==> (#[trigger] candidates@[i]).score.den > 0,
        ensures
            exists|i: int| 0 <= i < candidates@.len() && r == candidates@[i]
                && (forall|j: int| 0 <= j < candidates@.len() ==> !score_lt(r.score, #[trigger] candidates@[j].score))
                && (forall|j: int| i < j < candidates@.len() ==> score_lt(#[trigger] candidates@[j].score, r.score)),
    {
        let mut best: usize = 0;
        let mut k: usize = 1;
        while k < candidates.len()
            invariant
                1 <= k <= candidates@.len(),
                best < k,
                forall|i: int| 0 <= i < candidates@.len() ==> (#[trigger] candidates@[i]).score.den > 0,
                forall|j: int| 0 <= j < k ==> !score_lt(candidates@[best as int].score, #[trigger] candidates@[j].score),
                forall|j: int| best < j < k ==> score_lt(#[trigger] candidates@[j].score, candidates@[best as int].score),
            decreases candidates@.len() - k,
        {
            if !candidates[k].score.less_than(&candidates[best].score) {
                proof {
                    let b = candidates@[best as int].score;
                    let c = candidates@[k as int].score;
                    assert forall|j: int| 0 <= j < k + 1 implies !score_lt(c, #[trigger] candidates@[j].score) by {
                        if j < k {
                            let s = candidates@[j].score;
                            assert(!score_lt(b, s));
                            assert(!score_lt(c, b));
                            assert(candidates@[j].score.den > 0);
                            assert(candidates@[best as int].score.den > 0);
                            assert(candidates@[k as int].score.den > 0);
                            lemma_score_le_trans(s, b, c);
                        }
                    }
                }
                best = k;
            }
            k = k + 1;
        }
        let mut candidates = candidates;
        let ghost all = candidates@;
        let r = candidates.remove(best);
        assert(r == all[best as int]);
        r
    }

    /// The best-scoring predicate among those generated at `address`.
    pub fn evaluate_best_predicate_at_address(address: usize, trace_analyzer: &TraceAnalyzer) -> (r: Predicate)
        requires
            trace_analyzer.wf(),
            trace_analyzer.scorable(),
            visited_by_any(trace_analyzer.crashes.0@, address) || visited_by_any(trace_analyzer.non_crashes.0@, address),
        ensures
            r.address == address,
            r.wf(),
            r.score == balanced_score(r, trace_analyzer.crashes.0@, trace_analyzer.non_crashes.0@),
            ({
                let ct = crate::predicate_builder::candidate_tests(*trace_analyzer, address);
                exists|i: int| 0 <= i < ct.len() && test_of(r) == ct[i]
                    && (forall|j: int| 0 <= j < ct.len() ==> !score_lt(r.score, #[trigger] test_score(*trace_analyzer, ct[j])))
                    && (forall|j: int| i < j < ct.len() ==> score_lt(#[trigger] test_score(*trace_analyzer, ct[j]), r.score))
            }),
    {
        let predicates = crate::predicate_builder::PredicateBuilder::gen_predicates(address, trace_analyzer);
        let ghost ct = crate::predicate_builder::candidate_tests(*trace_analyzer, address);
        let mut scored: Vec<Predicate> = Vec::new();
        let mut k: usize = 0;
        while k < predicates.len()
            invariant
                trace_analyzer.scorable(),
                k <= predicates@.len(),
                scored@.len() == k,
                forall|i: int| 0 <= i < predicates@.len() ==> (#[trigger] predicates@[i]).wf() && predicates@[i].address == address,
                forall|i: int| 0 <= i < k ==> (#[trigger] scored@[i]).wf() && scored@[i].address == address
                    && scored@[i].score == balanced_score(scored@[i], trace_analyzer.crashes.0@, trace_analyzer.non_crashes.0@)
                    && scored@[i].score.den > 0
                    && test_of(scored@[i]) == test_of(predicates@[i])
                    && scored@[i].score == test_score(*trace_analyzer, test_of(scored@[i])),
            decreases predicates@.len() - k,
        {
            let p = PredicateAnalyzer::evaluate_predicate(trace_analyzer, &predicates[k]);
            proof {
                lemma_count_same_test(trace_analyzer.crashes.0@, predicates@[k as int], p);
                lemma_count_same_test(trace_analyzer.non_crashes.0@, predicates@[k as int], p);
                lemma_test_score(*trace_analyzer, p);
            }
            scored.push(p);
            k = k + 1;
        }
        let ghost sv = scored@;
        let r = PredicateAnalyzer::best_of(scored);
        proof {
            let i = choose|i: int| 0 <= i < sv.len() && r == sv[i]
                && (forall|j: int| 0 <= j < sv.len() ==> !score_lt(r.score, #[trigger] sv[j].score))
                && (forall|j: int| i < j < sv.len() ==> score_lt(#[trigger] sv[j].score, r.score));
            assert(tests(predicates@)[i] == test_of(predicates@[i]));
            assert forall|j: int| 0 <= j < ct.len() implies !score_lt(r.score, #[trigger] test_score(*trace_analyzer, ct[j])) by {
                assert(tests(predicates@)[j] == test_of(predicates@[j]));
                assert(sv[j].score == test_score(*trace_analyzer, ct[j]));
            }
            assert forall|j: int| i < j < ct.len() implies score_lt(#[trigger] test_score(*trace_analyzer, ct[j]), r.score) by {
                assert(tests(predicates@)[j] == test_of(predicates@[j]));
                assert(sv[j].score == test_score(*trace_analyzer, ct[j]));
            }
        }
        r
    }
}

/// Comparison of scores with positive denominators is transitive.
pub proof fn lemma_score_le_trans(s: Score, b: Score, c: Score)
    requires
        !score_lt(b, s),
        !score_lt(c, b),
        s.den > 0,
        b.den > 0,
        c.den > 0,
    ensures
        !score_lt(c, s),
{
    let (sn, sd, bn, bd, cn, cd) = (s.num as int, s.den as int, b.num as int, b.den as int, c.num as int, c.den as int);
    assert(sn * cd <= cn * sd) by (nonlinear_arith)
        requires
            sn * bd <= bn * sd,
            bn * cd <= cn * bd,
            sd > 0,
            bd > 0,
            cd > 0,
            sn >= 0,
            bn >= 0,
            cn >= 0,
    {
        assert(sn * bd * cd <= bn * sd * cd);
        assert(bn * cd * sd <= cn * bd * sd);
        assert(sn * cd * bd <= cn * sd * bd);
    }
}

/// A score below `b` is below every score at least `b`.
pub proof fn lemma_score_lt_le(a: Score, b: Score, c: Score)
    requires
        score_lt(a, b),
        !score_lt(c, b),
        a.den > 0,
        b.den > 0,
        c.den > 0,
    ensures
        score_lt(a, c),
{
    let (an, ad, bn, bd, cn, cd) = (a.num as int, a.den as int, b.num as int, b.den as int, c.num as int, c.den as int);
    assert(an * cd < cn * ad) by (nonlinear_arith)
        requires
            an * bd < bn * ad,
            bn * cd <= cn * bd,
            ad > 0,
            bd > 0,
            cd > 0,
            an >= 0,
            bn >= 0,
            cn >= 0,
    {
        assert(an * bd * cd < bn * ad * cd);
        assert(bn * cd * ad <= cn * bd * ad);
        assert(an * cd * bd < cn * ad * bd);
    }
}

/// The balanced score of the predicate with test `t`.
pub open spec fn test_score(a: TraceAnalyzer, t: (Classifier, Option<usize>, Option<usize>, usize)) -> Score {
    balanced_score(
        Predicate { name: arbitrary(), p1: t.1, p2: t.2, function: t.0, score: Score { num: 0, den: 1 }, address: t.3 },
        a.crashes.0@,
        a.non_crashes.0@,
    )
}

/// A predicate's balanced score is the score of its test.
pub proof fn lemma_test_score(a: TraceAnalyzer, p: Predicate)
    ensures
        balanced_score(p, a.crashes.0@, a.non_crashes.0@) == test_score(a, test_of(p)),
{
    let t = test_of(p);
    let q = Predicate { name: arbitrary(), p1: t.1, p2: t.2, function: t.0, score: Score { num: 0, den: 1 }, address: t.3 };
    lemma_count_same_test(a.crashes.0@, p, q);
    lemma_count_same_test(a.non_crashes.0@, p, q);
}

/// A balanced score over trace sets that allow exact scores has a positive
/// denominator.
pub proof fn lemma_balanced_den(p: Predicate, crashes: Seq<Trace>, non_crashes: Seq<Trace>)
    requires
        counts_fit(crashes.len(), non_crashes.len()),
    ensures
        balanced_score(p, crashes, non_crashes).den > 0,
{
    let nc = crashes.len();
    let nn = non_crashes.len();
    assert(2 * nc * nn > 0) by (nonlinear_arith)
        requires
            nc > 0,
            nn > 0,
    ;
}

/// The count depends on the classifier, its parameters and the address only.
pub proof fn lemma_count_same_test(ts: Seq<Trace>, p: Predicate, q: Predicate)
    requires
        p.function == q.function,
        p.p1 == q.p1,
        p.p2 == q.p2,
        p.address == q.address,
    ensures
        count_holds(ts, p) == count_holds(ts, q),
    decreases ts.len(),
{
    if ts.len() > 0 {
        lemma_count_same_test(ts.drop_last(), p, q);
    }
}

proof fn lemma_visits_bounded(ts: Seq<Trace>, a: usize)
    ensures
        count_visits(ts, a) <= ts.len(),
    decreases ts.len(),
{
    if ts.len() > 0 {
        lemma_visits_bounded(ts.drop_last(), a);
    }
}

proof fn lemma_visited_counts(ts: Seq<Trace>, p: Predicate)
    requires
        p.function == Classifier::IsVisited,
    ensures
        count_holds(ts, p) == count_visits(ts, p.address),
    decreases ts.len(),
{
    if ts.len() > 0 {
        lemma_visited_counts(ts.drop_last(), p);
    }
}

/// The score of `is_visited` at an address is half the share of crash
/// traces that visit it plus half the share of non-crash traces that do
/// not, as the fraction `(cv * nn + (nn - nv) * nc) / (2 * nc * nn)`; it is
/// exactly one when every crash trace and no non-crash trace visits it.
pub proof fn lemma_is_visited_score(p: Predicate, crashes: Seq<Trace>, non_crashes: Seq<Trace>)
    requires
        p.function == Classifier::IsVisited,
    ensures
        ({
            let nc = crashes.len();
            let nn = non_crashes.len();
            let cv = count_visits(crashes, p.address);
            let nv = count_visits(non_crashes, p.address);
            &&& score_num(p, crashes, non_crashes) == cv * nn + (nn - nv) * nc
            &&& score_den(crashes, non_crashes) == 2 * nc * nn
            &&& (cv == nc && nv == 0 ==> score_num(p, crashes, non_crashes) == score_den(crashes, non_crashes))
        }),
{
    let nc = crashes.len();
    let nn = non_crashes.len();
    lemma_visited_counts(crashes, p);
    lemma_visited_counts(non_crashes, p);
    lemma_visits_bounded(non_crashes, p.address);
    let cv = count_visits(crashes, p.address);
    let nv = count_visits(non_crashes, p.address);
    if cv == nc && nv == 0 {
        assert(nc * nn + nn * nc == 2 * nc * nn) by (nonlinear_arith);
    }
}

/// Every trace of `ts` visits `a` and records register `reg` in the map
/// that the minimum (or, with `max`, the maximum) selector reads.
pub open spec fn defined_everywhere(ts: Seq<Trace>, a: usize, reg: usize, max: bool) -> bool {
    forall|i: int| 0 <= i < ts.len() ==> match #[trigger] instr_at(ts[i], a) {
        Some(instr) => if max {
            instr.registers_max.view().contains_key(reg)
        } else {
            instr.registers_min.view().contains_key(reg)
        },
        None => false,
    }
}

/// The `<` and `>=` classifiers of the same selector form a complementary pair.
pub open spec fn complementary(less: Predicate, ge: Predicate, max: bool) -> bool {
    &&& if max {
        less.function == Classifier::MaxRegValLess && ge.function == Classifier::MaxRegValGreaterOrEqual
    } else {
        less.function == Classifier::MinRegValLess && ge.function == Classifier::MinRegValGreaterOrEqual
    }
    &&& less.p1 == ge.p1
    &&& less.p2 == ge.p2
    &&& less.address == ge.address
    &&& less.p1.is_some()
    &&& less.p2.is_some()
}

proof fn lemma_complementary_counts(ts: Seq<Trace>, less: Predicate, ge: Predicate, max: bool)
    requires
        complementary(less, ge, max),
        defined_everywhere(ts, less.address, less.p1->0, max),
    ensures
        count_holds(ts, less) + count_holds(ts, ge) == ts.len(),
    decreases ts.len(),
{
    if ts.len() > 0 {
        let init = ts.drop_last();
        assert forall|i: int| 0 <= i < init.len() implies match #[trigger] instr_at(init[i], less.address) {
            Some(instr) => if max {
                instr.registers_max.view().contains_key(less.p1->0)
            } else {
                instr.registers_min.view().contains_key(less.p1->0)
            },
            None => false,
        } by {
            assert(init[i] == ts[i]);
            assert(instr_at(ts[i], less.address) == instr_at(init[i], less.address));
        }
        lemma_complementary_counts(init, less, ge, max);
        assert(instr_at(ts[ts.len() - 1], less.address) is Some);
    }
}

/// On trace sets where every trace records the register that a `<` and a
/// `>=` predicate of the same selector and threshold compare, exactly one
/// of the two holds on each trace, and their scores add up to one.
pub proof fn lemma_complementary_scores(less: Predicate, ge: Predicate, max: bool, crashes: Seq<Trace>, non_crashes: Seq<Trace>)
    requires
        complementary(less, ge, max),
        defined_everywhere(crashes, less.address, less.p1->0, max),
        defined_everywhere(non_crashes, less.address, less.p1->0, max),
    ensures
        count_holds(crashes, less) + count_holds(crashes, ge) == crashes.len(),
        count_holds(non_crashes, less) + count_holds(non_crashes, ge) == non_crashes.len(),
        score_num(less, crashes, non_crashes) + score_num(ge, crashes, non_crashes) == score_den(crashes, non_crashes),
{
    lemma_complementary_counts(crashes, less, ge, max);
    lemma_complementary_counts(non_crashes, less, ge, max);
    lemma_count_bounded(non_crashes, less);
    lemma_count_bounded(non_crashes, ge);
    let nc = crashes.len();
    let nn = non_crashes.len();
    let t1 = count_holds(crashes, less);
    let t2 = count_holds(crashes, ge);
    let h1 = count_holds(non_crashes, less);
    let h2 = count_holds(non_crashes, ge);
    assert(t1 * nn + (nn - h1) * nc + t2 * nn + (nn - h2) * nc == 2 * nc * nn) by (nonlinear_arith)
        requires
            t1 + t2 == nc,
            h1 + h2 == nn,
    ;
}

} // verus!

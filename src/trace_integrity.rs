//! Integrity checks of the loaded traces and of the joint control-flow
//! graph. Each check reports what it finds instead of printing it.
use vstd::prelude::*;
use crate::text::{contains, contains_seq};
use crate::trace::{Instruction, Trace, MEMORY_ADDRESS_INDEX, MEMORY_VALUE_INDEX, REGISTER_COUNT};
use crate::trace_analyzer::{all_wf, TraceAnalyzer};

verus! {

broadcast use vstd::std_specs::hash::group_hash_axioms;

/// A finding of the integrity checks.
#[derive(Clone, Copy, Debug, PartialEq, Eq, Structural)]
pub enum IntegrityIssue {
    /// The graph has no block.
    CfgEmpty,
    /// The graph has this many heads instead of one.
    CfgHeads(usize),
    /// The graph has this many leaves instead of one.
    CfgLeaves(usize),
    /// An instruction has an empty mnemonic.
    EmptyMnemonic { address: usize },
    /// A minimum register value lies above the maximum.
    MinAboveMax { address: usize, register: usize },
    /// A minimum register value has no maximum.
    MissingMax { address: usize, register: usize },
    /// A memory write without the memory address or value tracked.
    UntrackedMemoryWrite { address: usize, register: usize },
}

/// Whether the min/max summary of register `i` at `instr` is inconsistent.
pub open spec fn min_max_issue(instr: Instruction, i: usize) -> Option<IntegrityIssue> {
    let min = instr.registers_min.view();
    let max = instr.registers_max.view();
    if min.contains_key(i) {
        if !max.contains_key(i) {
            Some(IntegrityIssue::MissingMax { address: instr.address, register: i })
        } else if min[i].value > max[i].value {
            Some(IntegrityIssue::MinAboveMax { address: instr.address, register: i })
        } else {
            None
        }
    } else {
        None
    }
}

/// Whether `x` is a minimum/maximum finding of `instr`.
pub open spec fn real_issue(instr: Instruction, x: IntegrityIssue) -> bool {
    exists|i: usize| i < REGISTER_COUNT && #[trigger] min_max_issue(instr, i) == Some(x)
}

/// Whether `x` is a minimum/maximum finding of some instruction of `ts`.
pub open spec fn issue_in(ts: Seq<Trace>, x: IntegrityIssue) -> bool {
    exists|t: int, a: usize| 0 <= t < ts.len() && ts[t].instructions@.contains_key(a)
        && #[trigger] real_issue(ts[t].instructions@[a], x)
}

/// Whether `m` writes to memory with a `mov` (not a `rep` form).
pub open spec fn is_memory_write(m: Seq<char>) -> bool {
    contains_seq(m, "], "@) && contains_seq(m, "mov"@) && !contains_seq(m, "rep"@)
}

/// Integrity checks.
pub struct TraceIntegrityChecker {}

impl TraceIntegrityChecker {
    /// The registers of `instr` whose minimum lies above the maximum or has
    /// no maximum, in register order.
    pub fn compare_reg_min_max(instr: &Instruction, issues: &mut Vec<IntegrityIssue>)
        ensures
            final(issues)@.subrange(0, old(issues)@.len() as int) == old(issues)@,
            forall|i: usize| i < REGISTER_COUNT && (#[trigger] min_max_issue(*instr, i)).is_some()
                ==> final(issues)@.contains(min_max_issue(*instr, i)->0),
            final(issues)@.len() >= old(issues)@.len(),
            forall|k: int| old(issues)@.len() <= k < final(issues)@.len() ==> real_issue(*instr, #[trigger] final(issues)@[k]),
    {
        let ghost start = issues@;
        let mut i: usize = 0;
        while i < REGISTER_COUNT
            invariant
                i <= REGISTER_COUNT,
                issues@.len() >= start.len(),
                issues@.subrange(0, start.len() as int) == start,
                forall|j: usize| j < i && (#[trigger] min_max_issue(*instr, j)).is_some()
                    ==> issues@.contains(min_max_issue(*instr, j)->0),
                forall|k: int| start.len() <= k < issues@.len() ==> real_issue(*instr, #[trigger] issues@[k]),
            decreases REGISTER_COUNT - i,
        {
            let found: Option<IntegrityIssue> = match instr.registers_min.get(i) {
                Some(min) => match instr.registers_max.get(i) {
                    None => Some(IntegrityIssue::MissingMax { address: instr.address, register: i }),
                    Some(max) => if min.value > max.value {
                        Some(IntegrityIssue::MinAboveMax { address: instr.address, register: i })
                    } else {
                        None
                    },
                },
                None => None,
            };
            assert(found == min_max_issue(*instr, i));
            match found {
                Some(issue) => {
                    let ghost before = issues@;
                    issues.push(issue);
                    proof {
                        assert(issues@[issues@.len() - 1] == issue);
                        assert forall|k: int| start.len() <= k < issues@.len() implies real_issue(*instr, #[trigger] issues@[k]) by {
                            if k < before.len() {
                                assert(issues@[k] == before[k]);
                            } else {
                                assert(min_max_issue(*instr, i) == Some(issue));
                            }
                        }
                        assert(issues@.subrange(0, start.len() as int) =~= before.subrange(0, start.len() as int));
                        assert forall|j: usize| j < i + 1 && (#[trigger] min_max_issue(*instr, j)).is_some()
                            implies issues@.contains(min_max_issue(*instr, j)->0) by {
                            if j < i {
                                let k = choose|k: int| 0 <= k < before.len() && before[k] == min_max_issue(*instr, j)->0;
                                assert(issues@[k] == before[k]);
                            }
                        }
                    }
                }
                None => {}
            }
            i = i + 1;
        }
    }

    /// The minimum/maximum findings of every instruction of every trace.
    pub fn compare_reg_min_last_max(trace_analyzer: &TraceAnalyzer) -> (r: Vec<IntegrityIssue>)
        requires
            trace_analyzer.wf(),
        ensures
            forall|t: int, a: usize, i: usize| 0 <= t < trace_analyzer.crashes.0@.len() && i < REGISTER_COUNT
                && trace_analyzer.crashes.0@[t].instructions@.contains_key(a)
                && (#[trigger] min_max_issue(trace_analyzer.crashes.0@[t].instructions@[a], i)).is_some()
                ==> r@.contains(min_max_issue(trace_analyzer.crashes.0@[t].instructions@[a], i)->0),
            forall|t: int, a: usize, i: usize| 0 <= t < trace_analyzer.non_crashes.0@.len() && i < REGISTER_COUNT
                && trace_analyzer.non_crashes.0@[t].instructions@.contains_key(a)
                && (#[trigger] min_max_issue(trace_analyzer.non_crashes.0@[t].instructions@[a], i)).is_some()
                ==> r@.contains(min_max_issue(trace_analyzer.non_crashes.0@[t].instructions@[a], i)->0),
            forall|k: int| 0 <= k < r@.len() ==> issue_in(trace_analyzer.crashes.0@, #[trigger] r@[k])
                || issue_in(trace_analyzer.non_crashes.0@, r@[k]),
    {
        let mut issues: Vec<IntegrityIssue> = Vec::new();
        check_min_max_all(&trace_analyzer.crashes.0, &mut issues);
        let ghost mid = issues@;
        check_min_max_all(&trace_analyzer.non_crashes.0, &mut issues);
        proof {
            assert forall|k: int| 0 <= k < issues@.len() implies issue_in(trace_analyzer.crashes.0@, #[trigger] issues@[k])
                || issue_in(trace_analyzer.non_crashes.0@, issues@[k]) by {
                if k < mid.len() {
                    assert(issues@.subrange(0, mid.len() as int)[k] == mid[k]);
                }
            }
            assert forall|t: int, a: usize, i: usize| 0 <= t < trace_analyzer.crashes.0@.len() && i < REGISTER_COUNT
                && trace_analyzer.crashes.0@[t].instructions@.contains_key(a)
                && (#[trigger] min_max_issue(trace_analyzer.crashes.0@[t].instructions@[a], i)).is_some()
                implies issues@.contains(min_max_issue(trace_analyzer.crashes.0@[t].instructions@[a], i)->0) by {
                let x = min_max_issue(trace_analyzer.crashes.0@[t].instructions@[a], i)->0;
                assert(mid.contains(x));
                let k = choose|k: int| 0 <= k < mid.len() && mid[k] == x;
                assert(issues@.subrange(0, mid.len() as int)[k] == x);
            }
        }
        issues
    }
}

impl TraceIntegrityChecker {
    /// The shape findings of the graph: no block, or other than one head or
    /// one leaf.
    pub fn check_cfg(trace_analyzer: &TraceAnalyzer) -> (r: Vec<IntegrityIssue>)
        requires
            trace_analyzer.wf(),
        ensures
            ({
                let cfg = trace_analyzer.cfg;
                let heads = cfg.starts_without(cfg.exits@.len() as int, false);
                let leaves = cfg.starts_without(cfg.exits@.len() as int, true);
                r@ == (if cfg.exit_addr_to_bb@.is_empty() { seq![IntegrityIssue::CfgEmpty] } else { Seq::empty() })
                    + (if heads.len() != 1 { seq![IntegrityIssue::CfgHeads(heads.len() as usize)] } else { Seq::empty() })
                    + (if leaves.len() != 1 { seq![IntegrityIssue::CfgLeaves(leaves.len() as usize)] } else { Seq::empty() })
            }),
    {
        let mut r: Vec<IntegrityIssue> = Vec::new();
        let ghost a = if trace_analyzer.cfg.exit_addr_to_bb@.is_empty() { seq![IntegrityIssue::CfgEmpty] } else { Seq::empty() };
        if trace_analyzer.cfg.is_empty() {
            r.push(IntegrityIssue::CfgEmpty);
        }
        assert(r@ =~= a);
        let heads = trace_analyzer.cfg.heads();
        let ghost b = if heads@.len() != 1 { seq![IntegrityIssue::CfgHeads(heads@.len() as usize)] } else { Seq::empty() };
        if heads.len() != 1 {
            r.push(IntegrityIssue::CfgHeads(heads.len()));
        }
        assert(r@ =~= a + b);
        let leaves = trace_analyzer.cfg.leaves();
        let ghost c = if leaves@.len() != 1 { seq![IntegrityIssue::CfgLeaves(leaves@.len() as usize)] } else { Seq::empty() };
        if leaves.len() != 1 {
            r.push(IntegrityIssue::CfgLeaves(leaves.len()));
        }
        assert(r@ =~= a + b + c);
        r
    }

    /// The findings of one instruction: an empty mnemonic, and a memory
    /// write without the memory address or value tracked.
    pub fn check_instruction(instr: &Instruction, issues: &mut Vec<IntegrityIssue>)
        ensures
            final(issues)@.len() >= old(issues)@.len(),
            final(issues)@.subrange(0, old(issues)@.len() as int) == old(issues)@,
            instr.mnemonic@.len() == 0 ==> final(issues)@.contains(IntegrityIssue::EmptyMnemonic { address: instr.address }),
            is_memory_write(instr.mnemonic@) && !instr.registers_min.view().contains_key(MEMORY_ADDRESS_INDEX)
                ==> final(issues)@.contains(IntegrityIssue::UntrackedMemoryWrite { address: instr.address, register: MEMORY_ADDRESS_INDEX }),
            is_memory_write(instr.mnemonic@) && !instr.registers_min.view().contains_key(MEMORY_VALUE_INDEX)
                ==> final(issues)@.contains(IntegrityIssue::UntrackedMemoryWrite { address: instr.address, register: MEMORY_VALUE_INDEX }),
    {
        let ghost start = issues@;
        let m = instr.mnemonic.as_str();
        if m.is_empty() {
            issues.push(IntegrityIssue::EmptyMnemonic { address: instr.address });
            assert(issues@[issues@.len() - 1] == IntegrityIssue::EmptyMnemonic { address: instr.address });
        }
        let ghost after_mnemonic = issues@;
        if contains(m, "], ") && contains(m, "mov") && !contains(m, "rep") {
            if instr.registers_min.get(MEMORY_ADDRESS_INDEX).is_none() {
                issues.push(IntegrityIssue::UntrackedMemoryWrite { address: instr.address, register: MEMORY_ADDRESS_INDEX });
                assert(issues@[issues@.len() - 1] == IntegrityIssue::UntrackedMemoryWrite { address: instr.address, register: MEMORY_ADDRESS_INDEX });
            }
            let ghost mid = issues@;
            if instr.registers_min.get(MEMORY_VALUE_INDEX).is_none() {
                issues.push(IntegrityIssue::UntrackedMemoryWrite { address: instr.address, register: MEMORY_VALUE_INDEX });
                assert(issues@[issues@.len() - 1] == IntegrityIssue::UntrackedMemoryWrite { address: instr.address, register: MEMORY_VALUE_INDEX });
            }
            proof {
                if mid.contains(IntegrityIssue::UntrackedMemoryWrite { address: instr.address, register: MEMORY_ADDRESS_INDEX }) {
                    let k = choose|k: int| 0 <= k < mid.len() && mid[k] == IntegrityIssue::UntrackedMemoryWrite { address: instr.address, register: MEMORY_ADDRESS_INDEX };
                    assert(issues@[k] == mid[k]);
                }
            }
        }
        proof {
            if after_mnemonic.contains(IntegrityIssue::EmptyMnemonic { address: instr.address }) {
                let k = choose|k: int| 0 <= k < after_mnemonic.len() && after_mnemonic[k] == IntegrityIssue::EmptyMnemonic { address: instr.address };
                assert(issues@[k] == after_mnemonic[k]);
            }
            assert(issues@.subrange(0, start.len() as int) =~= start);
        }
    }
}

/// Adds the minimum/maximum findings of every instruction of `ts`.
fn check_min_max_all(ts: &Vec<Trace>, issues: &mut Vec<IntegrityIssue>)
    requires
        all_wf(ts@),
    ensures
        final(issues)@.subrange(0, old(issues)@.len() as int) == old(issues)@,
        final(issues)@.len() >= old(issues)@.len(),
        forall|t: int, a: usize, i: usize| 0 <= t < ts@.len() && i < REGISTER_COUNT
            && ts@[t].instructions@.contains_key(a)
            && (#[trigger] min_max_issue(ts@[t].instructions@[a], i)).is_some()
            ==> final(issues)@.contains(min_max_issue(ts@[t].instructions@[a], i)->0),
        forall|k: int| old(issues)@.len() <= k < final(issues)@.len() ==> issue_in(ts@, #[trigger] final(issues)@[k]),
{
    let ghost start = issues@;
    let mut t: usize = 0;
    while t < ts.len()
        invariant
            all_wf(ts@),
            t <= ts@.len(),
            issues@.len() >= start.len(),
            issues@.subrange(0, start.len() as int) == start,
            forall|u: int, a: usize, i: usize| 0 <= u < t && i < REGISTER_COUNT
                && ts@[u].instructions@.contains_key(a)
                && (#[trigger] min_max_issue(ts@[u].instructions@[a], i)).is_some()
                ==> issues@.contains(min_max_issue(ts@[u].instructions@[a], i)->0),
            forall|k: int| start.len() <= k < issues@.len() ==> issue_in(ts@, #[trigger] issues@[k]),
        decreases ts@.len() - t,
    {
        let trace = &ts[t];
        assert(trace.wf());
        let ghost before_trace = issues@;
        let mut k: usize = 0;
        while k < trace.addresses.len()
            invariant
                trace.wf(),
                *trace == ts@[t as int],
                k <= trace.addresses@.len(),
                issues@.len() >= before_trace.len(),
                issues@.subrange(0, before_trace.len() as int) == before_trace,
                forall|j: int, i: usize| 0 <= j < k && i < REGISTER_COUNT
                    && (#[trigger] min_max_issue(trace.instructions@[trace.addresses@[j]], i)).is_some()
                    ==> issues@.contains(min_max_issue(trace.instructions@[trace.addresses@[j]], i)->0),
                forall|m: int| start.len() <= m < issues@.len() ==> issue_in(ts@, #[trigger] issues@[m]),
                start.len() <= before_trace.len(),
                t < ts@.len(),
            decreases trace.addresses@.len() - k,
        {
            let a = trace.addresses[k];
            assert(trace.addresses@.contains(a));
            let instr = trace.instructions.get(&a).unwrap();
            let ghost before = issues@;
            TraceIntegrityChecker::compare_reg_min_max(instr, issues);
            proof {
                assert forall|m: int| start.len() <= m < issues@.len() implies issue_in(ts@, #[trigger] issues@[m]) by {
                    if m < before.len() {
                        assert(issues@.subrange(0, before.len() as int)[m] == before[m]);
                    } else {
                        assert(real_issue(*instr, issues@[m]));
                        assert(ts@[t as int].instructions@.contains_key(a));
                        assert(trace.instructions@[a] == *instr);
                    }
                }
                assert(issues@.subrange(0, before_trace.len() as int) =~= before.subrange(0, before_trace.len() as int)) by {
                    assert forall|x: int| 0 <= x < before_trace.len() implies issues@[x] == before[x] by {
                        assert(issues@.subrange(0, before.len() as int)[x] == before[x]);
                    }
                }
                assert forall|j: int, i: usize| 0 <= j < k + 1 && i < REGISTER_COUNT
                    && (#[trigger] min_max_issue(trace.instructions@[trace.addresses@[j]], i)).is_some()
                    implies issues@.contains(min_max_issue(trace.instructions@[trace.addresses@[j]], i)->0) by {
                    if j < k {
                        let x = min_max_issue(trace.instructions@[trace.addresses@[j]], i)->0;
                        let p = choose|p: int| 0 <= p < before.len() && before[p] == x;
                        assert(issues@.subrange(0, before.len() as int)[p] == x);
                    }
                }
            }
            k = k + 1;
        }
        proof {
            assert(issues@.subrange(0, start.len() as int) =~= before_trace.subrange(0, start.len() as int)) by {
                assert forall|x: int| 0 <= x < start.len() implies issues@[x] == before_trace[x] by {
                    assert(issues@.subrange(0, before_trace.len() as int)[x] == before_trace[x]);
                }
            }
            assert forall|u: int, a: usize, i: usize| 0 <= u < t + 1 && i < REGISTER_COUNT
                && ts@[u].instructions@.contains_key(a)
                && (#[trigger] min_max_issue(ts@[u].instructions@[a], i)).is_some()
                implies issues@.contains(min_max_issue(ts@[u].instructions@[a], i)->0) by {
                let x = min_max_issue(ts@[u].instructions@[a], i)->0;
                if u < t {
                    let p = choose|p: int| 0 <= p < before_trace.len() && before_trace[p] == x;
                    assert(issues@.subrange(0, before_trace.len() as int)[p] == x);
                } else {
                    assert(trace.addresses@.contains(a));
                    let j = choose|j: int| 0 <= j < trace.addresses@.len() && trace.addresses@[j] == a;
                    assert(min_max_issue(trace.instructions@[trace.addresses@[j]], i).is_some());
                }
            }
        }
        t = t + 1;
    }
}

} // verus!

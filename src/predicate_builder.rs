//! Enumeration of the candidate predicates at one address.
use vstd::prelude::*;
use crate::control_flow_graph::ControlFlowGraph;
use crate::predicate_synthesizer::{constant_tests, gen_reg_val_name, reg_val_name, selector_val_less_spec, PredicateSynthesizer};
use crate::predicates::{lemma_tests_append, lemma_tests_push, selector_val_less, selector_val_less_name, tests, test_of, Classifier, Predicate};
use crate::text::{contains, contains_seq, dec_seq, dec_string, hex_prefixed, hex_prefixed_string, push_char, push_str};
use crate::trace::{Selector, EFLAGS_INDEX, MEMORY_ADDRESS_INDEX, REGISTER_COUNT, RSP_INDEX};
use crate::trace_analyzer::{any_mnemonic, any_records, visited_by_any, TraceAnalyzer};

verus! {

/// Number of flag predicates.
pub const FLAG_PREDICATE_COUNT: usize = 18;

/// The flag bit tested by flag predicate `k` (the same nine bits for the
/// minimum and then the maximum flags value).
pub open spec fn flag_bit(k: int) -> u64 {
    let j = k % 9;
    if j == 0 { 0 } else if j == 1 { 2 } else if j == 2 { 4 } else if j == 3 { 6 } else if j == 4 { 7 }
    else if j == 5 { 8 } else if j == 6 { 9 } else if j == 7 { 10 } else { 11 }
}

/// The classifier of flag predicate `k`.
pub open spec fn flag_classifier(k: int) -> Classifier {
    if k < 9 { Classifier::MinFlagSet(flag_bit(k)) } else { Classifier::MaxFlagSet(flag_bit(k)) }
}

/// The name of flag predicate `k`.
pub open spec fn flag_name(k: int) -> Seq<char> {
    if k == 0 { "min_carry_flag_set"@ } else if k == 1 { "min_parity_flag_set"@ } else if k == 2 { "min_adjust_flag_set"@ } else if k == 3 { "min_zero_flag_set"@ } else if k == 4 { "min_sign_flag_set"@ } else if k == 5 { "min_trap_flag_set"@ } else if k == 6 { "min_interrupt_flag_set"@ } else if k == 7 { "min_direction_flag_set"@ } else if k == 8 { "min_overflow_flag_set"@ } else if k == 9 { "max_carry_flag_set"@ } else if k == 10 { "max_parity_flag_set"@ } else if k == 11 { "max_adjust_flag_set"@ } else if k == 12 { "max_zero_flag_set"@ } else if k == 13 { "max_sign_flag_set"@ } else if k == 14 { "max_trap_flag_set"@ } else if k == 15 { "max_interrupt_flag_set"@ } else if k == 16 { "max_direction_flag_set"@ } else { "max_overflow_flag_set"@ }
}

fn flag_entry(k: usize) -> (r: (&'static str, Classifier))
    requires
        k < FLAG_PREDICATE_COUNT,
    ensures
        r.1 == flag_classifier(k as int),
        r.0@ == flag_name(k as int),
{
    match k {
        0 => ("min_carry_flag_set", Classifier::MinFlagSet(0)),
        1 => ("min_parity_flag_set", Classifier::MinFlagSet(2)),
        2 => ("min_adjust_flag_set", Classifier::MinFlagSet(4)),
        3 => ("min_zero_flag_set", Classifier::MinFlagSet(6)),
        4 => ("min_sign_flag_set", Classifier::MinFlagSet(7)),
        5 => ("min_trap_flag_set", Classifier::MinFlagSet(8)),
        6 => ("min_interrupt_flag_set", Classifier::MinFlagSet(9)),
        7 => ("min_direction_flag_set", Classifier::MinFlagSet(10)),
        8 => ("min_overflow_flag_set", Classifier::MinFlagSet(11)),
        9 => ("max_carry_flag_set", Classifier::MaxFlagSet(0)),
        10 => ("max_parity_flag_set", Classifier::MaxFlagSet(2)),
        11 => ("max_adjust_flag_set", Classifier::MaxFlagSet(4)),
        12 => ("max_zero_flag_set", Classifier::MaxFlagSet(6)),
        13 => ("max_sign_flag_set", Classifier::MaxFlagSet(7)),
        14 => ("max_trap_flag_set", Classifier::MaxFlagSet(8)),
        15 => ("max_interrupt_flag_set", Classifier::MaxFlagSet(9)),
        16 => ("max_direction_flag_set", Classifier::MaxFlagSet(10)),
        _ => ("max_overflow_flag_set", Classifier::MaxFlagSet(11)),
    }
}

/// The name of the `<` comparison of a selector.
pub open spec fn selector_less_name_spec(selector: Selector) -> Seq<char> {
    match selector {
        Selector::RegMin => "min_reg_val_less"@,
        Selector::RegMax => "max_reg_val_less"@,
        Selector::RegMaxMinDiff => "max_min_diff_reg_val_less"@,
        _ => "ins_count_less"@,
    }
}

/// Whether the register predicates are skipped for `m`: a `leave`, an
/// instruction on `xmm` registers, one that names `rsp` outside a memory
/// operand, or a `mov` of a constant.
pub open spec fn skips_registers(m: Seq<char>) -> bool {
    contains_seq(m, "leave"@) || contains_seq(m, "xmm"@) || (!contains_seq(m, "["@) && contains_seq(m, "rsp"@))
        || (contains_seq(m, "mov"@) && contains_seq(m, ", 0x"@))
}

/// Whether register `reg` gets register predicates at `address`.
pub open spec fn eligible_register(t: TraceAnalyzer, address: usize, reg: usize) -> bool {
    (any_records(t.crashes.0@, address, reg) || any_records(t.non_crashes.0@, address, reg)) && reg != RSP_INDEX
        && reg != EFLAGS_INDEX && reg != MEMORY_ADDRESS_INDEX
}

/// Whether every predicate of `r` is well formed and bound to `address`.
pub open spec fn all_at(r: Seq<Predicate>, address: usize) -> bool {
    forall|i: int| 0 <= i < r.len() ==> (#[trigger] r[i]).wf() && r[i].address == address
}

/// The tests of the eighteen flag predicates, when some trace records the
/// flags at `address`.
pub open spec fn flag_tests(t: TraceAnalyzer, address: usize) -> Seq<(Classifier, Option<usize>, Option<usize>, usize)> {
    if any_records(t.crashes.0@, address, EFLAGS_INDEX) || any_records(t.non_crashes.0@, address, EFLAGS_INDEX) {
        Seq::new(FLAG_PREDICATE_COUNT as nat, |k: int| (flag_classifier(k), None::<usize>, None::<usize>, address))
    } else {
        Seq::empty()
    }
}

/// The tests of the block-exit predicates at `address`.
pub open spec fn cfg_tests(cfg: ControlFlowGraph, address: usize) -> Seq<(Classifier, Option<usize>, Option<usize>, usize)> {
    if cfg.exit_addr_to_bb@.contains_key(address) {
        let succs = cfg.exit_addr_to_bb@[address].successors@;
        seq![
            (Classifier::NumSuccessorsGreater, Some(0usize), None::<usize>, address),
            (Classifier::NumSuccessorsGreater, Some(1usize), None::<usize>, address),
            (Classifier::NumSuccessorsGreater, Some(2usize), None::<usize>, address),
            (Classifier::NumSuccessorsEqual, Some(0usize), None::<usize>, address),
            (Classifier::NumSuccessorsEqual, Some(1usize), None::<usize>, address),
            (Classifier::NumSuccessorsEqual, Some(2usize), None::<usize>, address),
        ] + succs.map_values(|d: usize| (Classifier::HasEdgeTo, Some(d), None::<usize>, address))
            + succs.map_values(|d: usize| (Classifier::EdgeOnlyTakenTo, Some(d), None::<usize>, address))
    } else {
        Seq::empty()
    }
}

/// The tests of `S[reg] < value` for the eligible registers below `n`.
pub open spec fn reg_val_tests(t: TraceAnalyzer, address: usize, selector: Selector, value: usize, n: int)
    -> Seq<(Classifier, Option<usize>, Option<usize>, usize)>
    decreases n,
{
    if n <= 0 {
        Seq::empty()
    } else {
        let prev = reg_val_tests(t, address, selector, value, n - 1);
        if eligible_register(t, address, (n - 1) as usize) {
            prev.push((selector_val_less_spec(selector), Some((n - 1) as usize), Some(value), address))
        } else {
            prev
        }
    }
}

/// The selector of the `k`-th fixed register group: the maximum for the
/// first four, the minimum for the next four.
pub open spec fn fixed_selector(k: int) -> Selector {
    if k < 4 { Selector::RegMax } else { Selector::RegMin }
}

/// The threshold of the `k`-th fixed register group: 2^64-1, 2^32-1, 2^16-1,
/// 2^8-1, then again.
pub open spec fn fixed_value(k: int) -> usize {
    let j = k % 4;
    if j == 0 { usize::MAX } else if j == 1 { 0xffff_ffff } else if j == 2 { 0xffff } else { 0xff }
}

/// The tests of the first `k` fixed register groups.
pub open spec fn fixed_tests(t: TraceAnalyzer, address: usize, k: int) -> Seq<(Classifier, Option<usize>, Option<usize>, usize)>
    decreases k,
{
    if k <= 0 {
        Seq::empty()
    } else {
        fixed_tests(t, address, k - 1) + reg_val_tests(t, address, fixed_selector(k - 1), fixed_value(k - 1), REGISTER_COUNT as int)
    }
}

/// The tests of every candidate at `address`: `is_visited`; unless the
/// mnemonic skips them, the synthesized thresholds and the fixed register
/// predicates; the block-exit predicates; the flag predicates.
pub open spec fn candidate_tests(t: TraceAnalyzer, address: usize) -> Seq<(Classifier, Option<usize>, Option<usize>, usize)> {
    let registers = if skips_registers(any_mnemonic(t, address)) {
        Seq::empty()
    } else {
        constant_tests(t, address) + fixed_tests(t, address, 8)
    };
    seq![(Classifier::IsVisited, None::<usize>, None::<usize>, address)] + registers + cfg_tests(t.cfg, address)
        + flag_tests(t, address)
}

/// Builds the candidate predicates of an address.
pub struct PredicateBuilder {}

impl PredicateBuilder {
    fn gen_visited(address: usize) -> (r: Vec<Predicate>)
        ensures
            r@.len() == 1,
            r@[0].function == Classifier::IsVisited,
            r@[0].p1.is_none() && r@[0].p2.is_none(),
            r@[0].name@ == "is_visited"@,
            all_at(r@, address),
    {
        let mut r: Vec<Predicate> = Vec::new();
        r.push(Predicate::new("is_visited", address, Classifier::IsVisited, None, None));
        r
    }

    /// One predicate per successor of the block ending at `address`,
    /// named `0xaddress pred_name 0xsuccessor`.
    fn gen_all_edge_from_to_predicates(address: usize, cfg: &ControlFlowGraph, pred_name: &str, func: Classifier) -> (r: Vec<Predicate>)
        requires
            func == Classifier::HasEdgeTo || func == Classifier::EdgeOnlyTakenTo,
        ensures
            cfg.exit_addr_to_bb@.contains_key(address) ==> r@.len() == cfg.exit_addr_to_bb@[address].successors@.len(),
            !cfg.exit_addr_to_bb@.contains_key(address) ==> r@.len() == 0,
            all_at(r@, address),
            forall|i: int| 0 <= i < r@.len() ==> (#[trigger] r@[i]).function == func
                && r@[i].p1 == Some(cfg.exit_addr_to_bb@[address].successors@[i]) && r@[i].p2.is_none()
                && r@[i].name@ == hex_prefixed(address as nat) + seq![' '] + pred_name@ + seq![' ']
                    + hex_prefixed(cfg.exit_addr_to_bb@[address].successors@[i] as nat),
    {
        let succs = cfg.get_instruction_successors(address);
        let mut r: Vec<Predicate> = Vec::new();
        let mut k: usize = 0;
        while k < succs.len()
            invariant
                func == Classifier::HasEdgeTo || func == Classifier::EdgeOnlyTakenTo,
                k <= succs@.len(),
                r@.len() == k,
                cfg.exit_addr_to_bb@.contains_key(address) ==> succs@ == cfg.exit_addr_to_bb@[address].successors@,
                all_at(r@, address),
                forall|i: int| 0 <= i < k ==> (#[trigger] r@[i]).function == func && r@[i].p1 == Some(succs@[i]) && r@[i].p2.is_none()
                    && r@[i].name@ == hex_prefixed(address as nat) + seq![' '] + pred_name@ + seq![' ']
                        + hex_prefixed(succs@[i] as nat),
            decreases succs@.len() - k,
        {
            let to = succs[k];
            let mut name = hex_prefixed_string(address as u64);
            push_char(&mut name, ' ');
            push_str(&mut name, pred_name);
            push_char(&mut name, ' ');
            let t = hex_prefixed_string(to as u64);
            push_str(&mut name, t.as_str());
            r.push(Predicate::new(name.as_str(), address, func, Some(to), None));
            k = k + 1;
        }
        r
    }

    /// The predicate `pred_name value` with parameter `value`.
    fn gen_all_edge_val_predicates(address: usize, pred_name: &str, value: usize, func: Classifier) -> (r: Predicate)
        requires
            func == Classifier::NumSuccessorsGreater || func == Classifier::NumSuccessorsEqual,
        ensures
            r.wf(),
            r.address == address,
            r.function == func,
            r.p1 == Some(value),
            r.p2.is_none(),
            r.name@ == pred_name@ + seq![' '] + dec_seq(value as nat),
    {
        let mut name = String::new();
        push_str(&mut name, pred_name);
        push_char(&mut name, ' ');
        let d = dec_string(value as u64);
        push_str(&mut name, d.as_str());
        Predicate::new(name.as_str(), address, func, Some(value), None)
    }

    /// The eighteen flag predicates, when some trace records the flags at
    /// `address`; none otherwise.
    pub fn gen_flag_predicates(address: usize, trace_analyzer: &TraceAnalyzer) -> (r: Vec<Predicate>)
        ensures
            all_at(r@, address),
            r@.len() == if any_records(trace_analyzer.crashes.0@, address, EFLAGS_INDEX)
                || any_records(trace_analyzer.non_crashes.0@, address, EFLAGS_INDEX) { FLAG_PREDICATE_COUNT as int } else { 0 },
            forall|k: int| 0 <= k < r@.len() ==> (#[trigger] r@[k]).function == flag_classifier(k),
            forall|k: int| 0 <= k < r@.len() ==> (#[trigger] r@[k]).name@ == flag_name(k),
            tests(r@) == flag_tests(*trace_analyzer, address),
    {
        let mut r: Vec<Predicate> = Vec::new();
        if !trace_analyzer.any_instruction_at_address_contains_reg(address, EFLAGS_INDEX) {
            assert(tests(r@) =~= flag_tests(*trace_analyzer, address));
            return r;
        }
        let mut k: usize = 0;
        while k < FLAG_PREDICATE_COUNT
            invariant
                k <= FLAG_PREDICATE_COUNT,
                r@.len() == k,
                all_at(r@, address),
                forall|j: int| 0 <= j < k ==> (#[trigger] r@[j]).function == flag_classifier(j),
                forall|j: int| 0 <= j < k ==> (#[trigger] r@[j]).name@ == flag_name(j),
                forall|j: int| 0 <= j < k ==> (#[trigger] r@[j]).p1.is_none() && r@[j].p2.is_none(),
            decreases FLAG_PREDICATE_COUNT - k,
        {
            let (name, function) = flag_entry(k);
            r.push(Predicate::new(name, address, function, None, None));
            k = k + 1;
        }
        assert(tests(r@) =~= flag_tests(*trace_analyzer, address));
        r
    }

    /// At a block exit: successor-count predicates for counts above 0, 1
    /// and 2 and equal to 0, 1 and 2, then `has_edge_to` and then
    /// `edge_only_taken_to` for each successor. None elsewhere.
    pub fn gen_cfg_predicates(address: usize, cfg: &ControlFlowGraph) -> (r: Vec<Predicate>)
        ensures
            all_at(r@, address),
            !cfg.exit_addr_to_bb@.contains_key(address) ==> r@.len() == 0,
            tests(r@) == cfg_tests(*cfg, address),
            cfg.exit_addr_to_bb@.contains_key(address) ==> {
                let n = cfg.exit_addr_to_bb@[address].successors@.len();
                &&& r@.len() == 6 + 2 * n
                &&& forall|k: int| 0 <= k < 3 ==> (#[trigger] r@[k]).function == Classifier::NumSuccessorsGreater
                    && r@[k].p1 == Some(k as usize) && r@[k].name@ == "num_successors_greater"@ + seq![' '] + dec_seq(k as nat)
                &&& forall|k: int| 3 <= k < 6 ==> (#[trigger] r@[k]).function == Classifier::NumSuccessorsEqual
                    && r@[k].p1 == Some((k - 3) as usize) && r@[k].name@ == "num_successors_equal"@ + seq![' '] + dec_seq((k - 3) as nat)
                &&& forall|k: int| 6 <= k < 6 + n ==> (#[trigger] r@[k]).function == Classifier::HasEdgeTo
                    && r@[k].p1 == Some(cfg.exit_addr_to_bb@[address].successors@[k - 6])
                    && r@[k].name@ == hex_prefixed(address as nat) + " has_edge_to "@
                        + hex_prefixed(cfg.exit_addr_to_bb@[address].successors@[k - 6] as nat)
                &&& forall|k: int| 6 + n <= k < 6 + 2 * n ==> (#[trigger] r@[k]).function == Classifier::EdgeOnlyTakenTo
                    && r@[k].p1 == Some(cfg.exit_addr_to_bb@[address].successors@[k - 6 - n])
                    && r@[k].name@ == hex_prefixed(address as nat) + " edge_only_taken_to "@
                        + hex_prefixed(cfg.exit_addr_to_bb@[address].successors@[k - 6 - n] as nat)
            },
    {
        let mut ret: Vec<Predicate> = Vec::new();
        if !cfg.is_bb_end(address) {
            assert(tests(ret@) =~= cfg_tests(*cfg, address));
            return ret;
        }
        ret.push(PredicateBuilder::gen_all_edge_val_predicates(address, "num_successors_greater", 0, Classifier::NumSuccessorsGreater));
        ret.push(PredicateBuilder::gen_all_edge_val_predicates(address, "num_successors_greater", 1, Classifier::NumSuccessorsGreater));
        ret.push(PredicateBuilder::gen_all_edge_val_predicates(address, "num_successors_greater", 2, Classifier::NumSuccessorsGreater));
        ret.push(PredicateBuilder::gen_all_edge_val_predicates(address, "num_successors_equal", 0, Classifier::NumSuccessorsEqual));
        ret.push(PredicateBuilder::gen_all_edge_val_predicates(address, "num_successors_equal", 1, Classifier::NumSuccessorsEqual));
        ret.push(PredicateBuilder::gen_all_edge_val_predicates(address, "num_successors_equal", 2, Classifier::NumSuccessorsEqual));
        let mut taken = PredicateBuilder::gen_all_edge_from_to_predicates(address, cfg, "has_edge_to", Classifier::HasEdgeTo);
        let mut only = PredicateBuilder::gen_all_edge_from_to_predicates(address, cfg, "edge_only_taken_to", Classifier::EdgeOnlyTakenTo);
        let ghost head = ret@;
        let ghost t = taken@;
        let ghost o = only@;
        ret.append(&mut taken);
        ret.append(&mut only);
        assert(ret@ =~= head + t + o);
        proof {
            reveal_strlit("num_successors_greater");
            reveal_strlit("num_successors_equal");
            reveal_strlit("has_edge_to");
            reveal_strlit("edge_only_taken_to");
            reveal_strlit(" has_edge_to ");
            reveal_strlit(" edge_only_taken_to ");
            assert(tests(ret@) =~= cfg_tests(*cfg, address));
            assert forall|k: int| 6 <= k < ret@.len() implies
                (#[trigger] ret@[k]).name@ == if k < 6 + t.len() {
                    hex_prefixed(address as nat) + " has_edge_to "@ + hex_prefixed(cfg.exit_addr_to_bb@[address].successors@[k - 6] as nat)
                } else {
                    hex_prefixed(address as nat) + " edge_only_taken_to "@
                        + hex_prefixed(cfg.exit_addr_to_bb@[address].successors@[k - 6 - t.len()] as nat)
                } by {
                if k < 6 + t.len() {
                    assert(ret@[k] == t[k - 6]);
                    assert(" has_edge_to "@ =~= seq![' '] + "has_edge_to"@ + seq![' ']);
                    assert(t[k - 6].name@ =~= hex_prefixed(address as nat) + " has_edge_to "@
                        + hex_prefixed(cfg.exit_addr_to_bb@[address].successors@[k - 6] as nat));
                } else {
                    assert(ret@[k] == o[k - 6 - t.len()]);
                    assert(" edge_only_taken_to "@ =~= seq![' '] + "edge_only_taken_to"@ + seq![' ']);
                    assert(o[k - 6 - t.len()].name@ =~= hex_prefixed(address as nat) + " edge_only_taken_to "@
                        + hex_prefixed(cfg.exit_addr_to_bb@[address].successors@[k - 6 - t.len()] as nat));
                }
            }
        }
        ret
    }

    /// `S[reg] < value` for each eligible register, in register order.
    pub fn gen_all_reg_val_predicates(address: usize, trace_analyzer: &TraceAnalyzer, selector: &Selector, value: usize) -> (r: Vec<Predicate>)
        requires
            *selector == Selector::RegMin || *selector == Selector::RegMax,
        ensures
            all_at(r@, address),
            forall|i: int| 0 <= i < r@.len() ==> (#[trigger] r@[i]).function == selector_val_less_spec(*selector)
                && r@[i].p2 == Some(value) && r@[i].p1.is_some()
                && eligible_register(*trace_analyzer, address, r@[i].p1->0),
            forall|reg: usize| reg < REGISTER_COUNT && eligible_register(*trace_analyzer, address, reg)
                ==> exists|i: int| 0 <= i < r@.len() && (#[trigger] r@[i]).p1 == Some(reg),
            tests(r@) == reg_val_tests(*trace_analyzer, address, *selector, value, REGISTER_COUNT as int),
            forall|i: int| 0 <= i < r@.len() ==> (#[trigger] r@[i]).name@
                == reg_val_name(r@[i].p1, selector_less_name_spec(*selector), value as u64),
    {
        let mut r: Vec<Predicate> = Vec::new();
        let mut reg_index: usize = 0;
        assert(tests(r@) =~= reg_val_tests(*trace_analyzer, address, *selector, value, 0));
        while reg_index < REGISTER_COUNT
            invariant
                *selector == Selector::RegMin || *selector == Selector::RegMax,
                reg_index <= REGISTER_COUNT,
                all_at(r@, address),
                forall|i: int| 0 <= i < r@.len() ==> (#[trigger] r@[i]).function == selector_val_less_spec(*selector)
                    && r@[i].p2 == Some(value) && r@[i].p1.is_some()
                    && eligible_register(*trace_analyzer, address, r@[i].p1->0),
                forall|reg: usize| reg < reg_index && eligible_register(*trace_analyzer, address, reg)
                    ==> exists|i: int| 0 <= i < r@.len() && (#[trigger] r@[i]).p1 == Some(reg),
                tests(r@) == reg_val_tests(*trace_analyzer, address, *selector, value, reg_index as int),
                forall|i: int| 0 <= i < r@.len() ==> (#[trigger] r@[i]).name@
                    == reg_val_name(r@[i].p1, selector_less_name_spec(*selector), value as u64),
            decreases REGISTER_COUNT - reg_index,
        {
            if trace_analyzer.any_instruction_at_address_contains_reg(address, reg_index)
                && reg_index != RSP_INDEX && reg_index != EFLAGS_INDEX && reg_index != MEMORY_ADDRESS_INDEX
            {
                let name = gen_reg_val_name(Some(reg_index), selector_val_less_name(selector), value as u64);
                let ghost before = r@;
                let p = Predicate::new(name.as_str(), address, selector_val_less(selector), Some(reg_index), Some(value));
                r.push(p);
                proof {
                    lemma_tests_push(before, p);
                    assert(tests(r@) =~= reg_val_tests(*trace_analyzer, address, *selector, value, reg_index + 1));
                    assert forall|reg: usize| reg < reg_index + 1 && eligible_register(*trace_analyzer, address, reg)
                        implies exists|i: int| 0 <= i < r@.len() && (#[trigger] r@[i]).p1 == Some(reg) by {
                        if reg < reg_index {
                            let i = choose|i: int| 0 <= i < before.len() && (#[trigger] before[i]).p1 == Some(reg);
                            assert(r@[i] == before[i]);
                        } else {
                            assert(r@[r@.len() - 1].p1 == Some(reg_index));
                        }
                    }
                }
            } else {
                assert(tests(r@) =~= reg_val_tests(*trace_analyzer, address, *selector, value, reg_index + 1));
            }
            reg_index = reg_index + 1;
        }
        r
    }

    /// `max < v` and then `min < v` for v = 2^64-1, 2^32-1, 2^16-1 and 2^8-1.
    pub fn gen_register_predicates(address: usize, trace_analyzer: &TraceAnalyzer) -> (r: Vec<Predicate>)
        ensures
            all_at(r@, address),
            tests(r@) == fixed_tests(*trace_analyzer, address, 8),
    {
        let mut ret: Vec<Predicate> = Vec::new();
        let mut k: usize = 0;
        assert(tests(ret@) =~= fixed_tests(*trace_analyzer, address, 0));
        while k < 8
            invariant
                k <= 8,
                all_at(ret@, address),
                tests(ret@) == fixed_tests(*trace_analyzer, address, k as int),
            decreases 8 - k,
        {
            let selector = if k < 4 { Selector::RegMax } else { Selector::RegMin };
            let value: usize = match k % 4 {
                0 => usize::MAX,
                1 => 0xffff_ffff,
                2 => 0xffff,
                _ => 0xff,
            };
            assert(selector == fixed_selector(k as int) && value == fixed_value(k as int));
            let mut more = PredicateBuilder::gen_all_reg_val_predicates(address, trace_analyzer, &selector, value);
            let ghost before = ret@;
            let ghost mv = more@;
            ret.append(&mut more);
            proof {
                lemma_tests_append(before, mv);
                assert forall|i: int| 0 <= i < ret@.len() implies (#[trigger] ret@[i]).wf() && ret@[i].address == address by {
                    if i >= before.len() {
                        assert(ret@[i] == mv[i - before.len()]);
                    }
                }
            }
            k = k + 1;
        }
        ret
    }

    /// Every candidate at `address`: `is_visited`; unless the mnemonic
    /// skips them, the synthesized thresholds and the fixed register
    /// predicates; the block-exit predicates; the flag predicates whenever
    /// some trace records the flags there.
    pub fn gen_predicates(address: usize, trace_analyzer: &TraceAnalyzer) -> (r: Vec<Predicate>)
        requires
            trace_analyzer.wf(),
            trace_analyzer.scorable(),
            visited_by_any(trace_analyzer.crashes.0@, address) || visited_by_any(trace_analyzer.non_crashes.0@, address),
        ensures
            r@.len() >= 1,
            r@[0].function == Classifier::IsVisited,
            all_at(r@, address),
            tests(r@) == candidate_tests(*trace_analyzer, address),
    {
        let mnemonic = trace_analyzer.get_any_mnemonic(address);
        let skip = PredicateBuilder::skip_register_mnemonic(mnemonic.as_str());
        let mut ret = PredicateBuilder::gen_visited(address);
        let ghost visited = ret@;
        assert(tests(visited) =~= seq![(Classifier::IsVisited, None::<usize>, None::<usize>, address)]);
        let ghost mut registers = Seq::<Predicate>::empty();
        if !skip {
            let mut c = PredicateSynthesizer::constant_predicates_at_address(address, trace_analyzer);
            let ghost cv = c@;
            append_at(&mut ret, &mut c, address);
            let mut g = PredicateBuilder::gen_register_predicates(address, trace_analyzer);
            let ghost gv = g@;
            append_at(&mut ret, &mut g, address);
            proof {
                registers = cv + gv;
                lemma_tests_append(cv, gv);
                assert(ret@ =~= visited + registers);
            }
        } else {
            assert(ret@ =~= visited + registers);
        }
        let mut e = PredicateBuilder::gen_cfg_predicates(address, &trace_analyzer.cfg);
        let ghost ev = e@;
        append_at(&mut ret, &mut e, address);
        let mut f = PredicateBuilder::gen_flag_predicates(address, trace_analyzer);
        let ghost fv = f@;
        append_at(&mut ret, &mut f, address);
        proof {
            assert(ret@ =~= visited + registers + ev + fv);
            lemma_tests_append(visited, registers);
            lemma_tests_append(visited + registers, ev);
            lemma_tests_append(visited + registers + ev, fv);
            assert(tests(registers) =~= if skips_registers(any_mnemonic(*trace_analyzer, address)) {
                Seq::empty()
            } else {
                constant_tests(*trace_analyzer, address) + fixed_tests(*trace_analyzer, address, 8)
            });
            assert(tests(ret@) =~= candidate_tests(*trace_analyzer, address));
        }
        ret
    }

    pub fn skip_register_mnemonic(mnemonic: &str) -> (r: bool)
        ensures
            r == skips_registers(mnemonic@),
    {
        contains(mnemonic, "leave") || contains(mnemonic, "xmm")
            || (!contains(mnemonic, "[") && contains(mnemonic, "rsp"))
            || (contains(mnemonic, "mov") && contains(mnemonic, ", 0x"))
    }
}

fn append_at(ret: &mut Vec<Predicate>, more: &mut Vec<Predicate>, address: usize)
    requires
        all_at(old(ret)@, address),
        all_at(old(more)@, address),
    ensures
        final(ret)@ == old(ret)@ + old(more)@,
        all_at(final(ret)@, address),
{
    let ghost a = ret@;
    let ghost b = more@;
    ret.append(more);
    assert forall|i: int| 0 <= i < ret@.len() implies (#[trigger] ret@[i]).wf() && ret@[i].address == address by {
        if i < a.len() {
            assert(ret@[i] == a[i]);
        } else {
            assert(ret@[i] == b[i - a.len()]);
        }
    }
}

} // verus!

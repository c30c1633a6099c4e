use std::collections::HashMap;

use root_cause_analysis::control_flow_graph::CFGCollector;
use root_cause_analysis::predicate_analysis::PredicateAnalyzer;
use root_cause_analysis::predicate_builder::PredicateBuilder;
use root_cause_analysis::predicate_synthesizer::{gen_reg_val_name, PredicateSynthesizer};
use root_cause_analysis::predicates::{Classifier, Predicate, Score};
use root_cause_analysis::text::{dec_string, hex_padded_string, hex_string, parse_hex};
use root_cause_analysis::trace::{
    Memory, Register, Registers, Selector, SerializedEdge, SerializedInstruction, SerializedTrace, Trace, TraceVec,
};
use root_cause_analysis::trace_analyzer::{blacklist_path, MemoryAddresses, TraceAnalyzer};
use root_cause_analysis::trace_integrity::{IntegrityIssue, TraceIntegrityChecker};

fn regs(values: &[(usize, u64)]) -> Registers {
    let mut m = HashMap::new();
    for (i, v) in values {
        m.insert(*i, Register { value: *v });
    }
    Registers(m)
}

fn instr(address: usize, mnemonic: &str, min: &[(usize, u64)], max: &[(usize, u64)]) -> SerializedInstruction {
    SerializedInstruction {
        address,
        mnemonic: mnemonic.to_string(),
        registers_min: regs(min),
        registers_max: regs(max),
        registers_last: regs(&[]),
        last_successor: 0,
        count: 1,
        memory: None,
    }
}

fn trace(name: &str, instructions: Vec<SerializedInstruction>, edges: &[(usize, usize)]) -> Trace {
    let first = instructions.first().map(|i| i.address).unwrap_or(0);
    let last = instructions.last().map(|i| i.address).unwrap_or(0);
    SerializedTrace::to_trace(
        name.to_string(),
        SerializedTrace {
            instructions,
            edges: edges.iter().map(|(f, t)| SerializedEdge { from: *f, to: *t, count: 1 }).collect(),
            first_address: first,
            last_address: last,
            image_base: 0x400000,
        },
    )
}

fn bounds() -> MemoryAddresses {
    MemoryAddresses { heap_start: 0x1000_0000, heap_end: 0x2000_0000, stack_start: 0x7000_0000, stack_end: 0x8000_0000 }
}

fn analyzer(crashes: Vec<Trace>, non_crashes: Vec<Trace>) -> TraceAnalyzer {
    TraceAnalyzer::new(TraceVec::from_vec(crashes), TraceVec::from_vec(non_crashes), bounds())
}

fn is_one(s: Score) -> bool {
    s.num == s.den
}

#[test]
fn visited_only_scores_one() {
    let crashes = vec![
        trace("c1", vec![instr(0x401000, "nop", &[], &[])], &[]),
        trace("c2", vec![instr(0x401000, "nop", &[], &[])], &[]),
    ];
    let non_crashes = vec![
        trace("n1", vec![instr(0x400000, "nop", &[], &[])], &[]),
        trace("n2", vec![instr(0x400000, "nop", &[], &[])], &[]),
    ];
    let t = analyzer(crashes, non_crashes);
    let best = PredicateAnalyzer::evaluate_best_predicate_at_address(0x401000, &t);
    assert_eq!(best.name, "is_visited");
    assert!(is_one(best.score));
}

#[test]
fn is_visited_score_formula() {
    let crashes = vec![
        trace("c1", vec![instr(0x10, "nop", &[], &[])], &[]),
        trace("c2", vec![instr(0x10, "nop", &[], &[])], &[]),
    ];
    let non_crashes = vec![
        trace("n1", vec![instr(0x10, "nop", &[], &[])], &[]),
        trace("n2", vec![instr(0x20, "nop", &[], &[])], &[]),
    ];
    let t = analyzer(crashes, non_crashes);
    let p = Predicate::new("is_visited", 0x10, Classifier::IsVisited, None, None);
    let scored = PredicateAnalyzer::evaluate_predicate(&t, &p);
    assert_eq!(scored.score, Score { num: 6, den: 8 });
}

fn register_traces() -> TraceAnalyzer {
    let at = 0x40110a;
    let c = |v: u64| instr(at, "add rax, rbx", &[(0, v)], &[(0, v)]);
    analyzer(
        vec![trace("c1", vec![c(0x40)], &[]), trace("c2", vec![c(0x41)], &[])],
        vec![trace("n1", vec![c(0x10)], &[]), trace("n2", vec![c(0x11)], &[])],
    )
}

#[test]
fn register_threshold_is_synthesized_mid_gap() {
    let t = register_traces();
    let found = PredicateSynthesizer::synthesize_constant_predicates(0x40110a, &t, &Selector::RegMax, 0);
    assert_eq!(found.len(), 2);
    assert_eq!(found[0].name, "rax max_reg_val_greater_or_equal 0x29");
    assert_eq!(found[1].name, "rax max_reg_val_less 0x10");
    let ge = PredicateAnalyzer::evaluate_predicate(&t, &found[0]);
    assert!(is_one(ge.score));
}

#[test]
fn complementary_predicates_scores_add_to_one() {
    let t = register_traces();
    let less = Predicate::new("less", 0x40110a, Classifier::MaxRegValLess, Some(0), Some(0x29));
    let ge = Predicate::new("ge", 0x40110a, Classifier::MaxRegValGreaterOrEqual, Some(0), Some(0x29));
    let a = PredicateAnalyzer::evaluate_predicate(&t, &less).score;
    let b = PredicateAnalyzer::evaluate_predicate(&t, &ge).score;
    assert_eq!(a.den, b.den);
    assert_eq!(a.num + b.num, a.den);
}

#[test]
fn mean_lies_between_observed_values() {
    let values = vec![0x10, 0x11, 0x40, 0x41];
    assert_eq!(PredicateSynthesizer::arithmetic_mean(0x40, &values), 0x29);
    assert_eq!(PredicateSynthesizer::arithmetic_mean(0x10, &values), 0x10);
    assert_eq!(PredicateSynthesizer::arithmetic_mean(u64::MAX, &vec![0]), 0x8000_0000_0000_0000);
}

#[test]
fn edge_taken_scores_one() {
    let crash = trace(
        "c",
        vec![instr(0x401200, "nop", &[], &[]), instr(0x40120a, "jz", &[], &[]), instr(0x401300, "nop", &[], &[])],
        &[(0x401200, 0x40120a), (0x40120a, 0x401300)],
    );
    let non = trace(
        "n",
        vec![instr(0x401200, "nop", &[], &[]), instr(0x40120a, "jz", &[], &[]), instr(0x401400, "nop", &[], &[])],
        &[(0x401200, 0x40120a), (0x40120a, 0x401400)],
    );
    let mut t = analyzer(vec![crash], vec![non]);
    assert!(t.fill_cfg());
    let mut keys = t.cfg.keys();
    keys.sort();
    assert_eq!(keys, vec![0x401200, 0x40120a, 0x401300, 0x401400]);
    assert!(t.cfg.is_bb_end(0x40120a));
    assert!(!t.cfg.is_bb_end(0x401200));
    let preds = PredicateBuilder::gen_cfg_predicates(0x40120a, &t.cfg);
    assert_eq!(preds.len(), 6 + 2 * 2);
    let edge = preds.iter().find(|p| p.name == "0x40120a has_edge_to 0x401300").unwrap();
    let scored = PredicateAnalyzer::evaluate_predicate(&t, edge);
    assert!(is_one(scored.score));
    assert_eq!(preds[0].name, "num_successors_greater 0");
}

#[test]
fn cfg_needs_a_single_head() {
    let a = trace("a", vec![instr(1, "nop", &[], &[]), instr(2, "nop", &[], &[])], &[(1, 2)]);
    let b = trace("b", vec![instr(5, "nop", &[], &[]), instr(6, "nop", &[], &[])], &[(5, 6)]);
    let mut t = analyzer(vec![a], vec![b]);
    assert!(!t.fill_cfg());
    let mut c = CFGCollector::new();
    c.add_edge(1, 2);
    c.add_edge(2, 3);
    c.add_edge(2, 4);
    assert_eq!(c.heads(), vec![1]);
    let mut order = c.dfs(1);
    order.sort();
    assert_eq!(order, vec![1, 2, 3, 4]);
    let cfg = c.construct_graph().unwrap();
    assert_eq!(cfg.get_instruction_successors(2).len(), 2);
    assert_eq!(cfg.heads(), vec![1]);
    assert_eq!(cfg.to_dot().lines().count(), 4);
    assert_eq!(cfg.bbs().len(), 3);
    assert_eq!(c.dfs(1)[0], 1);
}

#[test]
fn zero_flag_scores_one() {
    let at = 0x40130a;
    let crash = trace("c", vec![instr(at, "cmp rax, rbx", &[(22, 0x46)], &[(22, 0x46)])], &[]);
    let non = trace("n", vec![instr(at, "cmp rax, rbx", &[(22, 0x02)], &[(22, 0x46)])], &[]);
    let t = analyzer(vec![crash], vec![non]);
    let flags = PredicateBuilder::gen_flag_predicates(at, &t);
    assert_eq!(flags.len(), 18);
    assert_eq!(flags[3].name, "min_zero_flag_set");
    assert!(is_one(PredicateAnalyzer::evaluate_predicate(&t, &flags[3]).score));
    assert!(!is_one(PredicateAnalyzer::evaluate_predicate(&t, &flags[12]).score));
}

#[test]
fn evaluation_is_repeatable() {
    let t = register_traces();
    let p = Predicate::new("x", 0x40110a, Classifier::MinRegValLess, Some(0), Some(0x30));
    let a = PredicateAnalyzer::evaluate_predicate(&t, &p).score;
    let b = PredicateAnalyzer::evaluate_predicate(&t, &p).score;
    assert_eq!(a, b);
}

#[test]
fn scores_above_threshold_are_exported() {
    let crashes = vec![trace("c", vec![instr(0x10, "nop", &[], &[])], &[])];
    let non_crashes = vec![trace("n", vec![instr(0x10, "nop", &[], &[]), instr(0x20, "nop", &[], &[])], &[])];
    let mut t = analyzer(crashes, non_crashes);
    assert!(t.is_scorable());
    t.fill_address_scores();
    assert_eq!(t.address_scores.len(), 2);
    assert_eq!(t.address_scores[0].address, 0x10);
    assert_eq!(t.address_scores[1].address, 0x20);
    assert!(t.get_predicates_better_than(9, 10).is_empty());
    assert_eq!(t.get_predicates_better_than(1, 10).len(), 1);
    assert_eq!(t.sort_scores().len(), 2);
}

#[test]
fn min_above_max_is_flagged() {
    let bad = trace("c", vec![instr(0x10, "nop", &[(3, 5)], &[(3, 3)])], &[]);
    let good = trace("n", vec![instr(0x10, "nop", &[(3, 3)], &[(3, 5)])], &[]);
    let t = analyzer(vec![bad], vec![good]);
    let issues = TraceIntegrityChecker::compare_reg_min_last_max(&t);
    assert_eq!(issues, vec![IntegrityIssue::MinAboveMax { address: 0x10, register: 3 }]);
}

#[test]
fn memory_extrema_fill_the_synthetic_registers() {
    let mut i = instr(0x10, "mov [rax], rbx", &[], &[]);
    i.memory = Some(Memory { min_address: 1, max_address: 2, last_address: 3, min_value: 4, max_value: 5, last_value: 6 });
    let x = i.to_instruction();
    assert_eq!(x.registers_min.get(23).unwrap().value, 1);
    assert_eq!(x.registers_max.get(24).unwrap().value, 5);
    assert_eq!(x.registers_min.keys(), vec![23, 24]);
    assert_eq!(x.registers_min.values(), vec![Register { value: 1 }, Register { value: 4 }]);
}

#[test]
fn successors_are_sorted() {
    let t = trace("t", vec![instr(1, "jmp", &[], &[])], &[(1, 9), (1, 4), (1, 7), (1, 9), (8, 2)]);
    let got: Vec<usize> = t.instructions[&1].successors.iter().map(|s| s.address).collect();
    assert_eq!(got, vec![4, 7, 9]);
    assert_eq!(t.visited_addresses(), vec![1]);
    let tv = TraceVec::from_vec(vec![t]);
    assert_eq!(tv.iter_instructions_at_address(1).len(), 1);
    assert_eq!(tv.iter_all_instructions().len(), 1);
    assert_eq!(tv.iter().len(), 1);
}

#[test]
fn names_and_numbers() {
    assert_eq!(gen_reg_val_name(Some(0), "max_reg_val_less".to_string(), 0xff), "rax max_reg_val_less 0xff");
    assert_eq!(gen_reg_val_name(None, "ins_count_less".to_string(), 12), "ins_count_less 12");
    assert_eq!(hex_string(0), "0");
    assert_eq!(hex_string(0xdead), "dead");
    assert_eq!(dec_string(1907), "1907");
    assert_eq!(hex_padded_string(0x401000), "0x0000000000401000");
    assert_eq!(parse_hex("0x401000"), Some(0x401000));
    assert_eq!(parse_hex("ff"), Some(0xff));
    assert_eq!(parse_hex("0xfffffffffffffffff"), None);
    assert_eq!(parse_hex("0xzz"), None);
    assert!(PredicateBuilder::skip_register_mnemonic("leave"));
    assert!(PredicateBuilder::skip_register_mnemonic("mov eax, 0x10"));
    assert!(PredicateBuilder::skip_register_mnemonic("sub rsp, 8"));
    assert!(!PredicateBuilder::skip_register_mnemonic("mov [rsp+8], rax"));
}

#[test]
fn blacklist_matches_substrings() {
    let list = Some(vec!["id:000001".to_string()]);
    assert!(blacklist_path(&"/traces/id:000001,sig:11".to_string(), &list));
    assert!(!blacklist_path(&"/traces/id:000002".to_string(), &list));
    assert!(!blacklist_path(&"/traces/id:000002".to_string(), &None));
}

#[test]
fn instruction_findings() {
    let mut issues = Vec::new();
    let empty = instr(0x10, "", &[], &[]).to_instruction();
    TraceIntegrityChecker::check_instruction(&empty, &mut issues);
    assert_eq!(issues, vec![IntegrityIssue::EmptyMnemonic { address: 0x10 }]);
    let mut issues = Vec::new();
    let write = instr(0x20, "mov qword ptr [rax], rbx", &[(23, 1)], &[(23, 1)]).to_instruction();
    TraceIntegrityChecker::check_instruction(&write, &mut issues);
    assert_eq!(issues, vec![IntegrityIssue::UntrackedMemoryWrite { address: 0x20, register: 24 }]);
    let t = analyzer(vec![], vec![]);
    assert_eq!(TraceIntegrityChecker::check_cfg(&t)[0], IntegrityIssue::CfgEmpty);
}

#[test]
fn trace_and_memory_text() {
    let t = trace("t", vec![instr(0x10, "nop", &[(0, 1)], &[(0, 2)])], &[(0x10, 0x20)]);
    assert_eq!(t.to_string(), "t;0x0000000000400000;0x0000000000000010;0x0000000000000010");
    assert_eq!(
        t.instructions[&0x10].to_string(),
        "0x0000000000000010;nop;rax: 0x0000000000000001;rax: 0x0000000000000002;successor: 0x0000000000000020;"
    );
    let m = Memory { min_address: 1, max_address: 2, last_address: 3, min_value: 4, max_value: 5, last_value: 6 };
    assert_eq!(
        m.to_string(),
        "memory: 0x0000000000000001;0x0000000000000002;0x0000000000000003;0x0000000000000004;0x0000000000000002;0x0000000000000006"
    );
}

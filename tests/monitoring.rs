use root_cause_analysis::monitor::{convert_predicates, MonitorState, Resume, RootCauseCandidate};
use root_cause_analysis::monitor_predicate::{
    convert_predicate, ConversionError, DecodedInstruction, DecodedOperand, EdgePredicate, EdgeTransition,
    MemoryLocation, Predicate, ValueDestination, Compare, ZERO_FLAG,
};
use root_cause_analysis::predicates::{Score, SerializedPredicate};
use root_cause_analysis::rankings::{order_predicates, path_rank, rank_path_level, PATH_RANK_SCALE};
use root_cause_analysis::register::{Register, Register64, UserRegs};

fn decoded() -> DecodedInstruction {
    DecodedInstruction {
        operand_width: 32,
        operands: vec![
            DecodedOperand { memory: None },
            DecodedOperand {
                memory: Some(MemoryLocation {
                    segment: None,
                    base: Some(Register::Register64(Register64::Rbp)),
                    index: None,
                    scale: 0,
                    displacement: Some(-8),
                }),
            },
        ],
    }
}

#[test]
fn lowering_predicate_names() {
    let d = decoded();
    assert_eq!(convert_predicate("is_visited", &d), Ok(Some(Predicate::Visited)));
    assert_eq!(
        convert_predicate("0x40120a has_edge_to 0x401300", &d),
        Ok(Some(Predicate::Edge(EdgePredicate { source: 0x40120a, transition: EdgeTransition::Taken, destination: 0x401300 })))
    );
    assert_eq!(convert_predicate("0x1 last_edge_to 0x2", &d), Ok(None));
    assert_eq!(convert_predicate("min_zero_flag_set", &d), Ok(Some(Predicate::FlagSet(ZERO_FLAG))));
    assert_eq!(convert_predicate("last_zero_flag_set", &d), Ok(None));
    assert_eq!(convert_predicate("num_successors_greater 1", &d), Ok(None));
    assert_eq!(convert_predicate("seg_cs max_reg_val_less 0x10", &d), Ok(None));
    match convert_predicate("rax max_reg_val_less 0x10", &d) {
        Ok(Some(Predicate::Compare(c))) => {
            assert_eq!(c.destination, ValueDestination::Register(Register::Register64(Register64::Rax)));
            assert_eq!(c.compare, Compare::Less);
            assert_eq!(c.value, 0x10);
        }
        other => panic!("unexpected {:?}", other),
    }
    match convert_predicate("memory_value min_reg_val_greater_or_equal 0x7", &d) {
        Ok(Some(Predicate::Compare(c))) => {
            assert!(matches!(c.destination, ValueDestination::Memory(32, _)));
            assert_eq!(c.compare, Compare::GreaterOrEqual);
        }
        other => panic!("unexpected {:?}", other),
    }
    assert_eq!(convert_predicate("a b c d", &d), Err(ConversionError::TooManyParts));
    assert_eq!(convert_predicate("bogus", &d), Ok(None));
    assert_eq!(convert_predicate("x", &d), Ok(None));
    assert_eq!(convert_predicate("xyz max_reg_val_less 0x10", &d), Err(ConversionError::UnknownRegister));
    assert_eq!(convert_predicate("rax max_reg_val_less zz", &d), Err(ConversionError::BadNumber));
    assert_eq!(convert_predicate("rax max_reg_val_less", &d), Ok(None));
    assert_eq!(convert_predicate("max_reg_val_less 0x10", &d), Err(ConversionError::MissingPart));
    let plain = DecodedInstruction { operand_width: 64, operands: vec![] };
    assert_eq!(convert_predicate("memory_address max_reg_val_less 0x1", &plain), Err(ConversionError::NoMemoryOperand));
}

fn regs(rip: u64, eflags: u64) -> UserRegs {
    UserRegs { rip, eflags, ..UserRegs::default() }
}

#[test]
fn single_step_fires_once_and_disarms() {
    let candidate = RootCauseCandidate { address: 0x1000, score: Score { num: 1, den: 1 }, predicate: Predicate::FlagSet(ZERO_FLAG) };
    let mut state = MonitorState::new(vec![candidate]);
    let hit = state.on_stop(7, &regs(0x1000, 0), None);
    assert_eq!(hit.resume, Resume::Step);
    assert_eq!(hit.remove_breakpoint, None);
    let stepped = state.on_stop(7, &regs(0x1003, 0x46), None);
    assert_eq!(stepped.remove_breakpoint, Some(0x1000));
    assert_eq!(stepped.resume, Resume::Continue);
    let again = state.on_stop(7, &regs(0x1000, 0x46), None);
    assert_eq!(again.resume, Resume::Continue);
    assert_eq!(state.ranking(), vec![0x1000]);
}

#[test]
fn unsatisfied_predicate_stays_armed() {
    let candidate = RootCauseCandidate { address: 0x1000, score: Score { num: 1, den: 1 }, predicate: Predicate::FlagSet(ZERO_FLAG) };
    let mut state = MonitorState::new(vec![candidate]);
    state.on_stop(7, &regs(0x1000, 0), None);
    let stepped = state.on_stop(7, &regs(0x1003, 0), None);
    assert_eq!(stepped.remove_breakpoint, None);
    assert!(state.ranking().is_empty());
    assert_eq!(state.candidates.len(), 1);
}

#[test]
fn memory_value_is_masked_by_one_shifted_width() {
    let m = MemoryLocation { segment: None, base: Some(Register::Register64(Register64::Rbp)), index: None, scale: 0, displacement: Some(-8) };
    let c = RootCauseCandidate {
        address: 0x1000,
        score: Score { num: 1, den: 1 },
        predicate: Predicate::Compare(root_cause_analysis::monitor_predicate::ComparePredicate {
            destination: ValueDestination::Memory(4, m),
            compare: Compare::Equal,
            value: 0x10,
        }),
    };
    let old = UserRegs { rbp: 0x7000, ..UserRegs::default() };
    assert_eq!(c.memory_read_address(&old), Some(0x6ff8));
    assert!(c.satisfied(&old, &old, Some(0xff)));
    assert!(!c.satisfied(&old, &old, Some(0xef)));
    assert!(!c.satisfied(&old, &old, None));
}

#[test]
fn candidates_skip_undecoded_and_unsupported() {
    let sp = |name: &str, address: usize| SerializedPredicate { name: name.to_string(), score: Score { num: 1, den: 1 }, address };
    let input = vec![
        (sp("is_visited", 1), Some(decoded())),
        (sp("is_visited", 2), None),
        (sp("last_zero_flag_set", 3), Some(decoded())),
        (sp("x", 4), Some(decoded())),
        (sp("rax max_reg_val_less zz", 5), Some(decoded())),
        (sp("min_zero_flag_set", 6), Some(decoded())),
    ];
    let c = convert_predicates(&input);
    assert_eq!(c.len(), 2);
    assert_eq!(c[0].address, 1);
    assert_eq!(c[1].address, 6);
}

#[test]
fn ranking_orders_by_score_then_path_rank() {
    let sp = |name: &str, address: usize, num: u64| SerializedPredicate { name: name.to_string(), score: Score { num, den: 10 }, address };
    let rankings = vec![vec![3, 2, 1], vec![2, 3]];
    assert_eq!(rank_path_level(2, &rankings[0]), PATH_RANK_SCALE / 3);
    assert_eq!(rank_path_level(1, &rankings[1]), 2 * PATH_RANK_SCALE);
    assert!(path_rank(3, &rankings) < path_rank(1, &rankings));
    let input = || vec![sp("a", 1, 9), sp("b", 2, 10), sp("c", 3, 9), sp("d", 4, 9)];
    let first = order_predicates(input(), &rankings);
    let names: Vec<&str> = first.iter().map(|p| p.name.as_str()).collect();
    assert_eq!(names, vec!["b", "c", "a", "d"]);
    let second = order_predicates(input(), &rankings);
    assert_eq!(first.len(), second.len());
    for (x, y) in first.iter().zip(second.iter()) {
        assert_eq!(x.name, y.name);
        assert_eq!(x.address, y.address);
    }
}

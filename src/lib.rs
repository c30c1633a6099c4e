//! Statistical root-cause analysis of crashing programs: trace summaries,
//! the control-flow graph built from them, predicate synthesis and scoring,
//! live predicate monitoring decisions and the combined ranking.
pub mod text;
pub mod trace;
pub mod predicates;
pub mod control_flow_graph;
pub mod trace_analyzer;
pub mod predicate_analysis;
pub mod predicate_builder;
pub mod predicate_synthesizer;
pub mod register;
pub mod assembler;
pub mod monitor_predicate;
pub mod monitor;
pub mod rankings;
pub mod trace_integrity;
pub mod config;
pub mod trace_config;

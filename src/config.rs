//! Settings of a root-cause analysis run.
use vstd::prelude::*;

verus! {

/// Settings of a root-cause analysis run.
#[derive(Debug)]
pub struct Config {
    /// Trace directory (empty: skip the analysis).
    pub trace_dir: String,
    /// Evaluation directory.
    pub eval_dir: String,
    /// Rank the predicates.
    pub rank_predicates: bool,
    /// Monitor the predicates.
    pub monitor_predicates: bool,
    /// Seconds each monitored run may take.
    pub monitor_timeout: u64,
    /// Crash blacklist file (empty: none).
    pub crash_blacklist_path: String,
    /// Map the seed dump instead of the ranked predicates to source lines.
    pub debug_trace: bool,
    /// Load offset of the target.
    pub load_offset: usize,
}

impl Config {
    /// Whether traces are analyzed.
    pub fn analyze_traces(&self) -> (r: bool)
        ensures
            r == (self.trace_dir@.len() > 0),
    {
        !self.trace_dir.as_str().is_empty()
    }

    /// Whether an evaluation directory is given.
    pub fn monitor_predicates(&self) -> (r: bool)
        ensures
            r == (self.eval_dir@.len() > 0),
    {
        !self.eval_dir.as_str().is_empty()
    }

    /// Whether a crash blacklist is given.
    pub fn blacklist_crashes(&self) -> (r: bool)
        ensures
            r == (self.crash_blacklist_path@.len() > 0),
    {
        !self.crash_blacklist_path.as_str().is_empty()
    }
}

} // verus!

//! Settings of a trace analysis run.
use vstd::prelude::*;
use crate::text::{push_str};

verus! {

/// Settings of a trace analysis run.
#[derive(Debug)]
pub struct Config {
    /// Directory of the crash traces.
    pub path_to_crashes: String,
    /// Directory of the non-crash traces.
    pub path_to_non_crashes: String,
    /// Run the integrity checks and stop.
    pub check_traces: bool,
    /// Dump trace data.
    pub dump_traces: bool,
    /// Dump instruction scores.
    pub dump_scores: bool,
    /// Trace files are zip archives.
    pub zipped: bool,
    /// Dump the traces at this address (0: none).
    pub dump_address: usize,
    /// Pick this many random traces (0: all).
    pub random_traces: usize,
    /// Keep only non-crashes that visit a crash's last address.
    pub filter_non_crashes: bool,
    /// Dump trace information.
    pub trace_info: bool,
    /// Output directory.
    pub output_directory: String,
    /// Crash blacklist file (empty: none).
    pub crash_blacklist_path: String,
    /// Dump the best predicate at this address (0: none).
    pub predicate_address: usize,
}

impl Config {
    /// The settings used by the root-cause pipeline: zipped traces under
    /// `trace_dir/traces/{crashes,non_crashes}/`, scores dumped.
    pub fn default(trace_dir: &String, output_dir: &Option<String>, crash_blacklist_path: &Option<String>) -> (r: Config)
        ensures
            r.path_to_crashes@ == trace_dir@ + "/traces/crashes/"@,
            r.path_to_non_crashes@ == trace_dir@ + "/traces/non_crashes/"@,
            r.output_directory@ == match output_dir {
                Some(d) => d@,
                None => "./"@,
            },
            r.crash_blacklist_path@ == match crash_blacklist_path {
                Some(p) => p@,
                None => ""@,
            },
            !r.check_traces && !r.dump_traces && r.dump_scores && r.zipped,
            r.dump_address == 0 && r.random_traces == 0 && r.predicate_address == 0,
            !r.filter_non_crashes && !r.trace_info,
    {
        let mut path_to_crashes = trace_dir.clone();
        push_str(&mut path_to_crashes, "/traces/crashes/");
        let mut path_to_non_crashes = trace_dir.clone();
        push_str(&mut path_to_non_crashes, "/traces/non_crashes/");
        let output_directory = match output_dir {
            Some(d) => d.clone(),
            None => String::from_str("./"),
        };
        let blacklist = match crash_blacklist_path {
            Some(p) => p.clone(),
            None => String::from_str(""),
        };
        Config {
            path_to_crashes,
            path_to_non_crashes,
            check_traces: false,
            dump_traces: false,
            dump_scores: true,
            zipped: true,
            dump_address: 0,
            random_traces: 0,
            filter_non_crashes: false,
            trace_info: false,
            output_directory,
            crash_blacklist_path: blacklist,
            predicate_address: 0,
        }
    }

    /// Whether a random subset of the traces is used.
    pub fn random_traces(&self) -> (r: bool)
        ensures
            r == (self.random_traces > 0),
    {
        self.random_traces > 0
    }

    /// Whether traces are dumped at an address.
    pub fn dump_address(&self) -> (r: bool)
        ensures
            r == (self.dump_address > 0),
    {
        self.dump_address > 0
    }

    /// Whether a crash blacklist is given.
    pub fn blacklist_crashes(&self) -> (r: bool)
        ensures
            r == (self.crash_blacklist_path@.len() > 0),
    {
        !self.crash_blacklist_path.as_str().is_empty()
    }

    /// Whether the best predicate at an address is dumped.
    pub fn debug_predicate(&self) -> (r: bool)
        ensures
            r == (self.predicate_address > 0),
    {
        self.predicate_address > 0
    }
}

} // verus!

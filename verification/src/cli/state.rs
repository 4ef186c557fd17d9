//! The pipeline's state records: the last successful update and the report
//! of each run.
use vstd::prelude::*;

verus! {

/// What the pipeline remembers between runs.
#[derive(Debug, Clone)]
pub struct LatestState {
    pub version: u32,
    pub latest_successful_update_date: Option<String>,
    pub last_run_at: Option<String>,
    pub last_run_status: Option<String>,
    /// Number of laws deployed by the last successful run: the baseline of
    /// the guard against a catastrophic shrink.
    pub law_count: Option<usize>,
}

impl Default for LatestState {
    /// Version 1, nothing recorded yet.
    fn default() -> (s: Self)
        ensures
            s.version == 1,
            s.latest_successful_update_date is None,
            s.last_run_at is None,
            s.last_run_status is None,
            s.law_count is None,
    {
        LatestState {
            version: 1,
            latest_successful_update_date: None,
            last_run_at: None,
            last_run_status: None,
            law_count: None,
        }
    }
}

/// The outcome of one update run.
#[derive(Debug, Clone)]
pub struct RunReport {
    pub version: u32,
    pub ran_at: String,
    pub provider: String,
    pub dates: Vec<String>,
    pub new_xmls: usize,
    pub errors: Vec<String>,
    /// Whether the public tree was regenerated.
    pub changed: bool,
}

} // verus!

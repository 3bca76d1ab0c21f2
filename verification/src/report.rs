//! What `inspect` reports of a repository.
use vstd::prelude::*;

verus! {

/// How well a compositor is supported.
#[derive(Debug, Clone, Copy, PartialEq, Eq, Structural)]
pub enum SupportTier {
    Experimental,
    Tier1,
    Tier2,
    Tier3,
}

/// The support states that `inspect` reports.
#[derive(Debug, Clone, Copy, PartialEq, Eq, Structural)]
pub struct SupportReport {
    pub buildable: bool,
    pub upstream_tests_pass: bool,
    pub conformance_pass: bool,
    pub fullscreen_run_pass: bool,
    pub tier: SupportTier,
}

impl SupportReport {
    /// The report of a repository of which nothing is known yet.
    pub fn inspect_defaults() -> (r: Self)
        ensures
            !r.buildable,
            !r.upstream_tests_pass,
            !r.conformance_pass,
            !r.fullscreen_run_pass,
            r.tier == SupportTier::Experimental,
    {
        SupportReport {
            buildable: false,
            upstream_tests_pass: false,
            conformance_pass: false,
            fullscreen_run_pass: false,
            tier: SupportTier::Experimental,
        }
    }
}

/// The outcome of one recorded action (`build`, `test`, `conformance`, `run`, ...).
#[derive(Debug, Clone, PartialEq, Eq)]
pub struct ActionRecord {
    pub action: String,
    pub success: bool,
    pub command: Vec<String>,
}

} // verus!

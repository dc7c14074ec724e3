use vstd::prelude::*;

verus! {

/// What a failure on one entry does to the analysis.
#[derive(Debug, Clone, Copy, PartialEq, Eq, Structural)]
pub enum AnalysisErrorStrategy {
    /// Leave the entry out, report the failure, and go on.
    ContinueAndCollect,
    /// End the analysis with the failure.
    AbortOnError,
}

impl Default for AnalysisErrorStrategy {
    fn default() -> (r: Self)
        ensures
            r == AnalysisErrorStrategy::ContinueAndCollect,
    {
        AnalysisErrorStrategy::ContinueAndCollect
    }
}

} // verus!

use vstd::prelude::*;
use vstd::string::*;

use super::checker::CheckResult;
use super::runner::WorkloadShape;
use crate::os_text;

verus! {

/// What is known of the file systems of a run.
#[derive(Debug, Clone, Copy, PartialEq, Eq, Structural)]
pub struct Environment {
    pub source_case_insensitive: bool,
    pub dest_case_insensitive: bool,
    pub dest_windows_naming_rules: bool,
}

/// One planted fault of one run, with all that is known of the run.
#[derive(Debug)]
pub struct CorpusRow {
    pub os: &'static str,
    pub env: Environment,
    pub shape: Option<WorkloadShape>,
    pub relative_path: String,
    pub injected_fault: &'static str,
    pub observed_error: Option<&'static str>,
    pub passed: bool,
    /// How long the whole run took.
    pub run_duration_ms: u128,
}

/// Whether `row` holds `result` and the run that it comes from.
pub open spec fn is_row_of(
    row: CorpusRow,
    os: &'static str,
    env: Environment,
    shape: Option<WorkloadShape>,
    run_duration_ms: u128,
    result: CheckResult,
) -> bool {
    &&& row.os@ == os@
    &&& row.env == env
    &&& row.shape == shape
    &&& row.relative_path@ == os_text::shown_text(result.relative_path.text@)
    &&& row.injected_fault == result.expected
    &&& row.observed_error == result.observed
    &&& row.passed == result.passed
    &&& row.run_duration_ms == run_duration_ms
}

/// One row for each result of a run.
pub fn rows(
    os: &'static str,
    env: &Environment,
    shape: Option<WorkloadShape>,
    run_duration_ms: u128,
    results: &Vec<CheckResult>,
) -> (r: Vec<CorpusRow>)
    ensures
        r@.len() == results@.len(),
        forall|i: int|
            0 <= i < r@.len() ==> is_row_of(
                #[trigger] r@[i],
                os,
                *env,
                shape,
                run_duration_ms,
                results@[i],
            ),
{
    let mut out: Vec<CorpusRow> = Vec::with_capacity(results.len());
    let mut i: usize = 0;
    while i < results.len()
        invariant
            i <= results@.len(),
            out@.len() == i,
            forall|j: int|
                0 <= j < i ==> is_row_of(
                    #[trigger] out@[j],
                    os,
                    *env,
                    shape,
                    run_duration_ms,
                    results@[j],
                ),
        decreases results@.len() - i,
    {
        let result = &results[i];
        out.push(
            CorpusRow {
                os,
                env: *env,
                shape,
                relative_path: result.relative_path.shown(),
                injected_fault: result.expected,
                observed_error: result.observed,
                passed: result.passed,
                run_duration_ms,
            },
        );
        i = i + 1;
    }
    out
}

} // verus!

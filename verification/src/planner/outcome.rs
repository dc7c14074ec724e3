use vstd::prelude::*;

use super::config::ErrorStrategy;
use crate::error;
use crate::error::Error;
use crate::paths::FilePath;
use crate::profiler::{Entry, Span};

verus! {

/// Why an operation ended before all of its work was done.
#[derive(Debug, Clone, Copy, PartialEq, Eq, Structural)]
#[non_exhaustive]
pub enum StopReason {
    Fatal,
    AbortOnError,
    Cancelled,
    Undo,
}

/// What became of the entries of an operation.
#[derive(Debug)]
#[non_exhaustive]
pub struct OperationOutcome {
    pub succeeded: Vec<Entry>,
    /// Entries whose destination already held the same content: nothing was written.
    pub skipped: Vec<Entry>,
    pub failed: Vec<(Entry, Error)>,
    /// Entries of a move whose content is at the destination, but whose source could not be
    /// removed.
    pub cleanup_failed: Vec<(Entry, Error)>,
    pub stopped_early: Option<StopReason>,
    pub directories_failed: Vec<(FilePath, Error)>,
    /// Whole sources of a move of several that failed before any of their files was
    /// known.
    pub sources_failed: Vec<(FilePath, Error)>,
    pub duration: Span,
}

impl OperationOutcome {
    /// Whether nothing is reported at all.
    pub open spec fn is_blank(self) -> bool {
        &&& self.succeeded@.len() == 0
        &&& self.skipped@.len() == 0
        &&& self.failed@.len() == 0
        &&& self.cleanup_failed@.len() == 0
        &&& self.stopped_early is None
        &&& self.directories_failed@.len() == 0
        &&& self.sources_failed@.len() == 0
        &&& self.duration.length() == 0
    }
}

impl Default for OperationOutcome {
    fn default() -> (r: Self)
        ensures
            r.is_blank(),
    {
        OperationOutcome {
            succeeded: Vec::new(),
            skipped: Vec::new(),
            failed: Vec::new(),
            cleanup_failed: Vec::new(),
            stopped_early: None,
            directories_failed: Vec::new(),
            sources_failed: Vec::new(),
            duration: Span { secs: 0, nanos: 0 },
        }
    }
}

/// Why a failure stops the operation, or `None` where it goes on: a fatal error
/// stops it in any case, any other error as the strategy says.
pub open spec fn reason_for(strategy: ErrorStrategy, error: Error) -> Option<StopReason> {
    if error::fatal(error) {
        Some(StopReason::Fatal)
    } else {
        strategy_reason(strategy)
    }
}

/// Why a failure that is not fatal stops the operation.
pub open spec fn strategy_reason(strategy: ErrorStrategy) -> Option<StopReason> {
    match strategy {
        ErrorStrategy::ContinueAndCollect => None,
        ErrorStrategy::AbortOnError => Some(StopReason::AbortOnError),
        ErrorStrategy::Undo => Some(StopReason::Undo),
    }
}

/// Why a failure that is not fatal stops the operation.
pub fn strategy_stop_reason(strategy: ErrorStrategy) -> (r: Option<StopReason>)
    ensures
        r == strategy_reason(strategy),
{
    match strategy {
        ErrorStrategy::ContinueAndCollect => None,
        ErrorStrategy::AbortOnError => Some(StopReason::AbortOnError),
        ErrorStrategy::Undo => Some(StopReason::Undo),
    }
}

/// Why a failure stops the operation, or `None` where it goes on.
pub fn stop_reason_for(strategy: ErrorStrategy, error: &Error) -> (r: Option<StopReason>)
    ensures
        r == reason_for(strategy, *error),
{
    if error.is_fatal() {
        Some(StopReason::Fatal)
    } else {
        strategy_stop_reason(strategy)
    }
}

/// The reason of the first failure that stops the operation.
pub open spec fn first_reason(strategy: ErrorStrategy, failed: Seq<(Entry, Error)>) -> Option<
    StopReason,
>
    decreases failed.len(),
{
    if failed.len() == 0 {
        None
    } else {
        match first_reason(strategy, failed.drop_last()) {
            Some(reason) => Some(reason),
            None => reason_for(strategy, failed.last().1),
        }
    }
}

/// Where failures are collected and none is fatal, nothing stops the operation.
pub proof fn lemma_collecting_never_stops(failed: Seq<(Entry, Error)>)
    requires
        forall|i: int| 0 <= i < failed.len() ==> !error::fatal((#[trigger] failed[i]).1),
    ensures
        first_reason(ErrorStrategy::ContinueAndCollect, failed) is None,
    decreases failed.len(),
{
    if failed.len() > 0 {
        let front = failed.drop_last();
        assert forall|i: int| 0 <= i < front.len() implies !error::fatal((#[trigger] front[i]).1) by {
            assert(front[i] == failed[i]);
        }
        lemma_collecting_never_stops(front);
    }
}

/// Under any other strategy the first failure stops the operation, and so does a
/// fatal one under every strategy; what comes later does not change the reason.
pub proof fn lemma_first_failure_decides(strategy: ErrorStrategy, failed: Seq<(Entry, Error)>)
    requires
        failed.len() > 0,
        reason_for(strategy, failed[0].1) is Some,
    ensures
        first_reason(strategy, failed) == reason_for(strategy, failed[0].1),
    decreases failed.len(),
{
    reveal_with_fuel(first_reason, 2);
    if failed.len() > 1 {
        assert(failed.drop_last()[0] == failed[0]);
        lemma_first_failure_decides(strategy, failed.drop_last());
    } else {
        assert(failed.drop_last() =~= Seq::<(Entry, Error)>::empty());
        assert(failed.last() == failed[0]);
    }
}

/// A failure stops the operation if and only if it is fatal or failures are not collected,
/// and the reason tells which of the two: the caller's own choice is never taken for a fatal
/// error, nor the other way round.
pub proof fn lemma_reason_tells_why(strategy: ErrorStrategy, error: Error)
    ensures
        reason_for(strategy, error) == Some(StopReason::Fatal) <==> error::fatal(error),
        reason_for(strategy, error) == Some(StopReason::AbortOnError) <==> !error::fatal(error)
            && strategy == ErrorStrategy::AbortOnError,
        reason_for(strategy, error) == Some(StopReason::Undo) <==> !error::fatal(error) && strategy
            == ErrorStrategy::Undo,
        reason_for(strategy, error) is None <==> !error::fatal(error) && strategy
            == ErrorStrategy::ContinueAndCollect,
{
}

/// No failure is ever taken for a cancellation, and going by the strategy alone differs from
/// going by the error only where the error is fatal.
pub proof fn lemma_strategy_decides_unless_fatal(strategy: ErrorStrategy, error: Error)
    ensures
        reason_for(strategy, error) != Some(StopReason::Cancelled),
        strategy_reason(strategy) != Some(StopReason::Cancelled),
        strategy_reason(strategy) != Some(StopReason::Fatal),
        !error::fatal(error) ==> reason_for(strategy, error) == strategy_reason(strategy),
        strategy_reason(strategy) is None <==> strategy == ErrorStrategy::ContinueAndCollect,
{
}

/// The failure that gives the reason is the first one that stops the operation, wherever it
/// stands among the others.
pub proof fn lemma_first_stopping_failure_decides(
    strategy: ErrorStrategy,
    failed: Seq<(Entry, Error)>,
    i: int,
)
    requires
        0 <= i < failed.len(),
        reason_for(strategy, failed[i].1) is Some,
        forall|j: int| 0 <= j < i ==> reason_for(strategy, (#[trigger] failed[j]).1) is None,
    ensures
        first_reason(strategy, failed) == reason_for(strategy, failed[i].1),
    decreases failed.len(),
{
    let front = failed.drop_last();
    if i < failed.len() - 1 {
        assert(front[i] == failed[i]);
        assert forall|j: int| 0 <= j < i implies reason_for(strategy, (#[trigger] front[j]).1) is None by {
            assert(front[j] == failed[j]);
        }
        lemma_first_stopping_failure_decides(strategy, front, i);
    } else {
        assert forall|j: int| 0 <= j < front.len() implies reason_for(
            strategy,
            (#[trigger] front[j]).1,
        ) is None by {
            assert(front[j] == failed[j]);
        }
        lemma_no_reason_without_a_stop(strategy, front);
    }
}

/// Where no failure stops the operation, there is no reason.
pub proof fn lemma_no_reason_without_a_stop(strategy: ErrorStrategy, failed: Seq<(Entry, Error)>)
    requires
        forall|j: int|
            0 <= j < failed.len() ==> reason_for(strategy, (#[trigger] failed[j]).1) is None,
    ensures
        first_reason(strategy, failed) is None,
    decreases failed.len(),
{
    if failed.len() > 0 {
        let front = failed.drop_last();
        assert forall|j: int| 0 <= j < front.len() implies reason_for(
            strategy,
            (#[trigger] front[j]).1,
        ) is None by {
            assert(front[j] == failed[j]);
        }
        lemma_no_reason_without_a_stop(strategy, front);
        assert(reason_for(strategy, failed[failed.len() - 1].1) is None);
    }
}

} // verus!

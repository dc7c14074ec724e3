use vstd::multiset::Multiset;
use vstd::prelude::*;

use super::diff::DiffStrategy;
use crate::error;
use crate::error::Error;
use crate::paths::FilePath;
use crate::planner::config;
use crate::planner::config::{BatchConfig, ErrorStrategy, SortOrder};
use crate::planner::dispatcher;
use crate::planner::outcome::{OperationOutcome, StopReason};
use crate::profiler::Entry;
use crate::progress::Progress;

verus! {

/// What a sync came to. The copied files and the deleted orphans are different files, so
/// the two are reported apart.
#[derive(Debug)]
pub struct SyncOutcome {
    pub copy: OperationOutcome,
    pub delete: OperationOutcome,
}

/// Settings of a one-way sync.
pub struct SyncBuilder {
    pub source: FilePath,
    pub dest: FilePath,
    pub overwrite: bool,
    pub preserve_permissions: bool,
    pub allow_filesystem_integrity_risk: bool,
    pub small_file_threshold: Option<u64>,
    pub batch_config: BatchConfig,
    pub concurrency: Option<usize>,
    pub diff_strategy: DiffStrategy,
}

impl SyncBuilder {
    /// A sync that overwrites changed files and compares by size and modification time.
    pub fn new(source: FilePath, dest: FilePath) -> (r: SyncBuilder)
        ensures
            r == (SyncBuilder {
                source,
                dest,
                overwrite: true,
                preserve_permissions: false,
                allow_filesystem_integrity_risk: false,
                small_file_threshold: None,
                batch_config: config::default_config(),
                concurrency: None,
                diff_strategy: DiffStrategy::SizeAndModifiedTime,
            }),
    {
        SyncBuilder {
            source,
            dest,
            overwrite: true,
            preserve_permissions: false,
            allow_filesystem_integrity_risk: false,
            small_file_threshold: None,
            batch_config: BatchConfig::default(),
            concurrency: None,
            diff_strategy: DiffStrategy::default(),
        }
    }

    pub fn overwrite(self, overwrite: bool) -> (r: SyncBuilder)
        ensures
            r == (SyncBuilder { overwrite, ..self }),
    {
        SyncBuilder { overwrite, ..self }
    }

    /// Whether the permissions of copied directories are kept.
    pub fn preserve_permissions(self, preserve: bool) -> (r: SyncBuilder)
        ensures
            r == (SyncBuilder { preserve_permissions: preserve, ..self }),
    {
        SyncBuilder { preserve_permissions: preserve, ..self }
    }

    /// Whether to write to a file system with a known write-integrity issue.
    pub fn allow_filesystem_integrity_risk(self, allow: bool) -> (r: SyncBuilder)
        ensures
            r == (SyncBuilder { allow_filesystem_integrity_risk: allow, ..self }),
    {
        SyncBuilder { allow_filesystem_integrity_risk: allow, ..self }
    }

    pub fn small_file_threshold(self, bytes: u64) -> (r: SyncBuilder)
        ensures
            r == (SyncBuilder { small_file_threshold: Some(bytes), ..self }),
    {
        SyncBuilder { small_file_threshold: Some(bytes), ..self }
    }

    pub fn max_bytes_per_batch(self, bytes: u64) -> (r: SyncBuilder)
        ensures
            r == (SyncBuilder {
                batch_config: (BatchConfig { max_bytes_per_batch: bytes, ..self.batch_config }),
                ..self
            }),
    {
        let mut out = self;
        out.batch_config.max_bytes_per_batch = bytes;
        out
    }

    pub fn max_files_per_batch(self, n: usize) -> (r: SyncBuilder)
        ensures
            r == (SyncBuilder {
                batch_config: (BatchConfig { max_files_per_batch: Some(n), ..self.batch_config }),
                ..self
            }),
    {
        let mut out = self;
        out.batch_config.max_files_per_batch = Some(n);
        out
    }

    pub fn batch_sort_order(self, order: SortOrder) -> (r: SyncBuilder)
        ensures
            r == (SyncBuilder {
                batch_config: (BatchConfig { sort_order: order, ..self.batch_config }),
                ..self
            }),
    {
        let mut out = self;
        out.batch_config.sort_order = order;
        out
    }

    pub fn on_error(self, strategy: ErrorStrategy) -> (r: SyncBuilder)
        ensures
            r == (SyncBuilder {
                batch_config: (BatchConfig { error_strategy: strategy, ..self.batch_config }),
                ..self
            }),
    {
        let mut out = self;
        out.batch_config.error_strategy = strategy;
        out
    }

    pub fn batch_concurrency(self, n: usize) -> (r: SyncBuilder)
        ensures
            r == (SyncBuilder { concurrency: Some(n), ..self }),
    {
        SyncBuilder { concurrency: Some(n), ..self }
    }

    pub fn diff_strategy(self, strategy: DiffStrategy) -> (r: SyncBuilder)
        ensures
            r == (SyncBuilder { diff_strategy: strategy, ..self }),
    {
        SyncBuilder { diff_strategy: strategy, ..self }
    }
}

/// Whether orphans may be deleted behind a copy that came to `copy`.
pub open spec fn may_delete(copy: OperationOutcome) -> bool {
    copy.stopped_early is None
}

/// Whether orphans are deleted behind a copy: not where the copy stopped early, since
/// data is then known to be missing at the destination.
pub fn deletes_orphans(copy: &OperationOutcome) -> (r: bool)
    ensures
        r == may_delete(*copy),
{
    copy.stopped_early.is_none()
}

/// Why a failed deletion ends the sweep. A deleted orphan has no other copy to be restored
/// from, so `Undo` stops it like `AbortOnError` does.
pub open spec fn sweep_reason(strategy: ErrorStrategy, error: Error) -> Option<StopReason> {
    if error::fatal(error) {
        Some(StopReason::Fatal)
    } else if strategy == ErrorStrategy::ContinueAndCollect {
        None
    } else {
        Some(StopReason::AbortOnError)
    }
}

/// The deletion of the orphans, one after another.
#[derive(Debug)]
pub struct OrphanSweep {
    pub entries: Vec<Entry>,
    pub next: usize,
    pub strategy: ErrorStrategy,
    pub outcome: OperationOutcome,
}

/// Whether the two differ in nothing but the entries that succeeded or failed and in why
/// they stopped.
pub open spec fn same_rest(a: OperationOutcome, b: OperationOutcome) -> bool {
    &&& a.skipped == b.skipped
    &&& a.cleanup_failed == b.cleanup_failed
    &&& a.directories_failed == b.directories_failed
    &&& a.sources_failed == b.sources_failed
    &&& a.duration == b.duration
}

impl OrphanSweep {
    pub open spec fn wf(self) -> bool {
        &&& self.next <= self.entries@.len()
        &&& self.outcome.succeeded@.len() + self.outcome.failed@.len() == self.next
        &&& dispatcher::accounted(self.outcome) == self.entries@.take(
            self.next as int,
        ).to_multiset()
        &&& self.outcome.skipped@.len() == 0
        &&& self.outcome.cleanup_failed@.len() == 0
    }

    /// Whether a deletion is still to be made.
    pub open spec fn goes_on(self) -> bool {
        self.outcome.stopped_early is None && self.next < self.entries@.len()
    }

    /// Whether `after` is the state behind the report that the deletion of the next entry
    /// came to `result`, and `r` the event that tells of it.
    pub open spec fn takes_in(self, after: OrphanSweep, result: Result<(), Error>, r: Progress) -> bool {
        let entry = self.entries@[self.next as int];
        let was = self.outcome;
        let now = after.outcome;
        match result {
            Ok(_) => {
                &&& r == (Progress::EntryCompleted { entry })
                &&& now.succeeded@ == was.succeeded@.push(entry)
                &&& now.failed == was.failed
                &&& now.stopped_early is None
            },
            Err(error) => {
                &&& r == (Progress::EntryFailed { entry })
                &&& now.succeeded == was.succeeded
                &&& now.failed@ == was.failed@.push((entry, error))
                &&& now.stopped_early == sweep_reason(self.strategy, error)
            },
        }
        
    }

    /// A sweep over `entries`, and the event that announces it.
    pub fn new(entries: Vec<Entry>, strategy: ErrorStrategy) -> (r: (OrphanSweep, Progress))
        ensures
            r.0.wf(),
            r.0.entries == entries,
            r.0.next == 0,
            r.0.strategy == strategy,
            r.0.outcome.is_blank(),
            r.1 == (Progress::Started {
                bytes_total: None,
                entries_total: entries@.len() as usize,
            }),
    {
        let event = Progress::Started { bytes_total: None, entries_total: entries.len() };
        proof {
            lemma_nothing_accounted(entries@);
        }
        (OrphanSweep { entries, next: 0, strategy, outcome: OperationOutcome::default() }, event)
    }

    /// The entry to be deleted next, with the event that announces it, or `None` where the
    /// sweep is over.
    pub fn next_entry(&self) -> (r: Option<(Entry, Progress)>)
        requires
            self.wf(),
        ensures
            r == if self.goes_on() {
                let entry = self.entries@[self.next as int];
                Some((entry, Progress::EntryStarted { entry }))
            } else {
                None
            },
            r matches Some((entry, _)) ==> self.next < self.entries@.len() && entry
                == self.entries@[self.next as int],
    {
        if self.outcome.stopped_early.is_some() || self.next == self.entries.len() {
            return None;
        }
        let entry = self.entries[self.next].clone();
        let event = Progress::EntryStarted { entry: entry.clone() };
        Some((entry, event))
    }

    /// Takes in what the deletion of the next entry came to, and gives the event that tells
    /// of it.
    pub fn record(&mut self, result: Result<(), Error>) -> (r: Progress)
        requires
            old(self).wf(),
            old(self).goes_on(),
        ensures
            final(self).wf(),
            final(self).entries == old(self).entries,
            final(self).strategy == old(self).strategy,
            final(self).next == old(self).next + 1,
            same_rest(final(self).outcome, old(self).outcome),
            old(self).takes_in(*final(self), result, r),
    {
        let entry = self.entries[self.next].clone();
        assert(self.entries@.len() == self.entries.len());
        proof {
            lemma_one_more_accounted(self.entries@, self.next as int, self.outcome);
        }
        self.next = self.next + 1;
        match result {
            Ok(_) => {
                self.outcome.succeeded.push(entry.clone());
                Progress::EntryCompleted { entry }
            },
            Err(error) => {
                self.outcome.stopped_early = if error.is_fatal() {
                    Some(StopReason::Fatal)
                } else {
                    match self.strategy {
                        ErrorStrategy::ContinueAndCollect => None,
                        _ => Some(StopReason::AbortOnError),
                    }
                };
                let event = Progress::EntryFailed { entry: entry.clone() };
                self.outcome.failed.push((entry, error));
                event
            },
        }
    }
}

/// What is blank accounts for nothing.
proof fn lemma_nothing_accounted(entries: Seq<Entry>)
    ensures
        forall|o: OperationOutcome| #[trigger]
            o.is_blank() ==> dispatcher::accounted(o) == entries.take(0).to_multiset(),
{
    broadcast use vstd::seq_lib::group_to_multiset_ensures;

    assert forall|o: OperationOutcome| #[trigger] o.is_blank() implies dispatcher::accounted(o)
        == entries.take(0).to_multiset() by {
        assert(o.succeeded@ =~= Seq::<Entry>::empty());
        assert(o.skipped@ =~= Seq::<Entry>::empty());
        assert(dispatcher::failed_entries(o.failed@) =~= Seq::<Entry>::empty());
        assert(entries.take(0) =~= Seq::<Entry>::empty());
        assert(dispatcher::accounted(o) =~= Multiset::<Entry>::empty());
    }
}

/// An entry more that succeeded or failed is an entry more accounted for.
proof fn lemma_one_more_accounted(entries: Seq<Entry>, next: int, before: OperationOutcome)
    requires
        0 <= next < entries.len(),
        dispatcher::accounted(before) == entries.take(next).to_multiset(),
    ensures
        forall|after: OperationOutcome|
            #![trigger dispatcher::accounted(after)]
            after.succeeded@ == before.succeeded@.push(entries[next]) && after.skipped
                == before.skipped && after.failed == before.failed ==> dispatcher::accounted(after)
                == entries.take(next + 1).to_multiset(),
        forall|after: OperationOutcome, error: Error|
            #![trigger dispatcher::accounted(after), before.failed@.push((entries[next], error))]
            after.succeeded == before.succeeded && after.skipped == before.skipped
                && after.failed@ == before.failed@.push((entries[next], error))
                ==> dispatcher::accounted(after) == entries.take(next + 1).to_multiset(),
{
    broadcast use vstd::seq_lib::group_to_multiset_ensures;

    let entry = entries[next];
    assert(entries.take(next + 1) =~= entries.take(next).push(entry));
    let wanted = entries.take(next).to_multiset().insert(entry);
    assert forall|after: OperationOutcome|
        after.succeeded@ == before.succeeded@.push(entry) && after.skipped == before.skipped
            && after.failed == before.failed implies #[trigger] dispatcher::accounted(after)
        == wanted by {
        assert(dispatcher::accounted(after) =~= dispatcher::accounted(before).insert(entry));
    }
    assert forall|after: OperationOutcome, error: Error|
        #![trigger dispatcher::accounted(after), before.failed@.push((entry, error))]
        after.succeeded == before.succeeded && after.skipped == before.skipped && after.failed@
            == before.failed@.push((entry, error)) implies dispatcher::accounted(after)
        == wanted by {
        assert(dispatcher::failed_entries(after.failed@) =~= dispatcher::failed_entries(
            before.failed@,
        ).push(entry));
        assert(dispatcher::accounted(after) =~= dispatcher::accounted(before).insert(entry));
    }
}

/// The orphans that a sweep deleted or failed to delete are the ones that it came to, each
/// once; where nothing stopped it, they are all of them.
pub proof fn lemma_every_orphan_is_accounted_for(sweep: OrphanSweep)
    requires
        sweep.wf(),
    ensures
        sweep.outcome.succeeded@.to_multiset().add(
            dispatcher::failed_entries(sweep.outcome.failed@).to_multiset(),
        ) == sweep.entries@.take(sweep.next as int).to_multiset(),
        !sweep.goes_on() && sweep.outcome.stopped_early is None ==> sweep.entries@.take(
            sweep.next as int,
        ) == sweep.entries@,
{
    broadcast use vstd::seq_lib::group_to_multiset_ensures;

    assert(sweep.outcome.skipped@ =~= Seq::<Entry>::empty());
    assert(dispatcher::accounted(sweep.outcome) =~= sweep.outcome.succeeded@.to_multiset().add(
        dispatcher::failed_entries(sweep.outcome.failed@).to_multiset(),
    ));
    if sweep.next == sweep.entries@.len() {
        assert(sweep.entries@.take(sweep.next as int) =~= sweep.entries@);
    }
}

/// Nothing of a sweep is ever taken back: `Undo` is no reason that it gives.
pub proof fn lemma_sweep_is_never_undone(strategy: ErrorStrategy, error: Error)
    ensures
        sweep_reason(strategy, error) != Some(StopReason::Undo),
{
}

/// Nothing is deleted behind a copy that ended early, whatever ended it; behind any other copy
/// the orphans are deleted, though some of its files may have failed.
pub proof fn lemma_early_end_deletes_nothing(copy: OperationOutcome, reason: StopReason)
    ensures
        copy.stopped_early == Some(reason) ==> !may_delete(copy),
        copy.stopped_early is None ==> may_delete(copy),
{
}

/// A failed deletion ends the sweep if and only if it is fatal or failures are not collected,
/// and the reason tells which.
pub proof fn lemma_sweep_ends_as_the_strategy_says(strategy: ErrorStrategy, error: Error)
    ensures
        sweep_reason(strategy, error) == Some(StopReason::Fatal) <==> error::fatal(error),
        sweep_reason(strategy, error) is None <==> !error::fatal(error) && strategy
            == ErrorStrategy::ContinueAndCollect,
        sweep_reason(strategy, error) == Some(StopReason::AbortOnError) <==> !error::fatal(error)
            && strategy != ErrorStrategy::ContinueAndCollect,
        sweep_reason(strategy, error) != Some(StopReason::Cancelled),
{
}

/// An orphan is reported as deleted if and only if its deletion was done, and a failed one
/// with its error; only a failure ends the sweep.
pub proof fn lemma_orphan_is_reported_as_it_went(
    before: OrphanSweep,
    after: OrphanSweep,
    result: Result<(), Error>,
    r: Progress,
)
    requires
        before.goes_on(),
        before.takes_in(after, result, r),
    ensures
        ({
            let entry = before.entries@[before.next as int];
            &&& result is Ok ==> after.outcome.succeeded@ == before.outcome.succeeded@.push(entry)
                && after.outcome.failed@ == before.outcome.failed@ && r == (
            Progress::EntryCompleted { entry })
            &&& result is Err ==> after.outcome.succeeded@ == before.outcome.succeeded@
                && after.outcome.failed@ == before.outcome.failed@.push((entry, result->Err_0)) && r
                == (Progress::EntryFailed { entry })
            &&& after.outcome.stopped_early is Some <==> result is Err && (before.strategy
                != ErrorStrategy::ContinueAndCollect || error::fatal(result->Err_0))
        }),
{
}

/// A sweep goes on as long as entries are left and no failure ended it.
pub proof fn lemma_sweep_goes_on_while_it_may(sweep: OrphanSweep)
    requires
        sweep.wf(),
    ensures
        sweep.goes_on() ==> sweep.next < sweep.entries@.len(),
        sweep.outcome.stopped_early is Some ==> !sweep.goes_on(),
        sweep.next == sweep.entries@.len() ==> !sweep.goes_on(),
        sweep.outcome.stopped_early is None && sweep.next < sweep.entries@.len()
            ==> sweep.goes_on(),
{
}

/// A deletion is reported among what was deleted or failed and nowhere else.
pub proof fn lemma_rest_of_the_report_stays(before: OperationOutcome, after: OperationOutcome)
    requires
        same_rest(after, before),
    ensures
        after.skipped == before.skipped,
        after.cleanup_failed == before.cleanup_failed,
        after.directories_failed == before.directories_failed,
        after.sources_failed == before.sources_failed,
{
}

} // verus!

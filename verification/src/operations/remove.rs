use vstd::prelude::*;

use super::remove_filter::RemoveFilter;
use crate::error;
use crate::error::{classify_io_error, Error, IoFailure};
use crate::globs;
use crate::paths::FilePath;
use crate::planner::action::EntryOutcome;
use crate::planner::batch;
use crate::planner::config;
use crate::planner::config::{BatchConfig, ErrorStrategy};
use crate::planner::outcome::{OperationOutcome, StopReason};
use crate::planner::plan::{plan, ExecutionPlan};
use crate::profiler::{Entry, Span, Timestamp, Workload};

verus! {

/// What a removal came to.
#[derive(Debug)]
#[non_exhaustive]
pub struct RemoveOutcome {
    /// Entries that were removed.
    pub succeeded: Vec<Entry>,
    /// Entries that a dry run found, and left alone.
    pub previewed: Vec<Entry>,
    pub failed: Vec<(Entry, Error)>,
    pub stopped_early: Option<StopReason>,
    pub duration: Span,
}

impl Default for RemoveOutcome {
    fn default() -> (r: Self)
        ensures
            r.succeeded@.len() == 0,
            r.previewed@.len() == 0,
            r.failed@.len() == 0,
            r.stopped_early is None,
            r.duration.length() == 0,
    {
        RemoveOutcome {
            succeeded: Vec::new(),
            previewed: Vec::new(),
            failed: Vec::new(),
            stopped_early: None,
            duration: Span { secs: 0, nanos: 0 },
        }
    }
}

/// Settings of a removal. Nothing is removed unless the dry run is switched off, and then
/// files go to the trash unless they are to be deleted for good.
#[derive(Debug)]
pub struct RemoveBuilder {
    pub root: FilePath,
    pub filter: RemoveFilter,
    pub max_depth: Option<usize>,
    pub follow_symlinks: bool,
    pub dry_run: bool,
    pub hard_delete: bool,
    pub allow_unfiltered_delete: bool,
    pub batch_config: BatchConfig,
    pub concurrency: Option<usize>,
}

impl RemoveBuilder {
    /// A dry run without criteria.
    pub fn new(root: FilePath) -> (r: RemoveBuilder)
        ensures
            r.root == root,
            r.filter.unset(),
            r.max_depth is None,
            !r.follow_symlinks,
            r.dry_run,
            !r.hard_delete,
            !r.allow_unfiltered_delete,
            r.batch_config == config::default_config(),
            r.concurrency is None,
    {
        RemoveBuilder {
            root,
            filter: RemoveFilter::default(),
            max_depth: None,
            follow_symlinks: false,
            dry_run: true,
            hard_delete: false,
            allow_unfiltered_delete: false,
            batch_config: BatchConfig::default(),
            concurrency: None,
        }
    }

    /// Only files with one of these extensions are removed.
    pub fn extensions(self, exts: Vec<String>) -> (r: RemoveBuilder)
        ensures
            r == (RemoveBuilder {
                filter: (RemoveFilter { extensions: Some(exts), ..self.filter }),
                ..self
            }),
    {
        RemoveBuilder { filter: RemoveFilter { extensions: Some(exts), ..self.filter }, ..self }
    }

    /// What one of these patterns matches is not removed.
    pub fn exclude(self, patterns: Vec<String>) -> (r: RemoveBuilder)
        ensures
            r == (RemoveBuilder {
                filter: (RemoveFilter { exclude_patterns: patterns, ..self.filter }),
                ..self
            }),
    {
        RemoveBuilder {
            filter: RemoveFilter { exclude_patterns: patterns, ..self.filter },
            ..self
        }
    }

    pub fn min_size(self, bytes: u64) -> (r: RemoveBuilder)
        ensures
            r == (RemoveBuilder {
                filter: (RemoveFilter { min_size: Some(bytes), ..self.filter }),
                ..self
            }),
    {
        RemoveBuilder { filter: RemoveFilter { min_size: Some(bytes), ..self.filter }, ..self }
    }

    pub fn max_size(self, bytes: u64) -> (r: RemoveBuilder)
        ensures
            r == (RemoveBuilder {
                filter: (RemoveFilter { max_size: Some(bytes), ..self.filter }),
                ..self
            }),
    {
        RemoveBuilder { filter: RemoveFilter { max_size: Some(bytes), ..self.filter }, ..self }
    }

    /// Only files modified at or after `t` are removed.
    pub fn modified_after(self, t: Timestamp) -> (r: RemoveBuilder)
        ensures
            r == (RemoveBuilder {
                filter: (RemoveFilter { modified_after: Some(t), ..self.filter }),
                ..self
            }),
    {
        RemoveBuilder { filter: RemoveFilter { modified_after: Some(t), ..self.filter }, ..self }
    }

    /// Only files modified at or before `t` are removed.
    pub fn modified_before(self, t: Timestamp) -> (r: RemoveBuilder)
        ensures
            r == (RemoveBuilder {
                filter: (RemoveFilter { modified_before: Some(t), ..self.filter }),
                ..self
            }),
    {
        RemoveBuilder { filter: RemoveFilter { modified_before: Some(t), ..self.filter }, ..self }
    }

    /// How far the walk descends: the root is at depth 0.
    pub fn max_depth(self, depth: usize) -> (r: RemoveBuilder)
        ensures
            r == (RemoveBuilder { max_depth: Some(depth), ..self }),
    {
        RemoveBuilder { max_depth: Some(depth), ..self }
    }

    pub fn follow_symlinks(self, follow: bool) -> (r: RemoveBuilder)
        ensures
            r == (RemoveBuilder { follow_symlinks: follow, ..self }),
    {
        RemoveBuilder { follow_symlinks: follow, ..self }
    }

    /// Whether files are only looked for.
    pub fn dry_run(self, dry_run: bool) -> (r: RemoveBuilder)
        ensures
            r == (RemoveBuilder { dry_run, ..self }),
    {
        RemoveBuilder { dry_run, ..self }
    }

    /// Whether files are deleted for good rather than moved to the trash.
    pub fn hard_delete(self, hard: bool) -> (r: RemoveBuilder)
        ensures
            r == (RemoveBuilder { hard_delete: hard, ..self }),
    {
        RemoveBuilder { hard_delete: hard, ..self }
    }

    /// Whether a removal without any criterion is meant.
    pub fn allow_unfiltered_delete(self, allow: bool) -> (r: RemoveBuilder)
        ensures
            r == (RemoveBuilder { allow_unfiltered_delete: allow, ..self }),
    {
        RemoveBuilder { allow_unfiltered_delete: allow, ..self }
    }

    /// What a failure does to the rest. A removal cannot be taken back: `Undo` only stops.
    pub fn on_error(self, strategy: ErrorStrategy) -> (r: RemoveBuilder)
        ensures
            r == (RemoveBuilder {
                batch_config: (BatchConfig { error_strategy: strategy, ..self.batch_config }),
                ..self
            }),
    {
        let mut out = self;
        out.batch_config.error_strategy = strategy;
        out
    }

    pub fn batch_concurrency(self, n: usize) -> (r: RemoveBuilder)
        ensures
            r == (RemoveBuilder { concurrency: Some(n), ..self }),
    {
        RemoveBuilder { concurrency: Some(n), ..self }
    }

    /// Whether every file would be removed and nobody said so.
    pub open spec fn refuses(self) -> bool {
        self.filter.unset() && !self.allow_unfiltered_delete
    }

    /// Refuses to start where every file would be removed and nobody said so.
    pub fn check_criteria(&self) -> (r: Result<(), Error>)
        ensures
            self.refuses() ==> r == Err::<(), Error>(Error::RemoveCriteriaRequired),
            !self.refuses() ==> r == Ok::<(), Error>(()),
    {
        if self.filter.is_empty() && !self.allow_unfiltered_delete {
            Err(Error::RemoveCriteriaRequired)
        } else {
            Ok(())
        }
    }
}

/// The entries that the filter selects, in order.
pub open spec fn selected(
    filter: RemoveFilter,
    excludes: Option<&globset::GlobSet>,
    entries: Seq<Entry>,
) -> Seq<Entry> {
    entries.filter(|e: Entry| filter.selects(excludes, e))
}

/// The entries that the filter selects, in order.
pub fn select(filter: &RemoveFilter, excludes: Option<&globset::GlobSet>, entries: Vec<Entry>) -> (r:
    Vec<Entry>)
    ensures
        r@ == selected(*filter, excludes, entries@),
{
    let mut out: Vec<Entry> = Vec::new();
    let ghost all = entries@;
    proof {
        reveal(Seq::filter);
        assert(all.take(0) =~= Seq::<Entry>::empty());
    }
    for entry in it: entries
        invariant
            it.seq() == all,
            out@ == selected(*filter, excludes, all.take(it.index())),
    {
        proof {
            reveal(Seq::filter);
            let i = it.index();
            assert(all.take(i + 1).drop_last() =~= all.take(i));
            assert(all.take(i + 1).last() == entry);
        }
        if filter.matches(&entry.relative_path, entry.size, entry.modified, excludes) {
            out.push(entry);
        }
    }
    assert(all.take(all.len() as int) =~= all);
    out
}

/// What a removal does once its files are known.
#[derive(Debug)]
pub enum RemoveNext {
    /// A dry run is over.
    Preview { outcome: RemoveOutcome },
    /// The plan is carried out.
    Run { plan: ExecutionPlan },
}

/// What is done with the files that matched: a dry run lists them and touches nothing,
/// otherwise they are all packed into batches. Their size does not matter, since nothing
/// of them is read.
pub fn after_scan(matched: Vec<Entry>, dry_run: bool, config: &BatchConfig) -> (r: RemoveNext)
    ensures
        r is Preview <==> dry_run,
        r is Run <==> !dry_run,
        dry_run ==> (r matches RemoveNext::Preview { outcome } && outcome.previewed@ == matched@
            && outcome.succeeded@.len() == 0 && outcome.failed@.len() == 0
            && outcome.stopped_early is None && outcome.duration.length() == 0),
        !dry_run ==> (r matches RemoveNext::Run { plan } && batch::contents(plan.batches@)
            == batch::packed(
            batch::by_size(matched@, config.sort_order),
            config.max_bytes_per_batch,
            config::files_cap(*config, matched@),
        ) && (forall|i: int| 0 <= i < plan.batches@.len() ==> (#[trigger] plan.batches@[i]).wf())
            && plan.streams@.len() == 0),
{
    if dry_run {
        RemoveNext::Preview {
            outcome: RemoveOutcome { previewed: matched, ..RemoveOutcome::default() },
        }
    } else {
        let workload = Workload { small: matched, large: Vec::new(), directories: Vec::new() };
        let plan = plan(workload, config);
        assert(crate::planner::plan::streamed(plan.streams@).len() == plan.streams@.len());
        RemoveNext::Run { plan }
    }
}

/// What a deletion for good that came to `result` is reported as.
pub open spec fn deleted(result: Result<(), IoFailure>, entry: Entry) -> Result<EntryOutcome, Error> {
    match result {
        Ok(_) => Ok(EntryOutcome::Written),
        Err(failure) => Err(error::io_error(failure, entry.path, entry.size)),
    }
}

/// What a move to the trash that came to `result` is reported as.
pub open spec fn trashed(result: Result<(), String>, entry: Entry) -> Result<EntryOutcome, Error> {
    match result {
        Ok(_) => Ok(EntryOutcome::Written),
        Err(source) => Err(Error::TrashFailed { path: entry.path, source }),
    }
}

/// What the removal of one file came to. Unlike the removal of a file that was moved, one
/// that is gone already is a failure.
pub fn hard_delete_result(result: Result<(), IoFailure>, entry: &Entry) -> (r: Result<
    EntryOutcome,
    Error,
>)
    ensures
        r == deleted(result, *entry),
{
    match result {
        Ok(_) => Ok(EntryOutcome::Written),
        Err(failure) => Err(classify_io_error(failure, entry.path.clone(), entry.size)),
    }
}

/// What moving one file to the trash came to. A failure never falls back to deleting the
/// file for good.
pub fn trash_result(result: Result<(), String>, entry: &Entry) -> (r: Result<EntryOutcome, Error>)
    ensures
        r == trashed(result, *entry),
{
    match result {
        Ok(_) => Ok(EntryOutcome::Written),
        Err(source) => Err(Error::TrashFailed { path: entry.path.clone(), source }),
    }
}

/// What a removal came to, from what the worker pool reports of it.
pub fn from_dispatch(outcome: OperationOutcome) -> (r: RemoveOutcome)
    ensures
        r.succeeded == outcome.succeeded,
        r.failed == outcome.failed,
        r.stopped_early == outcome.stopped_early,
        r.previewed@.len() == 0,
        r.duration.length() == 0,
{
    RemoveOutcome {
        succeeded: outcome.succeeded,
        failed: outcome.failed,
        stopped_early: outcome.stopped_early,
        previewed: Vec::new(),
        duration: Span { secs: 0, nanos: 0 },
    }
}

/// A file is selected if and only if it was scanned, meets every criterion, and matches no
/// exclude pattern.
pub proof fn lemma_only_matching_files_are_selected(
    filter: RemoveFilter,
    excludes: Option<&globset::GlobSet>,
    entries: Seq<Entry>,
    entry: Entry,
)
    ensures
        selected(filter, excludes, entries).contains(entry) <==> entries.contains(entry)
            && filter.selects(excludes, entry),
{
    let pred = |e: Entry| filter.selects(excludes, e);
    let kept = selected(filter, excludes, entries);
    if kept.contains(entry) {
        let i = choose|i: int| 0 <= i < kept.len() && kept[i] == entry;
        entries.lemma_filter_pred(pred, i);
        entries.lemma_filter_contains_rev(pred, entry);
    }
    if entries.contains(entry) && filter.selects(excludes, entry) {
        let i = choose|i: int| 0 <= i < entries.len() && entries[i] == entry;
        entries.lemma_filter_contains(pred, i);
    }
}

/// A removal that would take every file is refused unless the caller allowed it; one with any
/// criterion is not refused for that.
pub proof fn lemma_unfiltered_removal_has_to_be_allowed(builder: RemoveBuilder)
    ensures
        builder.allow_unfiltered_delete ==> !builder.refuses(),
        builder.filter.extensions is Some || builder.filter.exclude_patterns@.len() > 0
            || builder.filter.min_size is Some || builder.filter.max_size is Some
            || builder.filter.modified_after is Some || builder.filter.modified_before is Some
            ==> !builder.refuses(),
        !builder.allow_unfiltered_delete && builder.filter.extensions is None
            && builder.filter.exclude_patterns@.len() == 0 && builder.filter.min_size is None
            && builder.filter.max_size is None && builder.filter.modified_after is None
            && builder.filter.modified_before is None ==> builder.refuses(),
{
}

/// A file is reported as removed if and only if it was removed: every failure is told, about
/// the file itself, even that there was no such file.
pub proof fn lemma_removal_is_reported_as_it_went(
    result: Result<(), IoFailure>,
    trash: Result<(), String>,
    entry: Entry,
)
    ensures
        deleted(result, entry) is Ok <==> result is Ok,
        trashed(trash, entry) is Ok <==> trash is Ok,
        result is Ok ==> deleted(result, entry)->Ok_0 == EntryOutcome::Written,
        trash is Ok ==> trashed(trash, entry)->Ok_0 == EntryOutcome::Written,
        result is Err ==> deleted(result, entry)->Err_0 == error::io_error(
            result->Err_0,
            entry.path,
            entry.size,
        ),
        trash is Err ==> trashed(trash, entry)->Err_0 == (Error::TrashFailed {
            path: entry.path,
            source: trash->Err_0,
        }),
{
}

/// A file that misses a bound, or that an exclude pattern matches, is never among the
/// selected ones.
pub proof fn lemma_selected_file_meets_every_bound(
    filter: RemoveFilter,
    excludes: Option<&globset::GlobSet>,
    entries: Seq<Entry>,
    i: int,
)
    requires
        0 <= i < selected(filter, excludes, entries).len(),
    ensures
        ({
            let entry = selected(filter, excludes, entries)[i];
            &&& entries.contains(entry)
            &&& filter.min_size matches Some(low) ==> low <= entry.size
            &&& filter.max_size matches Some(high) ==> entry.size <= high
            &&& filter.modified_after is Some ==> entry.modified is Some
                && filter.modified_after->0.at() <= entry.modified->0.at()
            &&& filter.modified_before is Some ==> entry.modified is Some
                && entry.modified->0.at() <= filter.modified_before->0.at()
            &&& !globs::excludes(excludes, entry.relative_path.text@)
        }),
{
    let pred = |e: Entry| filter.selects(excludes, e);
    let kept = selected(filter, excludes, entries);
    entries.lemma_filter_pred(pred, i);
    entries.lemma_filter_contains_rev(pred, kept[i]);
}

} // verus!

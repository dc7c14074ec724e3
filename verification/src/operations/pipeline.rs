use vstd::prelude::*;

use crate::error;
use crate::error::{classify_io_error, Error, IoFailure, IoKind};
use crate::path_set::PathSet;
use crate::paths;
use crate::paths::{FilePath, PathModel};
use crate::planner::batch;
use crate::planner::config;
use crate::planner::config::{BatchConfig, ErrorStrategy};
use crate::planner::dispatcher;
use crate::planner::outcome;
use crate::planner::outcome::OperationOutcome;
use crate::planner::plan::{plan, ExecutionPlan};
use crate::planner::plan as planning;
use crate::profiler::{DirEntry, Entry, FilesystemCapabilities, Workload};
use crate::progress::Progress;
use crate::validate;

verus! {

/// Whether `dir` lies above `path`.
pub open spec fn is_ancestor(dir: PathModel, path: PathModel) -> bool {
    &&& dir.rooted == path.rooted
    &&& dir.names.len() < path.names.len()
    &&& path.names.take(dir.names.len() as int) == dir.names
}

/// Whether one of the files lies below `dir`: copying it creates `dir` too.
pub open spec fn covers(files: Seq<Entry>, dir: PathModel) -> bool {
    exists|i: int| 0 <= i < files.len() && is_ancestor(dir, #[trigger] files[i].relative_path@)
}

/// The part of a path down to a depth.
spec fn down_to(path: PathModel, depth: int) -> PathModel {
    PathModel { rooted: path.rooted, names: path.names.take(depth) }
}

/// Marks all directories above `entry`. It stops at one that is marked already: those
/// above it are marked too.
fn cover(covered: &mut PathSet, entry: &Entry, Ghost(files): Ghost<Seq<Entry>>)
    requires
        forall|dir: PathModel| #[trigger] old(covered)@.contains(dir) <==> covers(files, dir),
    ensures
        forall|dir: PathModel|
            #[trigger] final(covered)@.contains(dir) <==> covers(files.push(*entry), dir),
{
    let ghost path = entry.relative_path@;
    let ghost before = covered@;
    let ghost more = files.push(*entry);
    let mut current = entry.relative_path.parent();
    let ghost mut depth: int = path.names.len() - 1;
    proof {
        assert forall|dir: PathModel| covers(more, dir) <==> covers(files, dir) || is_ancestor(
            dir,
            path,
        ) by {
            if covers(files, dir) {
                let i = choose|i: int|
                    0 <= i < files.len() && is_ancestor(dir, #[trigger] files[i].relative_path@);
                assert(more[i] == files[i]);
            }
            if is_ancestor(dir, path) {
                assert(more[files.len() as int].relative_path@ == path);
            }
            if covers(more, dir) {
                let i = choose|i: int|
                    0 <= i < more.len() && is_ancestor(dir, #[trigger] more[i].relative_path@);
                if i < files.len() {
                    assert(files[i] == more[i]);
                }
            }
        }
        if path.names.len() > 0 {
            assert(path.names.drop_last() =~= path.names.take(depth));
        }
    }
    loop
        invariant_except_break
            path == entry.relative_path@,
            more == files.push(*entry),
            -1 <= depth < path.names.len(),
            match current {
                Some(dir) => depth >= 0 && dir@ == down_to(path, depth),
                None => depth == -1,
            },
            forall|dir: PathModel|
                covers(more, dir) <==> covers(files, dir) || is_ancestor(dir, path),
            forall|dir: PathModel| #[trigger] before.contains(dir) <==> covers(files, dir),
            forall|dir: PathModel| #[trigger]
                covered@.contains(dir) <==> before.contains(dir) || (is_ancestor(dir, path)
                    && dir.names.len() > depth),
        ensures
            forall|dir: PathModel| #[trigger] covered@.contains(dir) <==> covers(more, dir),
        decreases depth + 1,
    {
        let dir = match current {
            Some(dir) => dir,
            None => {
                break;
            },
        };
        let ghost here = dir@;
        proof {
            assert(is_ancestor(here, path));
            assert(path.names.take(here.names.len() as int) =~= here.names);
            assert forall|other: PathModel| is_ancestor(other, path) && other.names.len() == depth implies other
                == here by {
                assert(other.names =~= here.names);
            }
        }
        if !covered.insert(&dir) {
            proof {
                assert(before.contains(here));
                assert forall|other: PathModel| is_ancestor(other, path) && other.names.len() <= depth implies before.contains(
                    other,
                ) by {
                    let i = choose|i: int|
                        0 <= i < files.len() && is_ancestor(here, #[trigger] files[i].relative_path@);
                    let file = files[i].relative_path@;
                    assert(file.names.take(other.names.len() as int) =~= here.names.take(
                        other.names.len() as int,
                    ));
                    assert(here.names.take(other.names.len() as int) =~= path.names.take(
                        other.names.len() as int,
                    ));
                    assert(is_ancestor(other, files[i].relative_path@));
                    assert(covers(files, other));
                }
            }
            break;
        }
        current = dir.parent();
        proof {
            if depth > 0 {
                assert(here.names.drop_last() =~= path.names.take(depth - 1));
            }
            depth = depth - 1;
        }
    }
}

/// The directories that come into being when the files are copied: all that lie above
/// one of them, the root too.
pub fn directories_covered_by_files(small: &Vec<Entry>, large: &Vec<Entry>) -> (r: PathSet)
    ensures
        forall|dir: PathModel| #[trigger] r@.contains(dir) <==> covers(small@ + large@, dir),
{
    let mut covered = PathSet::new();
    let mut i: usize = 0;
    while i < small.len()
        invariant
            i <= small@.len(),
            forall|dir: PathModel| #[trigger]
                covered@.contains(dir) <==> covers(small@.take(i as int), dir),
        decreases small@.len() - i,
    {
        cover(&mut covered, &small[i], Ghost(small@.take(i as int)));
        assert(small@.take(i as int).push(small@[i as int]) =~= small@.take(i + 1));
        i = i + 1;
    }
    let ghost all = small@ + large@;
    assert(all.take(i as int) =~= small@.take(i as int));
    let mut j: usize = 0;
    while j < large.len()
        invariant
            j <= large@.len(),
            all == small@ + large@,
            forall|dir: PathModel| #[trigger]
                covered@.contains(dir) <==> covers(all.take(small@.len() + j), dir),
        decreases large@.len() - j,
    {
        cover(&mut covered, &large[j], Ghost(all.take(small@.len() + j)));
        assert(all.take(small@.len() + j).push(large@[j as int]) =~= all.take(small@.len() + j + 1));
        j = j + 1;
    }
    assert(all.take(small@.len() + j) =~= all);
    covered
}

/// The text of the path that a directory has below `dest_root`: an empty relative path
/// means `dest_root` itself.
pub open spec fn dest_text(relative: FilePath, dest_root: FilePath) -> Seq<char> {
    if relative.text@.len() == 0 {
        dest_root.text@
    } else {
        paths::join_text(dest_root.text@, relative.text@)
    }
}

/// The path that a directory has below `dest_root`.
pub fn dest_path_for(dir: &DirEntry, dest_root: &FilePath) -> (r: FilePath)
    ensures
        r.text@ == dest_text(dir.relative_path, *dest_root),
{
    if dir.relative_path.is_empty() {
        dest_root.clone()
    } else {
        dest_root.join(&dir.relative_path)
    }
}

/// The directories without any of the files below them, in order.
pub open spec fn uncovered(directories: Seq<DirEntry>, files: Seq<Entry>) -> Seq<DirEntry> {
    directories.filter(|d: DirEntry| !covers(files, d.relative_path@))
}

/// The directories that have to be created by themselves: copying the files creates all
/// others.
fn directories_to_create(directories: &Vec<DirEntry>, covered: &PathSet, Ghost(files): Ghost<
    Seq<Entry>,
>) -> (r: Vec<DirEntry>)
    requires
        forall|dir: PathModel| #[trigger] covered@.contains(dir) <==> covers(files, dir),
    ensures
        r@ == uncovered(directories@, files),
{
    let mut found: Vec<DirEntry> = Vec::new();
    let mut i: usize = 0;
    proof {
        reveal(Seq::filter);
    }
    assert(directories@.take(0) =~= Seq::<DirEntry>::empty());
    while i < directories.len()
        invariant
            i <= directories@.len(),
            forall|dir: PathModel| #[trigger] covered@.contains(dir) <==> covers(files, dir),
            found@ == uncovered(directories@.take(i as int), files),
        decreases directories@.len() - i,
    {
        proof {
            reveal(Seq::filter);
            assert(directories@.take(i + 1).drop_last() =~= directories@.take(i as int));
            assert(directories@.take(i + 1).last() == directories@[i as int]);
        }
        if !covered.contains(&directories[i].relative_path) {
            found.push(directories[i].clone());
        }
        i = i + 1;
    }
    assert(directories@.take(directories@.len() as int) =~= directories@);
    found
}

/// What the check of a workload against its destination turned down.
#[derive(Debug)]
pub struct Validation {
    pub rejected_entries: Vec<(Entry, Error)>,
    pub rejected_directories: Vec<(DirEntry, Error)>,
}

/// A copy between the check of its workload and its end.
pub struct Pipeline {
    /// What was turned down.
    pub rejected_entries: Vec<(Entry, Error)>,
    pub directories_failed: Vec<(FilePath, Error)>,
    /// All directories of the workload.
    pub directories: Vec<DirEntry>,
    /// The directories that are created before any file is copied.
    pub to_create: Vec<DirEntry>,
}

/// The destination paths of the directories that were turned down, with the errors.
pub open spec fn rejected_paths(
    rejected: Seq<(DirEntry, Error)>,
    dest_root: FilePath,
    failed: Seq<(FilePath, Error)>,
) -> bool {
    &&& failed.len() == rejected.len()
    &&& forall|i: int|
        0 <= i < failed.len() ==> (#[trigger] failed[i]).0.text@ == dest_text(
            rejected[i].0.relative_path,
            dest_root,
        ) && failed[i].1 == rejected[i].1
}

/// How a copy goes on behind the check of its workload.
pub enum PipelineStart {
    /// Something was turned down and the error strategy does not go on: nothing is
    /// written at all.
    Stopped { outcome: OperationOutcome },
    Run { pipeline: Pipeline, plan: ExecutionPlan },
}

/// Takes the directories that were turned down for failed ones.
fn reject_directories(rejected: Vec<(DirEntry, Error)>, dest_root: &FilePath) -> (r: Vec<
    (FilePath, Error),
>)
    ensures
        rejected_paths(rejected@, *dest_root, r@),
{
    let ghost all = rejected@;
    let mut failed: Vec<(FilePath, Error)> = Vec::with_capacity(rejected.len());
    for pair in it: rejected
        invariant
            it.seq() == all,
            rejected_paths(all.take(it.index()), *dest_root, failed@),
    {
        let (dir, error) = pair;
        failed.push((dest_path_for(&dir, dest_root), error));
        assert(rejected_paths(all.take(it.index() + 1), *dest_root, failed@));
    }
    assert(all.take(all.len() as int) =~= all);
    failed
}

/// Whether what was done to the directory at `path` is kept as `after` behind the failures
/// `before`.
pub open spec fn directory_came_to(
    before: Seq<(FilePath, Error)>,
    after: Seq<(FilePath, Error)>,
    path: FilePath,
    result: Result<(), IoFailure>,
) -> bool {
    after == match result {
        Ok(_) => before,
        Err(failure) => before.push((path, error::io_error(failure, path, 0))),
    }
}

/// What a check that turned something down comes to: under `ContinueAndCollect` the copy
/// goes on with what is left of the workload, under any other strategy it stops before
/// anything is written.
pub fn start_pipeline(
    workload: Workload,
    validation: Validation,
    dest_root: &FilePath,
    config: &BatchConfig,
) -> (r: PipelineStart)
    ensures
        r is Stopped <==> (validation.rejected_entries@.len() > 0
            || validation.rejected_directories@.len() > 0) && config.error_strategy
            != ErrorStrategy::ContinueAndCollect,
        ({
            let files = workload.small@ + workload.large@;
            let nothing_rejected = validation.rejected_entries@.len() == 0
                && validation.rejected_directories@.len() == 0;
            match r {
                PipelineStart::Stopped { outcome } => {
                    &&& !nothing_rejected
                    &&& outcome::strategy_reason(config.error_strategy) is Some
                    &&& outcome.stopped_early == outcome::strategy_reason(config.error_strategy)
                    &&& outcome.failed == validation.rejected_entries
                    &&& rejected_paths(
                        validation.rejected_directories@,
                        *dest_root,
                        outcome.directories_failed@,
                    )
                    &&& outcome.succeeded@.len() == 0
                    &&& outcome.skipped@.len() == 0
                    &&& outcome.cleanup_failed@.len() == 0
                    &&& outcome.sources_failed@.len() == 0
                    &&& outcome.duration.length() == 0
                },
                PipelineStart::Run { pipeline, plan } => {
                    &&& nothing_rejected || outcome::strategy_reason(config.error_strategy) is None
                    &&& pipeline.rejected_entries == validation.rejected_entries
                    &&& rejected_paths(
                        validation.rejected_directories@,
                        *dest_root,
                        pipeline.directories_failed@,
                    )
                    &&& pipeline.directories == workload.directories
                    &&& pipeline.to_create@ == uncovered(workload.directories@, files)
                    &&& batch::contents(plan.batches@) == batch::packed(
                        batch::by_size(workload.small@, config.sort_order),
                        config.max_bytes_per_batch,
                        config::files_cap(*config, workload.small@),
                    )
                    &&& forall|i: int|
                        0 <= i < plan.batches@.len() ==> (#[trigger] plan.batches@[i]).wf()
                    &&& planning::streamed(plan.streams@) == workload.large@
                },
            }
        }),
{
    let directories_failed = reject_directories(validation.rejected_directories, dest_root);
    let rejected = !validation.rejected_entries.is_empty() || !directories_failed.is_empty();
    if rejected {
        let reason = outcome::strategy_stop_reason(config.error_strategy);
        if reason.is_some() {
            let mut outcome = OperationOutcome::default();
            outcome.failed = validation.rejected_entries;
            outcome.directories_failed = directories_failed;
            outcome.stopped_early = reason;
            return PipelineStart::Stopped { outcome };
        }
    }
    let covered = directories_covered_by_files(&workload.small, &workload.large);
    let ghost files = workload.small@ + workload.large@;
    let to_create = directories_to_create(&workload.directories, &covered, Ghost(files));
    let Workload { small, large, directories } = workload;
    let plan = plan(Workload { small, large, directories: Vec::new() }, config);
    let pipeline = Pipeline {
        rejected_entries: validation.rejected_entries,
        directories_failed,
        directories,
        to_create,
    };
    PipelineStart::Run { pipeline, plan }
}

/// A copy that was not stopped accounts for every file of the scanned workload exactly
/// once: each was copied, skipped, turned down by the check, or failed.
pub proof fn lemma_no_file_is_lost(
    workload: Workload,
    caps: FilesystemCapabilities,
    kept: Workload,
    validation: Validation,
    config: BatchConfig,
    plan: ExecutionPlan,
    dispatched: OperationOutcome,
    outcome: OperationOutcome,
)
    requires
        kept.small@.len() <= usize::MAX,
        validate::parts(workload, caps, kept, validation),
        batch::contents(plan.batches@) == batch::packed(
            batch::by_size(kept.small@, config.sort_order),
            config.max_bytes_per_batch,
            config::files_cap(config, kept.small@),
        ),
        planning::streamed(plan.streams@) == kept.large@,
        dispatcher::accounted(dispatched) == dispatcher::plan_units(plan).flatten().to_multiset(),
        outcome.succeeded == dispatched.succeeded,
        outcome.skipped == dispatched.skipped,
        outcome.failed@ == validation.rejected_entries@ + dispatched.failed@,
    ensures
        dispatcher::accounted(outcome) == workload.small@.to_multiset().add(
            workload.large@.to_multiset(),
        ),
{
    let rejected = dispatcher::failed_entries(validation.rejected_entries@);
    let failed = dispatcher::failed_entries(dispatched.failed@);
    dispatcher::lemma_plan_holds_every_file_once(kept, config, plan);
    validate::lemma_check_loses_no_file(workload, caps, kept, validation);
    assert(dispatcher::failed_entries(outcome.failed@) =~= rejected + failed);
    vstd::seq_lib::lemma_multiset_commutative(rejected, failed);
    assert(dispatcher::accounted(outcome) =~= dispatcher::accounted(dispatched).add(
        rejected.to_multiset(),
    ));
}

/// Every directory of the workload comes into being: it is created by itself, or a file
/// below it is copied.
pub proof fn lemma_no_directory_is_lost(
    directories: Seq<DirEntry>,
    files: Seq<Entry>,
    i: int,
)
    requires
        0 <= i < directories.len(),
    ensures
        covers(files, directories[i].relative_path@) || uncovered(directories, files).contains(
            directories[i],
        ),
{
    let keep = |d: DirEntry| !covers(files, d.relative_path@);
    if keep(directories[i]) {
        directories.lemma_filter_contains(keep, i);
    }
}

impl Pipeline {
    /// Announces the directories that are created.
    pub fn directories_started(&self) -> (r: Progress)
        ensures
            r == (Progress::DirectoriesStarted { total: self.to_create@.len() as usize }),
    {
        Progress::DirectoriesStarted { total: self.to_create.len() }
    }

    /// Takes in what the creation of the directory at `path` came to. A failure is kept,
    /// and the other directories are still created.
    pub fn directory_created(&mut self, path: FilePath, result: Result<(), IoFailure>) -> (r:
        Progress)
        ensures
            final(self).rejected_entries == old(self).rejected_entries,
            final(self).directories == old(self).directories,
            final(self).to_create == old(self).to_create,
            directory_came_to(
                old(self).directories_failed@,
                final(self).directories_failed@,
                path,
                result,
            ),
            r == match result {
                Ok(_) => Progress::DirectoryCompleted { path },
                Err(_) => Progress::DirectoryFailed { path },
            },
            r is DirectoryCompleted <==> result is Ok,
            result is Ok ==> final(self).directories_failed == old(self).directories_failed,
    {
        match result {
            Ok(_) => Progress::DirectoryCompleted { path },
            Err(failure) => {
                let error = classify_io_error(failure, path.clone(), 0);
                self.directories_failed.push((path.clone(), error));
                Progress::DirectoryFailed { path }
            },
        }
    }

    /// Whether the permissions of the directories are applied: only where that was asked
    /// for, and never behind files that were not all handled.
    pub fn applies_permissions(&self, preserve: bool, dispatched: &OperationOutcome) -> (r: bool)
        ensures
            r == keeps_permissions(preserve, *dispatched),
    {
        preserve && dispatched.stopped_early.is_none()
    }

    /// The permissions to be applied, in order: a directory whose mode is not known keeps
    /// its own. They come behind the files, since a directory may forbid writing.
    pub fn permission_jobs(&self, dest_root: &FilePath) -> (r: Vec<(FilePath, u32)>)
        ensures
            permissions(self.directories@, *dest_root, r@),
    {
        let mut jobs: Vec<(FilePath, u32)> = Vec::new();
        let mut i: usize = 0;
        proof {
            reveal(Seq::filter);
        }
        assert(self.directories@.take(0) =~= Seq::<DirEntry>::empty());
        while i < self.directories.len()
            invariant
                i <= self.directories@.len(),
                permissions(self.directories@.take(i as int), *dest_root, jobs@),
            decreases self.directories@.len() - i,
        {
            let ghost before = with_mode(self.directories@.take(i as int));
            proof {
                reveal(Seq::filter);
                assert(self.directories@.take(i + 1).drop_last() =~= self.directories@.take(i as int));
                assert(self.directories@.take(i + 1).last() == self.directories@[i as int]);
            }
            if let Some(mode) = self.directories[i].mode {
                jobs.push((dest_path_for(&self.directories[i], dest_root), mode));
                assert(with_mode(self.directories@.take(i + 1)) =~= before.push(
                    self.directories@[i as int],
                ));
            }
            i = i + 1;
        }
        assert(self.directories@.take(self.directories@.len() as int) =~= self.directories@);
        jobs
    }

    /// Takes in what the permissions of the directory at `path` came to. A failure is
    /// kept, and never ends the operation.
    pub fn permission_applied(&mut self, path: FilePath, result: Result<(), IoFailure>)
        ensures
            final(self).rejected_entries == old(self).rejected_entries,
            final(self).directories == old(self).directories,
            final(self).to_create == old(self).to_create,
            directory_came_to(
                old(self).directories_failed@,
                final(self).directories_failed@,
                path,
                result,
            ),
    {
        if let Err(failure) = result {
            let error = classify_io_error(failure, path.clone(), 0);
            self.directories_failed.push((path, error));
        }
    }

    /// The outcome of the whole copy: the entries that were turned down come before those
    /// that failed, and every directory that failed is told of.
    pub fn finish(self, dispatched: OperationOutcome) -> (r: OperationOutcome)
        ensures
            r.succeeded == dispatched.succeeded,
            r.skipped == dispatched.skipped,
            r.failed@ == self.rejected_entries@ + dispatched.failed@,
            r.cleanup_failed == dispatched.cleanup_failed,
            r.stopped_early == dispatched.stopped_early,
            r.directories_failed == self.directories_failed,
            r.sources_failed == dispatched.sources_failed,
            r.duration == dispatched.duration,
    {
        let mut outcome = dispatched;
        let mut failed = self.rejected_entries;
        failed.append(&mut outcome.failed);
        outcome.failed = failed;
        outcome.directories_failed = self.directories_failed;
        outcome
    }
}

/// Whether the permissions of the directories are applied behind the files.
pub open spec fn keeps_permissions(preserve: bool, dispatched: OperationOutcome) -> bool {
    preserve && dispatched.stopped_early is None
}

/// The directories whose mode is known, in order.
pub open spec fn with_mode(directories: Seq<DirEntry>) -> Seq<DirEntry> {
    directories.filter(|d: DirEntry| d.mode is Some)
}

/// Whether `jobs` gives every directory with a known mode that mode, at its place below
/// `dest_root`.
pub open spec fn permissions(
    directories: Seq<DirEntry>,
    dest_root: FilePath,
    jobs: Seq<(FilePath, u32)>,
) -> bool {
    let known = with_mode(directories);
    &&& jobs.len() == known.len()
    &&& forall|i: int|
        0 <= i < jobs.len() ==> (#[trigger] jobs[i]).0.text@ == dest_text(
            known[i].relative_path,
            dest_root,
        ) && Some(jobs[i].1) == known[i].mode
}

/// Whether `out` is `entry` with its relative path taken from `base` on.
pub open spec fn rerooted(entry: Entry, base: FilePath, out: Entry) -> bool {
    &&& out.path == entry.path
    &&& out.size == entry.size
    &&& out.modified == entry.modified
    &&& out.relative_path.text@ == paths::join_text(base.text@, entry.relative_path.text@)
}

/// Whether `out` is `dir` with its relative path taken from `base` on; the root becomes
/// `base` itself.
pub open spec fn rerooted_dir(dir: DirEntry, base: FilePath, out: DirEntry) -> bool {
    &&& out.path == dir.path
    &&& out.mode == dir.mode
    &&& out.relative_path.text@ == dest_text(dir.relative_path, base)
}

/// Takes the relative paths of `entries` from `base` on.
fn prefix_entries(entries: Vec<Entry>, base: &FilePath) -> (r: Vec<Entry>)
    ensures
        r@.len() == entries@.len(),
        forall|i: int| 0 <= i < r@.len() ==> rerooted(entries@[i], *base, #[trigger] r@[i]),
{
    let ghost all = entries@;
    let mut out: Vec<Entry> = Vec::with_capacity(entries.len());
    for entry in it: entries
        invariant
            it.seq() == all,
            out@.len() == it.index(),
            forall|i: int| 0 <= i < out@.len() ==> rerooted(all[i], *base, #[trigger] out@[i]),
    {
        let relative_path = base.join(&entry.relative_path);
        out.push(
            Entry { path: entry.path, relative_path, size: entry.size, modified: entry.modified },
        );
    }
    out
}

/// Puts what was found in one source of several under that source's own name. A source
/// that is a file has that name already.
pub fn prefix_workload(workload: Workload, basename: &FilePath, is_file: bool) -> (r: Workload)
    ensures
        is_file ==> r == workload,
        !is_file ==> {
            &&& r.small@.len() == workload.small@.len()
            &&& r.large@.len() == workload.large@.len()
            &&& r.directories@.len() == workload.directories@.len()
            &&& forall|i: int|
                0 <= i < r.small@.len() ==> rerooted(
                    workload.small@[i],
                    *basename,
                    #[trigger] r.small@[i],
                )
            &&& forall|i: int|
                0 <= i < r.large@.len() ==> rerooted(
                    workload.large@[i],
                    *basename,
                    #[trigger] r.large@[i],
                )
            &&& forall|i: int|
                0 <= i < r.directories@.len() ==> rerooted_dir(
                    workload.directories@[i],
                    *basename,
                    #[trigger] r.directories@[i],
                )
        },
{
    if is_file {
        return workload;
    }
    let small = prefix_entries(workload.small, basename);
    let large = prefix_entries(workload.large, basename);
    let ghost all = workload.directories@;
    let mut directories: Vec<DirEntry> = Vec::with_capacity(workload.directories.len());
    for dir in it: workload.directories
        invariant
            it.seq() == all,
            directories@.len() == it.index(),
            forall|i: int|
                0 <= i < directories@.len() ==> rerooted_dir(
                    all[i],
                    *basename,
                    #[trigger] directories@[i],
                ),
    {
        let relative_path = dest_path_for(&dir, basename);
        directories.push(DirEntry { path: dir.path, relative_path, mode: dir.mode });
    }
    Workload { small, large, directories }
}

/// Adds the work of `next` behind that of `all`.
fn append_workload(all: &mut Workload, next: Workload)
    ensures
        final(all).small@ == old(all).small@ + next.small@,
        final(all).large@ == old(all).large@ + next.large@,
        final(all).directories@ == old(all).directories@ + next.directories@,
{
    let Workload { small, large, directories } = next;
    let mut small = small;
    let mut large = large;
    let mut directories = directories;
    all.small.append(&mut small);
    all.large.append(&mut large);
    all.directories.append(&mut directories);
}

/// Puts several workloads into one: the work of the first comes first.
pub fn merge_workloads(workloads: Vec<Workload>) -> (r: Workload)
    ensures
        r.small@ == workloads@.map_values(|w: Workload| w.small@).flatten(),
        r.large@ == workloads@.map_values(|w: Workload| w.large@).flatten(),
        r.directories@ == workloads@.map_values(|w: Workload| w.directories@).flatten(),
{
    let ghost all = workloads@;
    let mut merged = Workload { small: Vec::new(), large: Vec::new(), directories: Vec::new() };
    assert(merged.small@ =~= all.take(0).map_values(|w: Workload| w.small@).flatten());
    assert(merged.large@ =~= all.take(0).map_values(|w: Workload| w.large@).flatten());
    assert(merged.directories@ =~= all.take(0).map_values(|w: Workload| w.directories@).flatten());
    for workload in it: workloads
        invariant
            it.seq() == all,
            merged.small@ == all.take(it.index()).map_values(|w: Workload| w.small@).flatten(),
            merged.large@ == all.take(it.index()).map_values(|w: Workload| w.large@).flatten(),
            merged.directories@ == all.take(it.index()).map_values(
                |w: Workload| w.directories@,
            ).flatten(),
    {
        proof {
            let i = it.index();
            let next = all.take(i + 1);
            let now = all.take(i);
            assert(next.map_values(|w: Workload| w.small@) =~= now.map_values(
                |w: Workload| w.small@,
            ).push(workload.small@));
            assert(next.map_values(|w: Workload| w.large@) =~= now.map_values(
                |w: Workload| w.large@,
            ).push(workload.large@));
            assert(next.map_values(|w: Workload| w.directories@) =~= now.map_values(
                |w: Workload| w.directories@,
            ).push(workload.directories@));
            now.map_values(|w: Workload| w.small@).lemma_flatten_push(workload.small@);
            now.map_values(|w: Workload| w.large@).lemma_flatten_push(workload.large@);
            now.map_values(|w: Workload| w.directories@).lemma_flatten_push(
                workload.directories@,
            );
        }
        append_workload(&mut merged, workload);
    }
    assert(all.take(all.len() as int) =~= all);
    merged
}

/// Permissions are applied only where that was asked for, never behind files that were not
/// all handled, and always otherwise.
pub proof fn lemma_permissions_come_behind_all_files(preserve: bool, dispatched: OperationOutcome)
    ensures
        !preserve ==> !keeps_permissions(preserve, dispatched),
        dispatched.stopped_early is Some ==> !keeps_permissions(preserve, dispatched),
        preserve && dispatched.stopped_early is None ==> keeps_permissions(preserve, dispatched),
{
}

/// A directory is created by itself only where no file is copied below it, and no directory
/// is created that the workload does not have.
pub proof fn lemma_created_directories_are_empty(
    directories: Seq<DirEntry>,
    files: Seq<Entry>,
    dir: DirEntry,
    i: int,
)
    requires
        uncovered(directories, files).contains(dir),
        0 <= i < files.len(),
    ensures
        directories.contains(dir),
        !is_ancestor(dir.relative_path@, files[i].relative_path@),
{
    let keep = |d: DirEntry| !covers(files, d.relative_path@);
    let found = uncovered(directories, files);
    let k = choose|k: int| 0 <= k < found.len() && found[k] == dir;
    directories.lemma_filter_pred(keep, k);
    directories.lemma_filter_contains_rev(keep, dir);
    if is_ancestor(dir.relative_path@, files[i].relative_path@) {
        assert(covers(files, dir.relative_path@));
    }
}

/// A directory lies above everything that is reached from it by further names, and above
/// nothing else; never above itself.
pub proof fn lemma_ancestors_are_prefixes(dir: PathModel, path: PathModel, more: Seq<Seq<char>>)
    ensures
        more.len() > 0 ==> is_ancestor(
            dir,
            PathModel { rooted: dir.rooted, names: dir.names + more },
        ),
        !is_ancestor(path, path),
        is_ancestor(dir, path) ==> path.names == dir.names + path.names.skip(
            dir.names.len() as int,
        ) && path.rooted == dir.rooted && dir.names.len() < path.names.len(),
{
    assert((dir.names + more).take(dir.names.len() as int) =~= dir.names);
    if is_ancestor(dir, path) {
        assert(path.names =~= path.names.take(dir.names.len() as int) + path.names.skip(
            dir.names.len() as int,
        ));
    }
}

/// What lies at a relative path of the source goes to the same relative path below the
/// destination, and the root of the source to the destination itself.
pub proof fn lemma_tree_keeps_its_shape(relative: FilePath, dest_root: FilePath)
    ensures
        relative.text@.len() == 0 ==> dest_text(relative, dest_root) == dest_root.text@,
        relative.text@.len() > 0 ==> paths::path_of(dest_text(relative, dest_root))
            == paths::join_model(dest_root@, relative@),
{
    if relative.text@.len() > 0 {
        paths::lemma_join(dest_root.text@, relative.text@);
    }
}

/// Every directory whose mode is known gets that mode, at its place below the destination,
/// and no other mode is set.
pub proof fn lemma_every_known_mode_is_applied(
    directories: Seq<DirEntry>,
    dest_root: FilePath,
    jobs: Seq<(FilePath, u32)>,
    i: int,
)
    requires
        permissions(directories, dest_root, jobs),
        0 <= i < directories.len(),
    ensures
        directories[i].mode is Some ==> exists|k: int|
            0 <= k < jobs.len() && (#[trigger] jobs[k]).0.text@ == dest_text(
                directories[i].relative_path,
                dest_root,
            ) && jobs[k].1 == directories[i].mode->0,
        forall|k: int|
            0 <= k < jobs.len() ==> exists|d: int|
                0 <= d < directories.len() && (#[trigger] directories[d]).mode == Some(
                    (#[trigger] jobs[k]).1,
                ),
{
    let keep = |d: DirEntry| d.mode is Some;
    let known = with_mode(directories);
    if directories[i].mode is Some {
        directories.lemma_filter_contains(keep, i);
        let k = choose|k: int| 0 <= k < known.len() && known[k] == directories[i];
        assert(jobs[k].1 == directories[i].mode->0);
    }
    assert forall|k: int| 0 <= k < jobs.len() implies exists|d: int|
        0 <= d < directories.len() && (#[trigger] directories[d]).mode == Some(
            (#[trigger] jobs[k]).1,
        ) by {
        directories.lemma_filter_pred(keep, k);
        directories.lemma_filter_contains_rev(keep, known[k]);
        let d = choose|d: int| 0 <= d < directories.len() && directories[d] == known[k];
        assert(directories[d].mode == Some(jobs[k].1));
    }
}

/// What is put under the name of its source is still the same file; only the place that it
/// goes to lies below that name now.
pub proof fn lemma_rerooted_file_goes_below_the_name(entry: Entry, base: FilePath, out: Entry)
    requires
        rerooted(entry, base, out),
    ensures
        out.path == entry.path,
        out.size == entry.size,
        out.modified == entry.modified,
        out.relative_path@ == paths::join_model(base@, entry.relative_path@),
{
    paths::lemma_join(base.text@, entry.relative_path.text@);
}

/// A directory is reported as failed if and only if what was done to it failed, at its own
/// path and as it failed; what was reported before stays.
pub proof fn lemma_directory_is_reported_as_it_went(
    before: Seq<(FilePath, Error)>,
    after: Seq<(FilePath, Error)>,
    path: FilePath,
    result: Result<(), IoFailure>,
)
    requires
        directory_came_to(before, after, path, result),
    ensures
        result is Ok ==> after == before,
        result is Err ==> after.len() == before.len() + 1 && after.drop_last() == before
            && after.last().0 == path,
        result is Err ==> ((result->Err_0.kind == IoKind::PermissionDenied) == (after.last().1
            is PermissionDenied)) && ((result->Err_0.kind == IoKind::StorageFull) == (
        after.last().1 is NoSpace)),
{
    if result is Err {
        assert(after.drop_last() =~= before);
    }
}

/// Every directory that was turned down is reported, at its destination and with its reason,
/// and nothing else is.
pub proof fn lemma_rejected_directories_are_reported(
    rejected: Seq<(DirEntry, Error)>,
    dest_root: FilePath,
    failed: Seq<(FilePath, Error)>,
    i: int,
)
    requires
        rejected_paths(rejected, dest_root, failed),
        0 <= i < rejected.len(),
    ensures
        failed.len() == rejected.len(),
        failed[i].1 == rejected[i].1,
        failed[i].0.text@ == dest_text(rejected[i].0.relative_path, dest_root),
{
}

/// A file covers the directories above it: those whose names are the first of its own. The
/// files of two lists cover what either covers.
pub proof fn lemma_files_cover_what_is_above_them(
    files: Seq<Entry>,
    more: Seq<Entry>,
    dir: PathModel,
    i: int,
)
    ensures
        0 <= i < files.len() && dir.rooted == files[i].relative_path@.rooted && (exists|n: int|
            0 <= n < files[i].relative_path@.names.len() && dir.names
                == #[trigger] files[i].relative_path@.names.take(n)) ==> covers(files, dir),
        covers(files + more, dir) <==> covers(files, dir) || covers(more, dir),
        !covers(Seq::empty(), dir),
{
    if 0 <= i < files.len() && dir.rooted == files[i].relative_path@.rooted && (exists|n: int|
        0 <= n < files[i].relative_path@.names.len() && dir.names
            == #[trigger] files[i].relative_path@.names.take(n)) {
        assert(is_ancestor(dir, files[i].relative_path@));
    }
    let all = files + more;
    if covers(files, dir) {
        let k = choose|k: int|
            0 <= k < files.len() && is_ancestor(dir, #[trigger] files[k].relative_path@);
        assert(all[k] == files[k]);
    }
    if covers(more, dir) {
        let k = choose|k: int|
            0 <= k < more.len() && is_ancestor(dir, #[trigger] more[k].relative_path@);
        assert(all[files.len() + k] == more[k]);
    }
    if covers(all, dir) {
        let k = choose|k: int|
            0 <= k < all.len() && is_ancestor(dir, #[trigger] all[k].relative_path@);
        if k < files.len() {
            assert(is_ancestor(dir, files[k].relative_path@));
        } else {
            assert(is_ancestor(dir, more[k - files.len()].relative_path@));
        }
    }
}

/// A directory that is put under a name keeps its mode and stays the same directory on disk.
pub proof fn lemma_rerooted_directory_stays_the_same(dir: DirEntry, base: FilePath, out: DirEntry)
    requires
        rerooted_dir(dir, base, out),
    ensures
        out.path == dir.path,
        out.mode == dir.mode,
        out.relative_path.text@ == dest_text(dir.relative_path, base),
{
}

} // verus!

use vstd::hash_map::StringHashMap;
use vstd::multiset::Multiset;
use vstd::prelude::*;

use super::move_path::MoveOneOutcome;
use crate::error;
use crate::error::Error;
use crate::paths;
use crate::paths::FilePath;
use crate::planner::config;
use crate::planner::config::{BatchConfig, ErrorStrategy, SortOrder};
use crate::planner::outcome;
use crate::planner::outcome::{OperationOutcome, StopReason};
use crate::profiler::Workload;

verus! {

/// Whether the source at `j` has the name that the source at `i` has.
pub open spec fn same_name(sources: Seq<FilePath>, i: int, j: int) -> bool {
    paths::last_name(sources[i]@) == paths::last_name(sources[j]@)
}

/// Whether the source at `i` cannot be moved under its own name: it has none, or an
/// earlier source has it.
pub open spec fn is_bad_source(sources: Seq<FilePath>, i: int) -> bool {
    paths::last_name(sources[i]@) is None || exists|j: int| 0 <= j < i && same_name(sources, i, j)
}

/// Whether the source at `i` is the first that cannot be moved, and `error` says so.
pub open spec fn is_first_bad_source(sources: Seq<FilePath>, i: int, error: Error) -> bool {
    &&& 0 <= i < sources.len()
    &&& is_bad_source(sources, i)
    &&& forall|k: int| 0 <= k < i ==> !is_bad_source(sources, k)
    &&& if paths::last_name(sources[i]@) is None {
        error == (Error::InvalidSourceName { path: sources[i] })
    } else {
        exists|j: int|
            0 <= j < i && same_name(sources, i, j) && error == (Error::DuplicateSourceName {
                path: sources[i],
                other: sources[j],
            })
    }
}

/// The names that the sources keep under the destination. Both errors are found before
/// any source is touched.
pub fn basenames(sources: &Vec<FilePath>) -> (r: Result<Vec<FilePath>, Error>)
    ensures
        match r {
            Ok(names) => {
                &&& names@.len() == sources@.len()
                &&& forall|i: int|
                    0 <= i < names@.len() ==> paths::last_name(sources@[i]@) == Some(
                        (#[trigger] names@[i]).text@,
                    )
                &&& forall|i: int| 0 <= i < sources@.len() ==> !is_bad_source(sources@, i)
            },
            Err(error) => exists|i: int| is_first_bad_source(sources@, i, error),
        },
{
    let mut seen: StringHashMap<usize> = StringHashMap::new();
    let mut names: Vec<FilePath> = Vec::with_capacity(sources.len());
    let mut i: usize = 0;
    while i < sources.len()
        invariant
            i <= sources@.len(),
            names@.len() == i,
            forall|k: int|
                0 <= k < i ==> paths::last_name(sources@[k]@) == Some((#[trigger] names@[k]).text@),
            forall|k: int| 0 <= k < i ==> !is_bad_source(sources@, k),
            forall|k: int|
                0 <= k < i ==> seen@.contains_key((#[trigger] names@[k]).text@)
                    && seen@[names@[k].text@] == k,
            forall|name: Seq<char>| #[trigger]
                seen@.contains_key(name) ==> seen@[name] < i && names@[seen@[name] as int].text@
                    == name,
        decreases sources@.len() - i,
    {
        let name = match sources[i].file_name() {
            Some(name) => name,
            None => {
                let error = Error::InvalidSourceName { path: sources[i].clone() };
                assert(is_first_bad_source(sources@, i as int, error));
                return Err(error);
            },
        };
        if let Some(other) = seen.get(name.as_str()) {
            let other: usize = *other;
            let error = Error::DuplicateSourceName {
                path: sources[i].clone(),
                other: sources[other].clone(),
            };
            proof {
                assert(names@[other as int].text@ == name@);
                assert(same_name(sources@, i as int, other as int));
                assert(is_first_bad_source(sources@, i as int, error));
            }
            return Err(error);
        }
        assert(!is_bad_source(sources@, i as int)) by {
            assert forall|j: int| 0 <= j < i implies !same_name(sources@, i as int, j) by {
                assert(seen@.contains_key(names@[j].text@));
            }
        }
        seen.insert(name.clone(), i);
        names.push(FilePath { text: name });
        i = i + 1;
    }
    Ok(names)
}

/// A source that has to be copied to another device.
#[derive(Debug)]
pub struct PendingSource {
    pub source: FilePath,
    pub basename: FilePath,
    pub is_file: bool,
}

/// Moves several sources into one directory, each by a rename as far as that goes.
pub struct MoveMany {
    pub sources: Vec<FilePath>,
    pub basenames: Vec<FilePath>,
    pub dest: FilePath,
    pub strategy: ErrorStrategy,
    /// The source that is moved next.
    pub next: usize,
    pub sources_failed: Vec<(FilePath, Error)>,
    pub pending: Vec<PendingSource>,
    /// The sources that were renamed, with the paths that they have now.
    pub renamed: Vec<(FilePath, FilePath)>,
    /// The sources that were done with without a rename: the destination held the same.
    pub resolved: Ghost<Seq<FilePath>>,
    pub stopped_early: Option<StopReason>,
}

/// The sources of a list of failures.
pub open spec fn failed_sources(failed: Seq<(FilePath, Error)>) -> Seq<FilePath> {
    failed.map_values(|f: (FilePath, Error)| f.0)
}

/// The sources of a list of what has to be copied.
pub open spec fn pending_sources(pending: Seq<PendingSource>) -> Seq<FilePath> {
    pending.map_values(|p: PendingSource| p.source)
}

/// The sources of a list of renames.
pub open spec fn renamed_sources(renamed: Seq<(FilePath, FilePath)>) -> Seq<FilePath> {
    renamed.map_values(|r: (FilePath, FilePath)| r.0)
}

/// How the move goes on behind the renames.
pub enum MoveManyNext {
    Done { outcome: OperationOutcome },
    /// Look at what is pending, copy it in one run, and then remove what was copied.
    CopyAcross {
        pending: Vec<PendingSource>,
        sources_failed: Vec<(FilePath, Error)>,
        /// The sources that were renamed, with the paths that they have now.
        renamed: Vec<(FilePath, FilePath)>,
    },
}

/// Renames that take back `renamed`: the last comes first, and each goes from the path
/// that the source has now to the one that it had.
pub open spec fn takes_back(
    renamed: Seq<(FilePath, FilePath)>,
    steps: Seq<(FilePath, FilePath)>,
) -> bool {
    &&& steps.len() == renamed.len()
    &&& forall|i: int|
        0 <= i < steps.len() ==> (#[trigger] steps[i]).0 == renamed[renamed.len() - 1 - i].1
            && steps[i].1 == renamed[renamed.len() - 1 - i].0
}

fn undo_renames(renamed: &Vec<(FilePath, FilePath)>) -> (r: Vec<(FilePath, FilePath)>)
    ensures
        takes_back(renamed@, r@),
{
    let mut steps: Vec<(FilePath, FilePath)> = Vec::with_capacity(renamed.len());
    let mut i: usize = renamed.len();
    while i > 0
        invariant
            i <= renamed@.len(),
            steps@.len() == renamed@.len() - i,
            forall|j: int|
                0 <= j < steps@.len() ==> (#[trigger] steps@[j]).0 == renamed@[renamed@.len() - 1
                    - j].1 && steps@[j].1 == renamed@[renamed@.len() - 1 - j].0,
        decreases i,
    {
        i = i - 1;
        steps.push((renamed[i].1.clone(), renamed[i].0.clone()));
    }
    steps
}

impl MoveMany {
    pub open spec fn wf(self) -> bool {
        &&& self.basenames@.len() == self.sources@.len()
        &&& self.next <= self.sources@.len()
        &&& forall|i: int|
            0 <= i < self.sources@.len() ==> paths::last_name(self.sources@[i]@) == Some(
                (#[trigger] self.basenames@[i]).text@,
            )
        &&& forall|i: int| 0 <= i < self.sources@.len() ==> !is_bad_source(self.sources@, i)
        &&& self.settled() == self.sources@.take(self.next as int).to_multiset()
    }

    /// The sources that the move is done with, or that it has put off until they are copied.
    pub open spec fn settled(self) -> Multiset<FilePath> {
        failed_sources(self.sources_failed@).to_multiset().add(
            pending_sources(self.pending@).to_multiset(),
        ).add(renamed_sources(self.renamed@).to_multiset()).add(self.resolved@.to_multiset())
    }

    /// Whether `r` is the source that is moved next and the path that it is to have, and
    /// `stopped_early` why the move has ended behind that.
    pub open spec fn hands_out(
        self,
        stopped_early: Option<StopReason>,
        cancelled: bool,
        r: Option<(FilePath, FilePath)>,
    ) -> bool {
        if self.stopped_early is Some || self.next == self.sources@.len() {
            &&& r is None
            &&& stopped_early == self.stopped_early
        } else if cancelled {
            &&& r is None
            &&& stopped_early == Some(StopReason::Cancelled)
        } else {
            &&& r matches Some((source, target))
            &&& source == self.sources@[self.next as int]
            &&& target.text@ == paths::join_text(
                self.dest.text@,
                self.basenames@[self.next as int].text@,
            )
            &&& stopped_early is None
        }
    }

    /// Whether `after` is the state behind the report that the move of the next source came
    /// to `result`, and `steps` are the renames that take the earlier ones back.
    pub open spec fn takes_in(
        self,
        after: MoveMany,
        result: Result<MoveOneOutcome, Error>,
        is_file: bool,
        steps: Seq<(FilePath, FilePath)>,
    ) -> bool {
        let source = self.sources@[self.next as int];
        let basename = self.basenames@[self.next as int];
        match result {
            Ok(MoveOneOutcome::Resolved) => {
                &&& steps.len() == 0
                &&& after.sources_failed == self.sources_failed
                &&& after.pending == self.pending
                &&& after.renamed == self.renamed
                &&& after.stopped_early is None
            },
            Ok(MoveOneOutcome::Renamed) => {
                &&& steps.len() == 0
                &&& after.sources_failed == self.sources_failed
                &&& after.pending == self.pending
                &&& after.renamed@.len() == self.renamed@.len() + 1
                &&& after.renamed@.drop_last() == self.renamed@
                &&& after.renamed@.last().0 == source
                &&& after.renamed@.last().1.text@ == paths::join_text(
                    self.dest.text@,
                    basename.text@,
                )
                &&& after.stopped_early is None
            },
            Ok(MoveOneOutcome::CrossDevice) => {
                &&& steps.len() == 0
                &&& after.sources_failed == self.sources_failed
                &&& after.pending@ == self.pending@.push(
                    PendingSource { source, basename, is_file },
                )
                &&& after.renamed == self.renamed
                &&& after.stopped_early is None
            },
            Err(error) => {
                let reason = outcome::reason_for(self.strategy, error);
                &&& after.sources_failed@ == self.sources_failed@.push(
                    (source, error),
                )
                &&& after.pending == self.pending
                &&& after.renamed == self.renamed
                &&& after.stopped_early == reason
                &&& if reason is Some && self.strategy == ErrorStrategy::Undo {
                    takes_back(self.renamed@, steps)
                } else {
                    steps.len() == 0
                }
            },
        }
        
    }

    /// Whether the sources and where they go are as they were.
    pub open spec fn same_job(self, other: MoveMany) -> bool {
        &&& self.sources == other.sources
        &&& self.basenames == other.basenames
        &&& self.dest == other.dest
        &&& self.strategy == other.strategy
    }

    /// A move that has touched nothing yet, or the error where a source has no name of its
    /// own.
    pub fn new(sources: Vec<FilePath>, dest: FilePath, strategy: ErrorStrategy) -> (r: Result<
        MoveMany,
        Error,
    >)
        ensures
            match r {
                Ok(job) => {
                    &&& job.wf()
                    &&& job.sources == sources
                    &&& job.dest == dest
                    &&& job.strategy == strategy
                    &&& job.next == 0
                    &&& job.sources_failed@.len() == 0
                    &&& job.pending@.len() == 0
                    &&& job.renamed@.len() == 0
                    &&& job.resolved@.len() == 0
                    &&& job.stopped_early is None
                    &&& forall|i: int| 0 <= i < sources@.len() ==> !is_bad_source(sources@, i)
                },
                Err(error) => exists|i: int| is_first_bad_source(sources@, i, error),
            },
    {
        match basenames(&sources) {
            Err(error) => Err(error),
            Ok(basenames) => {
                let job = MoveMany {
                    sources,
                    basenames,
                    dest,
                    strategy,
                    next: 0,
                    sources_failed: Vec::new(),
                    pending: Vec::new(),
                    renamed: Vec::new(),
                    resolved: Ghost(Seq::empty()),
                    stopped_early: None,
                };
                proof {
                    broadcast use vstd::seq_lib::group_to_multiset_ensures;

                    let none = Seq::<FilePath>::empty();
                    assert(failed_sources(job.sources_failed@) =~= none);
                    assert(pending_sources(job.pending@) =~= none);
                    assert(renamed_sources(job.renamed@) =~= none);
                    assert(sources@.take(0) =~= none);
                    assert(job.settled() =~= none.to_multiset());
                }
                Ok(job)
            },
        }
    }

    /// The source that is moved next and the path that it is to have, or `None` where the
    /// renames are over. A cancelled move starts no further source.
    pub fn next_source(&mut self, cancelled: bool) -> (r: Option<(FilePath, FilePath)>)
        requires
            old(self).wf(),
        ensures
            final(self).wf(),
            final(self).same_job(*old(self)),
            final(self).next == old(self).next,
            final(self).sources_failed == old(self).sources_failed,
            final(self).pending == old(self).pending,
            final(self).renamed == old(self).renamed,
            final(self).resolved == old(self).resolved,
            old(self).hands_out(final(self).stopped_early, cancelled, r),
    {
        if self.stopped_early.is_some() || self.next == self.sources.len() {
            return None;
        }
        if cancelled {
            self.stopped_early = Some(StopReason::Cancelled);
            return None;
        }
        let source = self.sources[self.next].clone();
        let target = self.dest.join(&self.basenames[self.next]);
        Some((source, target))
    }

    /// Takes in what the move of the next source came to, and gives the renames that take
    /// the earlier ones back. `is_file` matters where the source has to be copied.
    ///
    /// A failure is kept, and ends the move of all sources as the error strategy says. Under
    /// `Undo` every source that was renamed is then renamed back, whether the failure is
    /// fatal or not.
    pub fn record(&mut self, result: Result<MoveOneOutcome, Error>, is_file: bool) -> (r: Vec<
        (FilePath, FilePath),
    >)
        requires
            old(self).wf(),
            old(self).stopped_early is None,
            old(self).next < old(self).sources@.len(),
        ensures
            final(self).wf(),
            final(self).same_job(*old(self)),
            final(self).next == old(self).next + 1,
            final(self).resolved@ == match result {
                Ok(MoveOneOutcome::Resolved) => old(self).resolved@.push(
                    old(self).sources@[old(self).next as int],
                ),
                _ => old(self).resolved@,
            },
            old(self).takes_in(*final(self), result, is_file, r@),
    {
        assert(self.sources@.len() == self.sources.len());
        let position: usize = self.next;
        self.next = position + 1;
        let ghost all = self.sources@;
        let ghost source = self.sources@[position as int];
        let ghost before = *self;
        proof {
            assert(all.take(position + 1) =~= all.take(position as int).push(source));
            all.take(position as int).to_multiset_ensures();
        }
        match result {
            Ok(MoveOneOutcome::Resolved) => {
                self.resolved = Ghost(self.resolved@.push(source));
                proof {
                    before.resolved@.to_multiset_ensures();
                    assert(self.settled() =~= before.settled().insert(source));
                }
                Vec::new()
            },
            Ok(MoveOneOutcome::Renamed) => {
                let source = self.sources[position].clone();
                let target = self.dest.join(&self.basenames[position]);
                self.renamed.push((source, target));
                assert(self.renamed@.drop_last() =~= old(self).renamed@);
                proof {
                    renamed_sources(before.renamed@).to_multiset_ensures();
                    assert(renamed_sources(self.renamed@) =~= renamed_sources(before.renamed@).push(
                        source,
                    ));
                    assert(self.settled() =~= before.settled().insert(source));
                }
                Vec::new()
            },
            Ok(MoveOneOutcome::CrossDevice) => {
                self.pending.push(
                    PendingSource {
                        source: self.sources[position].clone(),
                        basename: self.basenames[position].clone(),
                        is_file,
                    },
                );
                proof {
                    pending_sources(before.pending@).to_multiset_ensures();
                    assert(pending_sources(self.pending@) =~= pending_sources(before.pending@).push(
                        source,
                    ));
                    assert(self.settled() =~= before.settled().insert(source));
                }
                Vec::new()
            },
            Err(error) => {
                let reason = outcome::stop_reason_for(self.strategy, &error);
                self.sources_failed.push((self.sources[position].clone(), error));
                self.stopped_early = reason;
                proof {
                    failed_sources(before.sources_failed@).to_multiset_ensures();
                    assert(failed_sources(self.sources_failed@) =~= failed_sources(
                        before.sources_failed@,
                    ).push(source));
                    assert(self.settled() =~= before.settled().insert(source));
                }
                match (reason, self.strategy) {
                    (Some(_), ErrorStrategy::Undo) => undo_renames(&self.renamed),
                    _ => Vec::new(),
                }
            },
        }
    }

    /// Whether `next` is how the move goes on behind the renames.
    pub open spec fn goes_on(self, next: MoveManyNext) -> bool {
        if self.stopped_early is Some || self.pending@.len() == 0 {
            &&& next is Done
            &&& next->outcome.stopped_early == self.stopped_early
            &&& next->outcome.sources_failed == self.sources_failed
            &&& next->outcome.succeeded@.len() == 0
            &&& next->outcome.skipped@.len() == 0
            &&& next->outcome.failed@.len() == 0
            &&& next->outcome.cleanup_failed@.len() == 0
            &&& next->outcome.directories_failed@.len() == 0
            &&& next->outcome.duration.length() == 0
        } else {
            next == (MoveManyNext::CopyAcross {
                pending: self.pending,
                sources_failed: self.sources_failed,
                renamed: self.renamed,
            })
        }
    }

    /// How the move goes on once no source is left to be renamed, or the renames were
    /// stopped: what was renamed is not reported one by one.
    pub fn conclude(self) -> (r: MoveManyNext)
        ensures
            self.goes_on(r),
    {
        if self.stopped_early.is_some() || self.pending.is_empty() {
            let mut outcome = OperationOutcome::default();
            outcome.sources_failed = self.sources_failed;
            outcome.stopped_early = self.stopped_early;
            return MoveManyNext::Done { outcome };
        }
        MoveManyNext::CopyAcross {
            pending: self.pending,
            sources_failed: self.sources_failed,
            renamed: self.renamed,
        }
    }
}

/// Whether the scan of `source` is kept as `after` behind the failures `before`, and the move
/// goes on with `r`.
pub open spec fn scan_came_to(
    before: Seq<(FilePath, Error)>,
    after: Seq<(FilePath, Error)>,
    source: PendingSource,
    scan: Result<Workload, Error>,
    strategy: ErrorStrategy,
    r: Result<Workload, Option<StopReason>>,
) -> bool {
    match scan {
        Ok(found) => {
            &&& r == Ok::<Workload, Option<StopReason>>(found)
            &&& after == before
        },
        Err(error) => {
            &&& r == Err::<Workload, Option<StopReason>>(outcome::reason_for(strategy, error))
            &&& after == before.push((source.source, error))
        },
    }
}

/// Takes in what the scan of a source that has to be copied came to: what it found, or why
/// the whole move stops behind a scan that failed, `None` where it goes on with the other
/// sources. The failure is kept either way: a source that cannot be scanned, for instance
/// because it vanished since its rename was tried, fails as a whole.
pub fn record_scan(
    failed: &mut Vec<(FilePath, Error)>,
    source: &PendingSource,
    scan: Result<Workload, Error>,
    strategy: ErrorStrategy,
) -> (r: Result<Workload, Option<StopReason>>)
    ensures
        scan_came_to(old(failed)@, final(failed)@, *source, scan, strategy, r),
{
    match scan {
        Ok(found) => Ok(found),
        Err(error) => {
            let reason = outcome::stop_reason_for(strategy, &error);
            failed.push((source.source.clone(), error));
            Err(reason)
        },
    }
}

/// What a move comes to that a failed scan stops before anything is copied, and the renames
/// that take the earlier ones back.
pub fn stopped_by_scan(
    reason: StopReason,
    sources_failed: Vec<(FilePath, Error)>,
    renamed: &Vec<(FilePath, FilePath)>,
    strategy: ErrorStrategy,
) -> (r: (OperationOutcome, Vec<(FilePath, FilePath)>))
    ensures
        r.0.stopped_early == Some(reason),
        r.0.sources_failed == sources_failed,
        r.0.succeeded@.len() == 0,
        r.0.skipped@.len() == 0,
        r.0.failed@.len() == 0,
        r.0.cleanup_failed@.len() == 0,
        r.0.directories_failed@.len() == 0,
        r.0.duration.length() == 0,
        if strategy == ErrorStrategy::Undo {
            takes_back(renamed@, r.1@)
        } else {
            r.1@.len() == 0
        },
        strategy == ErrorStrategy::Undo ==> r.1@.len() == renamed@.len(),
        strategy != ErrorStrategy::Undo ==> r.1@.len() == 0,
{
    let mut outcome = OperationOutcome::default();
    outcome.sources_failed = sources_failed;
    outcome.stopped_early = Some(reason);
    let steps = match strategy {
        ErrorStrategy::Undo => undo_renames(renamed),
        _ => Vec::new(),
    };
    (outcome, steps)
}

/// Every source that the move came to is in one list alone, and there once: it failed, it
/// waits to be copied, it was renamed, or it needed no move.
pub proof fn lemma_every_source_is_settled_once(job: MoveMany, i: int)
    requires
        job.wf(),
        0 <= i < job.next,
    ensures
        ({
            let source = job.sources@[i];
            failed_sources(job.sources_failed@).to_multiset().count(source) + pending_sources(
                job.pending@,
            ).to_multiset().count(source) + renamed_sources(job.renamed@).to_multiset().count(source)
                + job.resolved@.to_multiset().count(source) == 1
        }),
{
    broadcast use vstd::seq_lib::group_to_multiset_ensures;

    let came_to = job.sources@.take(job.next as int);
    assert forall|a: int, b: int| 0 <= a < b < came_to.len() implies came_to[a] != came_to[b] by {
        assert(!is_bad_source(job.sources@, b));
        assert(came_to[a] == job.sources@[a] && came_to[b] == job.sources@[b]);
        assert(!same_name(job.sources@, b, a));
    }
    assert(came_to.no_duplicates());
    came_to.lemma_multiset_has_no_duplicates();
    assert(came_to[i] == job.sources@[i]);
    assert(came_to.contains(job.sources@[i]));
    assert(came_to.to_multiset().contains(job.sources@[i]));
}

/// A source that the move did not come to is in no list.
pub proof fn lemma_later_sources_are_untouched(job: MoveMany, i: int)
    requires
        job.wf(),
        job.next <= i < job.sources@.len(),
    ensures
        !job.settled().contains(job.sources@[i]),
{
    broadcast use vstd::seq_lib::group_to_multiset_ensures;

    let came_to = job.sources@.take(job.next as int);
    if came_to.to_multiset().contains(job.sources@[i]) {
        assert(came_to.contains(job.sources@[i]));
        let a = choose|a: int| 0 <= a < came_to.len() && came_to[a] == job.sources@[i];
        assert(!is_bad_source(job.sources@, i));
        assert(same_name(job.sources@, i, a));
    }
}

/// Taking the renames back gives every renamed source the path that it had.
pub proof fn lemma_every_rename_is_taken_back(
    renamed: Seq<(FilePath, FilePath)>,
    steps: Seq<(FilePath, FilePath)>,
    i: int,
)
    requires
        takes_back(renamed, steps),
        0 <= i < renamed.len(),
    ensures
        steps.contains((renamed[i].1, renamed[i].0)),
{
    let j = renamed.len() - 1 - i;
    assert(steps[j] == (renamed[i].1, renamed[i].0));
}

/// The outcome of a move of several sources behind the copy across devices and its sweep.
pub fn with_failed_sources(outcome: OperationOutcome, sources_failed: Vec<(FilePath, Error)>) -> (r:
    OperationOutcome)
    ensures
        r == (OperationOutcome { sources_failed, ..outcome }),
{
    OperationOutcome { sources_failed, ..outcome }
}

/// Names that are accepted are all different: no source is moved over another.
pub proof fn lemma_targets_are_distinct(job: MoveMany, i: int, j: int)
    requires
        job.wf(),
        0 <= i < j < job.sources@.len(),
    ensures
        job.basenames@[i].text@ != job.basenames@[j].text@,
{
    assert(!is_bad_source(job.sources@, j));
    if job.basenames@[i].text@ == job.basenames@[j].text@ {
        assert(same_name(job.sources@, j, i));
    }
}

/// Settings of a move of several sources into one directory, where each keeps its last
/// name.
#[derive(Debug)]
pub struct MoveManyBuilder {
    pub sources: Vec<FilePath>,
    pub dest: FilePath,
    pub overwrite: bool,
    pub skip_if_identical: bool,
    pub preserve_permissions: bool,
    pub allow_filesystem_integrity_risk: bool,
    pub small_file_threshold: Option<u64>,
    pub batch_config: BatchConfig,
    pub concurrency: Option<usize>,
}

impl MoveManyBuilder {
    /// A move that refuses destinations that exist.
    pub fn new(sources: Vec<FilePath>, dest: FilePath) -> (r: MoveManyBuilder)
        ensures
            r == (MoveManyBuilder {
                sources,
                dest,
                overwrite: false,
                skip_if_identical: false,
                preserve_permissions: false,
                allow_filesystem_integrity_risk: false,
                small_file_threshold: None,
                batch_config: config::default_config(),
                concurrency: None,
            }),
    {
        MoveManyBuilder {
            sources,
            dest,
            overwrite: false,
            skip_if_identical: false,
            preserve_permissions: false,
            allow_filesystem_integrity_risk: false,
            small_file_threshold: None,
            batch_config: BatchConfig::default(),
            concurrency: None,
        }
    }

    pub fn overwrite(self, overwrite: bool) -> (r: MoveManyBuilder)
        ensures
            r == (MoveManyBuilder { overwrite, ..self }),
    {
        MoveManyBuilder { overwrite, ..self }
    }

    /// Whether a destination that holds the same content already is left alone rather than
    /// refused. A different one is still refused.
    pub fn skip_if_identical(self, skip: bool) -> (r: MoveManyBuilder)
        ensures
            r == (MoveManyBuilder { skip_if_identical: skip, ..self }),
    {
        MoveManyBuilder { skip_if_identical: skip, ..self }
    }

    /// Whether the permissions of files and directories are kept.
    pub fn preserve_permissions(self, preserve: bool) -> (r: MoveManyBuilder)
        ensures
            r == (MoveManyBuilder { preserve_permissions: preserve, ..self }),
    {
        MoveManyBuilder { preserve_permissions: preserve, ..self }
    }

    /// Whether to write to a file system with a known write-integrity issue.
    pub fn allow_filesystem_integrity_risk(self, allow: bool) -> (r: MoveManyBuilder)
        ensures
            r == (MoveManyBuilder { allow_filesystem_integrity_risk: allow, ..self }),
    {
        MoveManyBuilder { allow_filesystem_integrity_risk: allow, ..self }
    }

    /// Files of at most this many bytes are batched.
    pub fn small_file_threshold(self, bytes: u64) -> (r: MoveManyBuilder)
        ensures
            r == (MoveManyBuilder { small_file_threshold: Some(bytes), ..self }),
    {
        MoveManyBuilder { small_file_threshold: Some(bytes), ..self }
    }

    pub fn max_bytes_per_batch(self, bytes: u64) -> (r: MoveManyBuilder)
        ensures
            r == (MoveManyBuilder {
                batch_config: (BatchConfig { max_bytes_per_batch: bytes, ..self.batch_config }),
                ..self
            }),
    {
        let mut out = self;
        out.batch_config.max_bytes_per_batch = bytes;
        out
    }

    pub fn max_files_per_batch(self, n: usize) -> (r: MoveManyBuilder)
        ensures
            r == (MoveManyBuilder {
                batch_config: (BatchConfig { max_files_per_batch: Some(n), ..self.batch_config }),
                ..self
            }),
    {
        let mut out = self;
        out.batch_config.max_files_per_batch = Some(n);
        out
    }

    pub fn batch_sort_order(self, order: SortOrder) -> (r: MoveManyBuilder)
        ensures
            r == (MoveManyBuilder {
                batch_config: (BatchConfig { sort_order: order, ..self.batch_config }),
                ..self
            }),
    {
        let mut out = self;
        out.batch_config.sort_order = order;
        out
    }

    /// What a failure of one entry does to the rest.
    pub fn on_error(self, strategy: ErrorStrategy) -> (r: MoveManyBuilder)
        ensures
            r == (MoveManyBuilder {
                batch_config: (BatchConfig { error_strategy: strategy, ..self.batch_config }),
                ..self
            }),
    {
        let mut out = self;
        out.batch_config.error_strategy = strategy;
        out
    }

    /// How many units of work run at a time.
    pub fn batch_concurrency(self, n: usize) -> (r: MoveManyBuilder)
        ensures
            r == (MoveManyBuilder { concurrency: Some(n), ..self }),
    {
        MoveManyBuilder { concurrency: Some(n), ..self }
    }
}

/// The sources are moved in order, each under its own name below the destination. None is
/// started once the move has ended or was cancelled, and one is as long as any is left.
pub proof fn lemma_sources_are_moved_in_order(
    job: MoveMany,
    stopped_early: Option<StopReason>,
    cancelled: bool,
    r: Option<(FilePath, FilePath)>,
)
    requires
        job.wf(),
        job.hands_out(stopped_early, cancelled, r),
    ensures
        r is Some <==> job.stopped_early is None && !cancelled && job.next < job.sources@.len(),
        r matches Some((source, target)) ==> source == job.sources@[job.next as int]
            && paths::path_of(target.text@) == paths::join_model(
            job.dest@,
            paths::path_of(paths::last_name(source@)->0),
        ),
        stopped_early != job.stopped_early ==> cancelled && stopped_early == Some(
            StopReason::Cancelled,
        ) && job.next < job.sources@.len(),
        cancelled && job.stopped_early is None && job.next < job.sources@.len()
            ==> stopped_early == Some(StopReason::Cancelled),
{
    if r is Some {
        let name = job.basenames@[job.next as int].text@;
        assert(paths::last_name(job.sources@[job.next as int]@) == Some(name));
        paths::lemma_join(job.dest.text@, name);
    }
}

/// A source is kept as what its move came to: a failure with its error, one that was renamed
/// with the path that it has now, and one on another device to be copied. Renames are taken
/// back exactly where a failure ends the move and that was asked for, the last one first.
pub proof fn lemma_source_is_kept_as_what_it_came_to(
    job: MoveMany,
    after: MoveMany,
    result: Result<MoveOneOutcome, Error>,
    is_file: bool,
    steps: Seq<(FilePath, FilePath)>,
)
    requires
        job.wf(),
        job.next < job.sources@.len(),
        job.takes_in(after, result, is_file, steps),
    ensures
        ({
            let source = job.sources@[job.next as int];
            &&& after.sources_failed@.len() == job.sources_failed@.len() + if result is Err {
                1int
            } else {
                0
            }
            &&& after.renamed@.len() == job.renamed@.len() + if result == Ok::<
                MoveOneOutcome,
                Error,
            >(MoveOneOutcome::Renamed) {
                1int
            } else {
                0
            }
            &&& after.pending@.len() == job.pending@.len() + if result == Ok::<
                MoveOneOutcome,
                Error,
            >(MoveOneOutcome::CrossDevice) {
                1int
            } else {
                0
            }
            &&& result is Err ==> after.sources_failed@.last() == (source, result->Err_0)
            &&& result == Ok::<MoveOneOutcome, Error>(MoveOneOutcome::CrossDevice)
                ==> after.pending@.last().source == source && after.pending@.last().is_file
                == is_file
            &&& result == Ok::<MoveOneOutcome, Error>(MoveOneOutcome::Renamed)
                ==> after.renamed@.last().0 == source
        }),
        after.stopped_early is Some ==> result is Err,
        result is Err ==> (after.stopped_early is None <==> job.strategy
            == ErrorStrategy::ContinueAndCollect && !error::fatal(result->Err_0)),
        result is Err && job.strategy == ErrorStrategy::Undo ==> takes_back(job.renamed@, steps),
        !(result is Err && job.strategy == ErrorStrategy::Undo) ==> steps.len() == 0,
{
}

/// A source is refused if and only if it has no name of its own or an earlier source has the
/// same name: the first of several never is for that.
pub proof fn lemma_only_later_namesakes_are_refused(sources: Seq<FilePath>, i: int, j: int)
    requires
        0 <= j < i < sources.len(),
    ensures
        paths::last_name(sources[i]@) == paths::last_name(sources[j]@) ==> is_bad_source(sources, i),
        paths::last_name(sources[0]@) is Some ==> !is_bad_source(sources, 0),
        paths::last_name(sources[i]@) is None ==> is_bad_source(sources, i),
        paths::last_name(sources[i]@) is Some && (forall|k: int|
            0 <= k < i ==> paths::last_name((#[trigger] sources[k])@) != paths::last_name(
                sources[i]@,
            )) ==> !is_bad_source(sources, i),
{
    if paths::last_name(sources[i]@) == paths::last_name(sources[j]@) {
        assert(same_name(sources, i, j));
    }
    if is_bad_source(sources, i) && paths::last_name(sources[i]@) is Some {
        let k = choose|k: int| 0 <= k < i && same_name(sources, i, k);
        assert(paths::last_name(sources[k]@) == paths::last_name(sources[i]@));
    }
}

/// Sources on another device are copied unless the move was stopped, and every one of them;
/// otherwise the move is over, with the reason why it was stopped. The failures of the renames
/// are kept either way.
pub proof fn lemma_pending_sources_are_copied(job: MoveMany, next: MoveManyNext)
    requires
        job.goes_on(next),
    ensures
        next is CopyAcross <==> job.stopped_early is None && job.pending@.len() > 0,
        next is CopyAcross ==> next->pending == job.pending && next->sources_failed
            == job.sources_failed && next->renamed == job.renamed,
        next is Done ==> next->outcome.stopped_early == job.stopped_early
            && next->outcome.sources_failed == job.sources_failed,
{
}

/// A source that cannot be scanned is kept as failed with its own error, and the move goes on
/// with the others only where failures are collected and this one is not fatal.
pub proof fn lemma_failed_scan_is_kept(
    before: Seq<(FilePath, Error)>,
    after: Seq<(FilePath, Error)>,
    source: PendingSource,
    scan: Result<Workload, Error>,
    strategy: ErrorStrategy,
    r: Result<Workload, Option<StopReason>>,
)
    requires
        scan_came_to(before, after, source, scan, strategy, r),
    ensures
        r is Ok <==> scan is Ok,
        r is Ok ==> r->Ok_0 == scan->Ok_0 && after == before,
        r is Err ==> after.len() == before.len() + 1 && after.last() == (
            source.source,
            scan->Err_0,
        ) && after.drop_last() == before,
        r is Err ==> (r->Err_0 is None <==> strategy == ErrorStrategy::ContinueAndCollect
            && !error::fatal(scan->Err_0)),
{
    if r is Err {
        assert(after.drop_last() =~= before);
    }
}

/// No step of a move changes its sources, where they go, or its strategy.
pub proof fn lemma_job_stays(before: MoveMany, after: MoveMany)
    requires
        after.same_job(before),
    ensures
        after.sources == before.sources,
        after.basenames == before.basenames,
        after.dest == before.dest,
        after.strategy == before.strategy,
{
}

/// A list of sources is refused for the first that cannot be moved: one without a name as
/// such, and one whose name was taken together with the source that took it.
pub proof fn lemma_refusal_names_the_source(sources: Seq<FilePath>, i: int, error: Error)
    requires
        is_first_bad_source(sources, i, error),
    ensures
        error is InvalidSourceName <==> paths::last_name(sources[i]@) is None,
        error matches Error::InvalidSourceName { path } ==> path == sources[i],
        error is DuplicateSourceName <==> paths::last_name(sources[i]@) is Some,
        error matches Error::DuplicateSourceName { path, other } ==> path == sources[i]
            && paths::last_name(other@) == paths::last_name(sources[i]@),
        forall|k: int| 0 <= k < i ==> paths::last_name((#[trigger] sources[k])@) is Some,
{
    assert forall|k: int| 0 <= k < i implies paths::last_name((#[trigger] sources[k])@) is Some by {
        assert(!is_bad_source(sources, k));
    }
}

/// A move that is over behind its renames reports failed sources and nothing else.
pub proof fn lemma_renames_are_not_reported(job: MoveMany, next: MoveManyNext)
    requires
        job.goes_on(next),
        next is Done,
    ensures
        next->outcome.succeeded@.len() == 0,
        next->outcome.skipped@.len() == 0,
        next->outcome.failed@.len() == 0,
        next->outcome.cleanup_failed@.len() == 0,
        next->outcome.directories_failed@.len() == 0,
        next->outcome.duration.length() == 0,
{
}

} // verus!

use vstd::prelude::*;

use crate::error;
use crate::error::{classify_io_error, Error, IoFailure, IoKind};
use crate::paths;
use crate::paths::{FilePath, PathModel};
use crate::profiler::Entry;

verus! {

/// What became of one entry that did not fail.
#[derive(Debug, Clone, Copy, PartialEq, Eq, Structural)]
pub enum EntryOutcome {
    Written,
    /// The destination already held the same content and was left alone.
    Skipped,
}

/// How one entry is copied.
#[derive(Debug, Clone, Copy, PartialEq, Eq, Structural)]
pub struct CopyAction {
    pub overwrite: bool,
    /// Only matters without `overwrite`: a destination with the same content is no
    /// conflict.
    pub skip_if_identical: bool,
}

/// What is done next to copy an entry.
#[derive(Debug)]
pub enum CopyStep {
    /// Create this directory and those above it, where they are missing.
    CreateParent { parent: FilePath },
    /// Ask for the size of what is at the destination.
    ProbeDest,
    /// Compare the contents of source and destination.
    CompareContent,
    /// Copy the file.
    CopyFile,
    Finished { result: Result<EntryOutcome, Error> },
}

/// What a step came to.
#[derive(Debug)]
#[allow(inconsistent_fields)]
pub enum CopyEvent {
    /// A directory was created or a file was copied, or not.
    Done { result: Result<(), IoFailure> },
    /// The size of what is at the destination.
    Probed { result: Result<u64, IoFailure> },
    /// Whether the contents are the same.
    Compared { result: Result<bool, Error> },
}

/// Whether the event is one that the step can come to.
pub open spec fn answers(step: CopyStep, event: CopyEvent) -> bool {
    match step {
        CopyStep::CreateParent { .. } => event is Done,
        CopyStep::ProbeDest => event is Probed,
        CopyStep::CompareContent => event is Compared,
        CopyStep::CopyFile => event is Done,
        CopyStep::Finished { .. } => false,
    }
}

impl CopyAction {
    /// The step behind the parent directory: without `overwrite` the destination is
    /// looked at before anything is written.
    pub open spec fn guarded_copy(self) -> CopyStep {
        if self.overwrite {
            CopyStep::CopyFile
        } else {
            CopyStep::ProbeDest
        }
    }

    /// The step that follows `step`, for the entry whose destination is `dest`.
    pub open spec fn following(
        self,
        entry: Entry,
        dest: FilePath,
        step: CopyStep,
        event: CopyEvent,
    ) -> CopyStep {
        match (step, event) {
            (CopyStep::CreateParent { parent }, CopyEvent::Done { result }) => match result {
                Ok(_) => self.guarded_copy(),
                Err(failure) => CopyStep::Finished {
                    result: Err(error::io_error(failure, parent, 0)),
                },
            },
            (CopyStep::ProbeDest, CopyEvent::Probed { result }) => match result {
                Ok(size) => if self.skip_if_identical && size == entry.size {
                    CopyStep::CompareContent
                } else {
                    CopyStep::Finished { result: Err(Error::DestExists { path: dest }) }
                },
                Err(failure) => if failure.kind == IoKind::NotFound {
                    CopyStep::CopyFile
                } else {
                    CopyStep::Finished { result: Err(error::io_error(failure, dest, 0)) }
                },
            },
            (CopyStep::CompareContent, CopyEvent::Compared { result }) => match result {
                Ok(true) => CopyStep::Finished { result: Ok(EntryOutcome::Skipped) },
                Ok(false) => CopyStep::Finished { result: Err(Error::DestExists { path: dest }) },
                Err(error) => CopyStep::Finished { result: Err(error) },
            },
            (CopyStep::CopyFile, CopyEvent::Done { result }) => match result {
                Ok(_) => CopyStep::Finished { result: Ok(EntryOutcome::Written) },
                Err(failure) => CopyStep::Finished {
                    result: Err(error::io_error(failure, entry.path, entry.size)),
                },
            },
            _ => step,
        }
    }

    /// Where an entry is copied to. It is also the file whose growth shows how far a
    /// streamed entry is.
    pub fn progress_target(&self, entry: &Entry, dest_root: &FilePath) -> (r: FilePath)
        ensures
            r.text@ == paths::join_text(dest_root.text@, entry.relative_path.text@),
            r@ == paths::join_model(dest_root@, entry.relative_path@),
    {
        dest_root.join(&entry.relative_path)
    }

    /// Whether `step` is the first towards a copy at `dest`.
    pub open spec fn begins(self, dest: PathModel, step: CopyStep) -> bool {
        match paths::parent_of(dest) {
            Some(parent) => step is CreateParent && step->parent@ == parent,
            None => step == self.guarded_copy(),
        }
    }

    /// The first step towards a copy at `dest`.
    pub fn first_step(&self, dest: &FilePath) -> (r: CopyStep)
        ensures
            self.begins(dest@, r),
    {
        match dest.parent() {
            Some(parent) => CopyStep::CreateParent { parent },
            None => if self.overwrite {
                CopyStep::CopyFile
            } else {
                CopyStep::ProbeDest
            },
        }
    }

    /// The step that follows `step`, which came to `event`. An existing destination fails
    /// the entry, or is left alone where identical content is to be skipped; only a missing
    /// one is written.
    pub fn next_step(&self, entry: &Entry, dest: &FilePath, step: CopyStep, event: CopyEvent) -> (r:
        CopyStep)
        requires
            answers(step, event),
        ensures
            r == self.following(*entry, *dest, step, event),
    {
        match (step, event) {
            (CopyStep::CreateParent { parent }, CopyEvent::Done { result }) => match result {
                Ok(_) => if self.overwrite {
                    CopyStep::CopyFile
                } else {
                    CopyStep::ProbeDest
                },
                Err(failure) => CopyStep::Finished {
                    result: Err(classify_io_error(failure, parent, 0)),
                },
            },
            (CopyStep::ProbeDest, CopyEvent::Probed { result }) => match result {
                Ok(size) => if self.skip_if_identical && size == entry.size {
                    CopyStep::CompareContent
                } else {
                    CopyStep::Finished { result: Err(Error::DestExists { path: dest.clone() }) }
                },
                Err(failure) => match failure.kind {
                    IoKind::NotFound => CopyStep::CopyFile,
                    _ => CopyStep::Finished {
                        result: Err(classify_io_error(failure, dest.clone(), 0)),
                    },
                },
            },
            (CopyStep::CompareContent, CopyEvent::Compared { result }) => match result {
                Ok(identical) => if identical {
                    CopyStep::Finished { result: Ok(EntryOutcome::Skipped) }
                } else {
                    CopyStep::Finished { result: Err(Error::DestExists { path: dest.clone() }) }
                },
                Err(error) => CopyStep::Finished { result: Err(error) },
            },
            (CopyStep::CopyFile, CopyEvent::Done { result }) => match result {
                Ok(_) => CopyStep::Finished { result: Ok(EntryOutcome::Written) },
                Err(failure) => CopyStep::Finished {
                    result: Err(classify_io_error(failure, entry.path.clone(), entry.size)),
                },
            },
            (step, _) => step,
        }
    }
}

/// Without `overwrite` a file is copied only after its destination was found to be
/// missing.
pub proof fn lemma_existing_destination_is_kept(
    action: CopyAction,
    entry: Entry,
    dest: FilePath,
    step: CopyStep,
    event: CopyEvent,
)
    requires
        !action.overwrite,
        answers(step, event),
        action.following(entry, dest, step, event) is CopyFile,
    ensures
        step is ProbeDest,
        event matches CopyEvent::Probed { result } && result matches Err(failure) && failure.kind
            == IoKind::NotFound,
{
}

/// Takes a removal for done where the file is gone already.
pub open spec fn removal_result(result: Result<(), IoFailure>, path: FilePath) -> Result<(), Error> {
    match result {
        Ok(_) => Ok(()),
        Err(failure) => if failure.kind == IoKind::NotFound {
            Ok(())
        } else {
            Err(error::io_error(failure, path, 0))
        },
    }
}

/// What the removal of the file at `path` came to: a file that is gone already is no
/// failure. This ends the undoing of a copy, the removal of a moved source, and that of
/// an orphan.
pub fn removed(result: Result<(), IoFailure>, path: &FilePath) -> (r: Result<(), Error>)
    ensures
        r == removal_result(result, *path),
{
    match result {
        Ok(_) => Ok(()),
        Err(failure) => match failure.kind {
            IoKind::NotFound => Ok(()),
            _ => Err(classify_io_error(failure, path.clone(), 0)),
        },
    }
}

/// An entry is reported as written only behind a copy that was made, and as skipped only
/// behind a comparison that found the same content; both are reported where that happened.
pub proof fn lemma_success_is_earned(
    action: CopyAction,
    entry: Entry,
    dest: FilePath,
    step: CopyStep,
    event: CopyEvent,
)
    requires
        answers(step, event),
    ensures
        action.following(entry, dest, step, event) == (CopyStep::Finished {
            result: Ok(EntryOutcome::Written),
        }) <==> step is CopyFile && (event matches CopyEvent::Done { result } && result is Ok),
        action.following(entry, dest, step, event) == (CopyStep::Finished {
            result: Ok(EntryOutcome::Skipped),
        }) <==> event == (CopyEvent::Compared { result: Ok(true) }),
{
}

/// An existing destination whose size is not that of the entry fails the entry, and so does
/// every existing destination where identical content is not to be skipped. Only where the
/// sizes are the same and identical content is to be skipped are the contents compared, and
/// a difference fails the entry then.
pub proof fn lemma_different_destination_is_a_conflict(
    action: CopyAction,
    entry: Entry,
    dest: FilePath,
    size: u64,
)
    ensures
        size != entry.size || !action.skip_if_identical ==> action.following(
            entry,
            dest,
            CopyStep::ProbeDest,
            CopyEvent::Probed { result: Ok(size) },
        ) == (CopyStep::Finished { result: Err(Error::DestExists { path: dest }) }),
        size == entry.size && action.skip_if_identical ==> action.following(
            entry,
            dest,
            CopyStep::ProbeDest,
            CopyEvent::Probed { result: Ok(size) },
        ) is CompareContent,
        action.following(
            entry,
            dest,
            CopyStep::CompareContent,
            CopyEvent::Compared { result: Ok(false) },
        ) == (CopyStep::Finished { result: Err(Error::DestExists { path: dest }) }),
{
}

/// A failure is never passed over: it ends the entry with the error that it stands for. The
/// one exception is a destination that is found to be missing, and that is copied to.
pub proof fn lemma_no_failure_is_passed_over(
    action: CopyAction,
    entry: Entry,
    dest: FilePath,
    step: CopyStep,
    event: CopyEvent,
)
    requires
        answers(step, event),
    ensures
        match event {
            CopyEvent::Done { result: Err(failure) } => action.following(entry, dest, step, event)
                == (CopyStep::Finished {
                result: Err(
                    match step {
                        CopyStep::CreateParent { parent } => error::io_error(failure, parent, 0),
                        _ => error::io_error(failure, entry.path, entry.size),
                    },
                ),
            }),
            CopyEvent::Probed { result: Err(failure) } => if failure.kind == IoKind::NotFound {
                action.following(entry, dest, step, event) is CopyFile
            } else {
                action.following(entry, dest, step, event) == (CopyStep::Finished {
                    result: Err(error::io_error(failure, dest, 0)),
                })
            },
            CopyEvent::Compared { result: Err(error) } => action.following(
                entry,
                dest,
                step,
                event,
            ) == (CopyStep::Finished { result: Err(error) }),
            _ => true,
        },
{
}

/// How many steps are left at most.
pub open spec fn steps_left(step: CopyStep) -> nat {
    match step {
        CopyStep::CreateParent { .. } => 3,
        CopyStep::ProbeDest => 2,
        CopyStep::CompareContent => 1,
        CopyStep::CopyFile => 1,
        CopyStep::Finished { .. } => 0,
    }
}

/// A copy comes to its end: every step leads on, and to none that lies behind it. With
/// `overwrite` the destination is never looked at, without it always before the copy.
pub proof fn lemma_copy_comes_to_its_end(
    action: CopyAction,
    entry: Entry,
    dest: FilePath,
    step: CopyStep,
    event: CopyEvent,
)
    requires
        answers(step, event),
    ensures
        steps_left(action.following(entry, dest, step, event)) < steps_left(step),
        step is CreateParent && (event matches CopyEvent::Done { result } && result is Ok) ==> {
            let next = action.following(entry, dest, step, event);
            if action.overwrite {
                next is CopyFile
            } else {
                next is ProbeDest
            }
        },
        action.guarded_copy() is CopyFile <==> action.overwrite,
        action.guarded_copy() is ProbeDest <==> !action.overwrite,
{
}

/// The removal of a file is done if and only if the file is gone: a failure is told, unless
/// it says that there was no such file.
pub proof fn lemma_removal_is_done_where_the_file_is_gone(
    result: Result<(), IoFailure>,
    path: FilePath,
)
    ensures
        removal_result(result, path) is Ok <==> result is Ok || result->Err_0.kind
            == IoKind::NotFound,
        result is Err && result->Err_0.kind != IoKind::NotFound ==> removal_result(result, path)
            == Err::<(), Error>(error::io_error(result->Err_0, path, 0)),
{
}

/// A copy begins with the directory above its destination, where there is one. No first step
/// writes to a destination that may not be overwritten.
pub proof fn lemma_copy_begins_with_the_parent(action: CopyAction, dest: PathModel, step: CopyStep)
    requires
        action.begins(dest, step),
    ensures
        step is CreateParent <==> dest.names.len() > 0,
        step is CreateParent ==> step->parent@.rooted == dest.rooted && step->parent@.names
            == dest.names.drop_last(),
        step is CopyFile ==> action.overwrite,
        !(step is Finished),
        dest.names.len() == 0 && !action.overwrite ==> step is ProbeDest,
{
}

} // verus!

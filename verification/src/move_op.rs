use vstd::prelude::*;

use crate::error;
use crate::error::{classify_io_error, Error, IoFailure};
use crate::paths::FilePath;

verus! {

/// Settings of a move that copies in one stream where it cannot rename.
#[derive(Debug)]
pub struct MoveBuilder {
    pub src: FilePath,
    pub dst: FilePath,
    pub overwrite: bool,
    pub buffer_size: usize,
    pub follow_symlinks: bool,
    pub preserve_permissions: bool,
}

/// What the source of a move is.
#[derive(Debug, Clone, Copy, PartialEq, Eq, Structural)]
pub enum SourceKind {
    Directory,
    Symlink,
    File,
}

/// How a source is copied: a symbolic link that is not followed is copied as a link.
#[derive(Debug, Clone, Copy, PartialEq, Eq, Structural)]
pub enum CopyKind {
    Tree,
    Link,
    File,
}

/// What a move does next.
#[derive(Debug)]
pub enum MoveStep {
    /// Look whether the destination exists.
    ProbeDest,
    Rename,
    /// Look what the source is.
    StatSource,
    Copy { kind: CopyKind },
    /// Give the copy the permissions of the source, while that still exists.
    KeepPermissions { kind: CopyKind },
    /// Remove the source.
    Remove { kind: CopyKind },
    Finished { result: Result<(), Error> },
}

/// What the step of a move came to.
#[derive(Debug)]
#[allow(inconsistent_fields)]
pub enum MoveEvent {
    /// `false` too where it could not be told.
    Probed { exists: bool },
    Renamed { done: bool },
    Statted { result: Result<SourceKind, IoFailure> },
    Copied { result: Result<(), Error> },
    PermissionsKept { result: Result<(), Error> },
    Removed { result: Result<(), IoFailure> },
}

/// Whether the event answers the step.
pub open spec fn answers(step: MoveStep, event: MoveEvent) -> bool {
    match step {
        MoveStep::ProbeDest => event is Probed,
        MoveStep::Rename => event is Renamed,
        MoveStep::StatSource => event is Statted,
        MoveStep::Copy { .. } => event is Copied,
        MoveStep::KeepPermissions { .. } => event is PermissionsKept,
        MoveStep::Remove { .. } => event is Removed,
        MoveStep::Finished { .. } => false,
    }
}

impl MoveBuilder {
    /// A move that refuses a destination that exists.
    pub fn new(src: FilePath, dst: FilePath, buffer_size: usize, follow_symlinks: bool) -> (r:
        MoveBuilder)
        ensures
            r == (MoveBuilder {
                src,
                dst,
                overwrite: false,
                buffer_size,
                follow_symlinks,
                preserve_permissions: false,
            }),
    {
        MoveBuilder {
            src,
            dst,
            overwrite: false,
            buffer_size,
            follow_symlinks,
            preserve_permissions: false,
        }
    }

    pub fn overwrite(self, enabled: bool) -> (r: MoveBuilder)
        ensures
            r == (MoveBuilder { overwrite: enabled, ..self }),
    {
        MoveBuilder { overwrite: enabled, ..self }
    }

    /// Whether the copy gets the permissions of the source.
    pub fn preserve_permissions(self, enabled: bool) -> (r: MoveBuilder)
        ensures
            r == (MoveBuilder { preserve_permissions: enabled, ..self }),
    {
        MoveBuilder { preserve_permissions: enabled, ..self }
    }

    /// How a source of that kind is copied.
    pub open spec fn copy_kind(self, kind: SourceKind) -> CopyKind {
        match kind {
            SourceKind::Directory => CopyKind::Tree,
            SourceKind::Symlink => if self.follow_symlinks {
                CopyKind::File
            } else {
                CopyKind::Link
            },
            SourceKind::File => CopyKind::File,
        }
    }

    /// What comes after a step: the move renames, and copies only where that fails. The
    /// source is removed last.
    pub open spec fn following(self, step: MoveStep, event: MoveEvent) -> MoveStep {
        match (step, event) {
            (MoveStep::ProbeDest, MoveEvent::Probed { exists }) => if exists {
                MoveStep::Finished { result: Err(Error::DestExists { path: self.dst }) }
            } else {
                MoveStep::Rename
            },
            (MoveStep::Rename, MoveEvent::Renamed { done }) => if done {
                MoveStep::Finished { result: Ok(()) }
            } else {
                MoveStep::StatSource
            },
            (MoveStep::StatSource, MoveEvent::Statted { result: Ok(kind) }) => MoveStep::Copy {
                kind: self.copy_kind(kind),
            },
            (MoveStep::StatSource, MoveEvent::Statted { result: Err(failure) }) =>
                MoveStep::Finished { result: Err(error::io_error(failure, self.src, 0)) },
            (MoveStep::Copy { kind }, MoveEvent::Copied { result: Ok(_) }) => if self.preserve_permissions
                && kind != CopyKind::Link {
                MoveStep::KeepPermissions { kind }
            } else {
                MoveStep::Remove { kind }
            },
            (MoveStep::Copy { .. }, MoveEvent::Copied { result: Err(error) }) =>
                MoveStep::Finished { result: Err(error) },
            (
                MoveStep::KeepPermissions { kind },
                MoveEvent::PermissionsKept { result: Ok(_) },
            ) => MoveStep::Remove { kind },
            (
                MoveStep::KeepPermissions { .. },
                MoveEvent::PermissionsKept { result: Err(error) },
            ) => MoveStep::Finished { result: Err(error) },
            (MoveStep::Remove { .. }, MoveEvent::Removed { result: Ok(_) }) => MoveStep::Finished {
                result: Ok(()),
            },
            (MoveStep::Remove { .. }, MoveEvent::Removed { result: Err(failure) }) =>
                MoveStep::Finished { result: Err(error::io_error(failure, self.src, 0)) },
            (step, _) => step,
        }
    }

    /// How the move begins.
    pub open spec fn first(self) -> MoveStep {
        if self.overwrite {
            MoveStep::Rename
        } else {
            MoveStep::ProbeDest
        }
    }

    /// How the move begins: a destination that may be overwritten is not looked for.
    pub fn first_step(&self) -> (r: MoveStep)
        ensures
            r == self.first(),
    {
        if self.overwrite {
            MoveStep::Rename
        } else {
            MoveStep::ProbeDest
        }
    }

    /// What comes after a step.
    pub fn next_step(&self, step: MoveStep, event: MoveEvent) -> (r: MoveStep)
        requires
            answers(step, event),
        ensures
            r == self.following(step, event),
    {
        match (step, event) {
            (MoveStep::ProbeDest, MoveEvent::Probed { exists }) => if exists {
                MoveStep::Finished { result: Err(Error::DestExists { path: self.dst.clone() }) }
            } else {
                MoveStep::Rename
            },
            (MoveStep::Rename, MoveEvent::Renamed { done }) => if done {
                MoveStep::Finished { result: Ok(()) }
            } else {
                MoveStep::StatSource
            },
            (MoveStep::StatSource, MoveEvent::Statted { result }) => match result {
                Ok(kind) => MoveStep::Copy {
                    kind: match kind {
                        SourceKind::Directory => CopyKind::Tree,
                        SourceKind::Symlink => if self.follow_symlinks {
                            CopyKind::File
                        } else {
                            CopyKind::Link
                        },
                        SourceKind::File => CopyKind::File,
                    },
                },
                Err(failure) => MoveStep::Finished {
                    result: Err(classify_io_error(failure, self.src.clone(), 0)),
                },
            },
            (MoveStep::Copy { kind }, MoveEvent::Copied { result }) => match result {
                Ok(_) => if self.preserve_permissions && kind != CopyKind::Link {
                    MoveStep::KeepPermissions { kind }
                } else {
                    MoveStep::Remove { kind }
                },
                Err(error) => MoveStep::Finished { result: Err(error) },
            },
            (MoveStep::KeepPermissions { kind }, MoveEvent::PermissionsKept { result }) =>
                match result {
                    Ok(_) => MoveStep::Remove { kind },
                    Err(error) => MoveStep::Finished { result: Err(error) },
                },
            (MoveStep::Remove { .. }, MoveEvent::Removed { result }) => match result {
                Ok(_) => MoveStep::Finished { result: Ok(()) },
                Err(failure) => MoveStep::Finished {
                    result: Err(classify_io_error(failure, self.src.clone(), 0)),
                },
            },
            (step, _) => step,
        }
    }
}

/// The source is removed only behind a copy that succeeded, and behind its permissions where
/// these are to be kept.
pub proof fn lemma_source_is_removed_last(builder: MoveBuilder, step: MoveStep, event: MoveEvent)
    requires
        answers(step, event),
        builder.following(step, event) is Remove,
    ensures
        match step {
            MoveStep::Copy { kind } => (event matches MoveEvent::Copied { result } && result is Ok)
                && (!builder.preserve_permissions || kind == CopyKind::Link),
            MoveStep::KeepPermissions { .. } => event matches MoveEvent::PermissionsKept {
                result,
            } && result is Ok,
            _ => false,
        },
{
}

/// Where overwriting is not allowed, nothing is renamed before the destination was found to
/// be missing.
pub proof fn lemma_existing_destination_is_refused(
    builder: MoveBuilder,
    step: MoveStep,
    event: MoveEvent,
)
    requires
        answers(step, event),
        builder.following(step, event) is Rename,
    ensures
        step is ProbeDest,
        event == (MoveEvent::Probed { exists: false }),
{
}

/// A move succeeds only by what was done: behind a rename that was made, or behind the
/// removal of a source that was copied before.
pub proof fn lemma_move_reports_what_was_done(
    builder: MoveBuilder,
    step: MoveStep,
    event: MoveEvent,
)
    requires
        answers(step, event),
    ensures
        (builder.following(step, event) matches MoveStep::Finished { result } && result is Ok)
            <==> event == (MoveEvent::Renamed { done: true }) || (event matches MoveEvent::Removed {
            result,
        } && result is Ok),
        builder.following(step, event) is StatSource <==> event == (MoveEvent::Renamed {
            done: false,
        }),
        builder.following(step, event) is Copy <==> (event matches MoveEvent::Statted { result }
            && result is Ok),
        builder.following(step, event) is Remove <==> (event matches MoveEvent::PermissionsKept {
            result,
        } && result is Ok) || ((event matches MoveEvent::Copied { result } && result is Ok) && !(
        builder.preserve_permissions && step != (MoveStep::Copy { kind: CopyKind::Link }))),
        builder.following(step, event) is KeepPermissions <==> (event matches MoveEvent::Copied {
            result,
        } && result is Ok) && builder.preserve_permissions && step != (MoveStep::Copy {
            kind: CopyKind::Link,
        }),
{
}

/// No failure is passed over but that of the rename, behind which the move copies: it ends
/// the move with its error, and a destination that exists ends it with the conflict.
pub proof fn lemma_move_passes_over_no_failure(
    builder: MoveBuilder,
    step: MoveStep,
    event: MoveEvent,
)
    requires
        answers(step, event),
    ensures
        ({
            let next = builder.following(step, event);
            match event {
                MoveEvent::Probed { exists } => if exists {
                    next == (MoveStep::Finished {
                        result: Err(Error::DestExists { path: builder.dst }),
                    })
                } else {
                    next is Rename
                },
                MoveEvent::Statted { result: Err(failure) } => next == (MoveStep::Finished {
                    result: Err(error::io_error(failure, builder.src, 0)),
                }),
                MoveEvent::Copied { result: Err(error) } => next == (MoveStep::Finished {
                    result: Err(error),
                }),
                MoveEvent::PermissionsKept { result: Err(error) } => next == (MoveStep::Finished {
                    result: Err(error),
                }),
                MoveEvent::Removed { result: Err(failure) } => next == (MoveStep::Finished {
                    result: Err(error::io_error(failure, builder.src, 0)),
                }),
                _ => true,
            }
        }),
{
}

/// What was copied is what is removed: the kind of the source stays the same from the copy
/// on.
pub proof fn lemma_kind_stays(builder: MoveBuilder, step: MoveStep, event: MoveEvent)
    requires
        answers(step, event),
    ensures
        match (step, builder.following(step, event)) {
            (MoveStep::Copy { kind }, MoveStep::KeepPermissions { kind: next }) => next == kind,
            (MoveStep::Copy { kind }, MoveStep::Remove { kind: next }) => next == kind,
            (MoveStep::KeepPermissions { kind }, MoveStep::Remove { kind: next }) => next == kind,
            (MoveStep::StatSource, MoveStep::Copy { kind }) => event matches MoveEvent::Statted {
                result: Ok(found),
            } && kind == builder.copy_kind(found),
            _ => true,
        },
{
}

/// A source is copied as what it is: a directory as a tree, and a symbolic link as a link
/// exactly where links are not followed.
pub proof fn lemma_source_is_copied_as_what_it_is(builder: MoveBuilder, kind: SourceKind)
    ensures
        builder.copy_kind(kind) == CopyKind::Tree <==> kind == SourceKind::Directory,
        builder.copy_kind(kind) == CopyKind::Link <==> kind == SourceKind::Symlink
            && !builder.follow_symlinks,
        builder.copy_kind(kind) == CopyKind::File <==> kind == SourceKind::File || (kind
            == SourceKind::Symlink && builder.follow_symlinks),
{
}

/// How many steps of a move are left at most.
pub open spec fn steps_left(step: MoveStep) -> nat {
    match step {
        MoveStep::ProbeDest => 6,
        MoveStep::Rename => 5,
        MoveStep::StatSource => 4,
        MoveStep::Copy { .. } => 3,
        MoveStep::KeepPermissions { .. } => 2,
        MoveStep::Remove { .. } => 1,
        MoveStep::Finished { .. } => 0,
    }
}

/// A move comes to its end: every step leads on, and to none that lies behind it.
pub proof fn lemma_move_comes_to_its_end(builder: MoveBuilder, step: MoveStep, event: MoveEvent)
    requires
        answers(step, event),
    ensures
        steps_left(builder.following(step, event)) < steps_left(step),
{
}

/// A move that may not overwrite looks at the destination before it renames anything.
pub proof fn lemma_move_looks_before_it_renames(builder: MoveBuilder)
    ensures
        builder.first() is Rename <==> builder.overwrite,
        builder.first() is ProbeDest <==> !builder.overwrite,
{
}

} // verus!

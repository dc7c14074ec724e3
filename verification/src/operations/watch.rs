use vstd::prelude::*;

use crate::error;
use crate::error::{classify_read_error, Error, IoFailure, IoKind};
use crate::paths::FilePath;

verus! {

/// Settings of a watch.
#[derive(Debug)]
pub struct WatchBuilder {
    pub path: FilePath,
    pub recursive: bool,
}

impl WatchBuilder {
    /// A watch of `path` and everything below it.
    pub fn new(path: FilePath) -> (r: WatchBuilder)
        ensures
            r == (WatchBuilder { path, recursive: true }),
    {
        WatchBuilder { path, recursive: true }
    }

    /// Whether everything below the path is watched too.
    pub fn recursive(self, recursive: bool) -> (r: WatchBuilder)
        ensures
            r == (WatchBuilder { recursive, ..self }),
    {
        WatchBuilder { recursive, ..self }
    }
}

/// Why a watch failed.
#[derive(Debug)]
#[allow(inconsistent_fields)]
pub enum WatchFailure {
    PathNotFound,
    Io { failure: IoFailure },
    /// Anything else, and what the system says of it.
    Other { message: String },
}

/// The error that a failure to watch `path` stands for.
pub open spec fn watch_error(failure: WatchFailure, path: FilePath) -> Error {
    match failure {
        WatchFailure::PathNotFound => Error::SourceNotFound { path },
        WatchFailure::Io { failure } => error::read_error(failure, path),
        WatchFailure::Other { message } => Error::Io {
            path,
            source: IoFailure { kind: IoKind::Other, message },
        },
    }
}

/// Maps a failure to watch `path` to the engine's error.
pub fn classify_watch_failure(failure: WatchFailure, path: FilePath) -> (r: Error)
    ensures
        r == watch_error(failure, path),
{
    match failure {
        WatchFailure::PathNotFound => Error::SourceNotFound { path },
        WatchFailure::Io { failure } => classify_read_error(failure, path),
        WatchFailure::Other { message } => Error::Io {
            path,
            source: IoFailure { kind: IoKind::Other, message },
        },
    }
}

/// What ends a watch.
#[derive(Debug)]
pub enum WatchEnd {
    Cancelled,
    /// The watcher failed for good, or went away without an error.
    Stopped { error: Option<Error> },
}

/// The error that a watch ended with.
pub open spec fn watch_failed(end: WatchEnd) -> Option<Error> {
    match end {
        WatchEnd::Stopped { error: Some(error) } => Some(error),
        _ => None,
    }
}

/// What a watch came to: only an error of the watcher makes it fail.
pub fn watch_result(end: WatchEnd) -> (r: Result<(), Error>)
    ensures
        match watch_failed(end) {
            Some(error) => r == Err::<(), Error>(error),
            None => r == Ok::<(), Error>(()),
        },
{
    match end {
        WatchEnd::Stopped { error: Some(error) } => Err(error),
        _ => Ok(()),
    }
}

/// A failure to watch is told at the watched path and never ends as if the disk were full;
/// what the system said of any other failure is kept.
pub proof fn lemma_watch_error_is_told_at_the_path(failure: WatchFailure, path: FilePath)
    ensures
        error::error_path(watch_error(failure, path)) == path.text@,
        !error::fatal(watch_error(failure, path)),
        failure is PathNotFound ==> watch_error(failure, path) is SourceNotFound,
        failure matches WatchFailure::Io { failure: io } ==> ((io.kind == IoKind::NotFound)
            == (watch_error(failure, path) is SourceNotFound)) && ((io.kind
            == IoKind::PermissionDenied) == (watch_error(failure, path) is PermissionDenied)),
        failure matches WatchFailure::Other { message } ==> (watch_error(
            failure,
            path,
        ) matches Error::Io { source, .. } && source.message == message),
{
}

/// A watch fails exactly with the error of its watcher: a caller who cancels it gets none.
pub proof fn lemma_watch_fails_only_with_its_watcher(end: WatchEnd)
    ensures
        end is Cancelled ==> watch_failed(end) is None,
        end matches WatchEnd::Stopped { error } ==> watch_failed(end) == error,
{
}

} // verus!

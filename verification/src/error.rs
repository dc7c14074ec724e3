use vstd::prelude::*;
use vstd::string::*;

use crate::os_text;
use crate::paths::FilePath;
use crate::text;

verus! {

/// The kinds of I/O failure that the engine tells apart.
#[derive(Debug, Clone, Copy, PartialEq, Eq, Structural)]
pub enum IoKind {
    NotFound,
    PermissionDenied,
    StorageFull,
    CrossesDevices,
    Other,
}

/// An I/O failure: its kind, and what the system says of it.
#[derive(Debug)]
pub struct IoFailure {
    pub kind: IoKind,
    pub message: String,
}

/// Why an operation, or one entry of it, failed.
#[derive(Debug)]
#[allow(inconsistent_fields)]
pub enum Error {
    SourceNotFound { path: FilePath },
    DestExists { path: FilePath },
    Cancelled,
    NoSpace { needed: u64, available: u64 },
    PermissionDenied { path: FilePath },
    Io { path: FilePath, source: IoFailure },
    /// No archive format goes with the destination's extension.
    UnknownCompressFormat { path: FilePath },
    InvalidGlobPattern { pattern: String, source: String },
    GzipRequiresFile { path: FilePath },
    /// Two names differ by case only, and the destination cannot hold both.
    CaseCollision { path: FilePath, other: FilePath },
    FileTooLargeForDest { path: FilePath, size: u64, max: u64 },
    ReservedName { path: FilePath },
    /// A risk of the whole destination, not of one entry.
    FilesystemIntegrityRisk { filesystem: String },
    /// Two sources would take the same name in the destination.
    DuplicateSourceName { path: FilePath, other: FilePath },
    /// A source has no last name to be moved under.
    InvalidSourceName { path: FilePath },
    /// A removal without any criterion would match every entry.
    RemoveCriteriaRequired,
    TrashFailed { path: FilePath, source: String },
}

impl Clone for IoFailure {
    fn clone(&self) -> (r: Self)
        ensures
            r == *self,
    {
        IoFailure { kind: self.kind, message: self.message.clone() }
    }
}

/// Whether an error ends the whole operation, whatever the error strategy.
pub open spec fn fatal(error: Error) -> bool {
    match error {
        Error::Cancelled => true,
        Error::NoSpace { .. } => true,
        Error::FilesystemIntegrityRisk { .. } => true,
        Error::DuplicateSourceName { .. } => true,
        Error::InvalidSourceName { .. } => true,
        _ => false,
    }
}

/// The error that an I/O failure on `path` stands for, where `needed` bytes were
/// to be written.
pub open spec fn io_error(failure: IoFailure, path: FilePath, needed: u64) -> Error {
    match failure.kind {
        IoKind::NotFound => Error::SourceNotFound { path },
        IoKind::PermissionDenied => Error::PermissionDenied { path },
        IoKind::StorageFull => Error::NoSpace { needed, available: 0 },
        _ => Error::Io { path, source: failure },
    }
}

/// Maps an I/O failure to the engine's error. `needed` only matters where the
/// destination is full; how much room was left is not asked for.
pub fn classify_io_error(failure: IoFailure, path: FilePath, needed: u64) -> (r: Error)
    ensures
        r == io_error(failure, path, needed),
{
    match failure.kind {
        IoKind::NotFound => Error::SourceNotFound { path },
        IoKind::PermissionDenied => Error::PermissionDenied { path },
        IoKind::StorageFull => Error::NoSpace { needed, available: 0 },
        _ => Error::Io { path, source: failure },
    }
}

/// The error that a failure to read `path` stands for: a full disk is no special
/// case where nothing is written.
pub open spec fn read_error(failure: IoFailure, path: FilePath) -> Error {
    match failure.kind {
        IoKind::NotFound => Error::SourceNotFound { path },
        IoKind::PermissionDenied => Error::PermissionDenied { path },
        _ => Error::Io { path, source: failure },
    }
}

/// Maps a failure to read `path` to the engine's error.
pub fn classify_read_error(failure: IoFailure, path: FilePath) -> (r: Error)
    ensures
        r == read_error(failure, path),
{
    match failure.kind {
        IoKind::NotFound => Error::SourceNotFound { path },
        IoKind::PermissionDenied => Error::PermissionDenied { path },
        _ => Error::Io { path, source: failure },
    }
}

/// Whether `result` is the error that a failure to walk a tree stands for. Where the failure
/// names no path, the path is empty. One that is no I/O failure is reported with `message`.
pub open spec fn is_walk_error(
    result: Error,
    failure: Option<IoFailure>,
    path: Option<FilePath>,
    message: Seq<char>,
) -> bool {
    let at = match path {
        Some(path) => path.text@,
        None => Seq::empty(),
    };
    match failure {
        Some(failure) => exists|p: FilePath|
            p.text@ == at && result == #[trigger] io_error(failure, p, 0),
        None => result matches Error::Io { path: p, source } && p.text@ == at && source.kind
            == IoKind::Other && source.message@ == message,
    }
}

/// Maps a failure to walk a tree to the engine's error.
pub fn classify_walk_failure(
    failure: Option<IoFailure>,
    path: Option<FilePath>,
    message: &str,
) -> (r: Error)
    ensures
        is_walk_error(r, failure, path, message@),
{
    let at = match path {
        Some(path) => path,
        None => FilePath::empty(),
    };
    match failure {
        Some(failure) => classify_io_error(failure, at, 0),
        None => Error::Io {
            path: at,
            source: IoFailure { kind: IoKind::Other, message: message.to_owned() },
        },
    }
}

/// The path that a walk error is about: the empty path where the error names none.
pub open spec fn error_path(error: Error) -> Seq<char> {
    match error {
        Error::SourceNotFound { path } => path.text@,
        Error::DestExists { path } => path.text@,
        Error::PermissionDenied { path } => path.text@,
        Error::Io { path, .. } => path.text@,
        _ => Seq::empty(),
    }
}

impl Error {
    /// Fatal errors stop all remaining work regardless of the error strategy; any
    /// other error is handled as the strategy says.
    pub fn is_fatal(&self) -> (r: bool)
        ensures
            r == fatal(*self),
    {
        match self {
            Error::Cancelled => true,
            Error::NoSpace { .. } => true,
            Error::FilesystemIntegrityRisk { .. } => true,
            Error::DuplicateSourceName { .. } => true,
            Error::InvalidSourceName { .. } => true,
            _ => false,
        }
    }

    /// The path that the error is about, where a walk can meet it.
    pub fn err_path(&self) -> (r: FilePath)
        ensures
            r.text@ == error_path(*self),
    {
        match self {
            Error::SourceNotFound { path } => path.clone(),
            Error::DestExists { path } => path.clone(),
            Error::PermissionDenied { path } => path.clone(),
            Error::Io { path, .. } => path.clone(),
            _ => FilePath::empty(),
        }
    }
}

/// What the engine says of an error. What is no Unicode in a path is replaced.
pub open spec fn error_text(error: Error) -> Seq<char> {
    match error {
        Error::SourceNotFound { path } => "source not found: "@ + os_text::shown_text(path.text@),
        Error::DestExists { path } => "destination already exists: "@ + os_text::shown_text(path.text@),
        Error::Cancelled => "operation cancelled"@,
        Error::NoSpace { needed, available } => "insufficient disk space: needed "@
            + text::decimal(needed as nat) + " bytes, available "@ + text::decimal(
            available as nat,
        ) + " bytes"@,
        Error::PermissionDenied { path } => "permission denied: "@ + os_text::shown_text(path.text@),
        Error::Io { path, source } => "io error on "@ + os_text::shown_text(path.text@) + ": "@ + source.message@,
        Error::UnknownCompressFormat { path } =>
            "could not infer compression format from destination: "@ + os_text::shown_text(path.text@),
        Error::InvalidGlobPattern { pattern, source } => "invalid glob pattern "@
            + text::debug_text(pattern@) + ": "@ + source@,
        Error::GzipRequiresFile { path } =>
            "gzip compression requires a single file, got a directory: "@ + os_text::shown_text(path.text@),
        Error::CaseCollision { path, other } =>
            "filename differs only by case from another entry, which the destination filesystem cannot represent: "@
            + os_text::shown_text(path.text@) + " collides with "@ + os_text::shown_text(other.text@),
        Error::FileTooLargeForDest { path, size, max } =>
            "file exceeds the destination filesystem's maximum file size: "@ + os_text::shown_text(path.text@) + " ("@
            + text::decimal(size as nat) + " bytes, max "@ + text::decimal(max as nat) + " bytes)"@,
        Error::ReservedName { path } =>
            "filename is reserved or invalid on the destination filesystem: "@ + os_text::shown_text(path.text@),
        Error::FilesystemIntegrityRisk { filesystem } => "destination filesystem ("@ + filesystem@
            + ") has a known write-integrity issue on this platform"@,
        Error::DuplicateSourceName { path, other } =>
            "two sources would both move to the same destination name: "@ + os_text::shown_text(path.text@) + " and "@
            + os_text::shown_text(other.text@),
        Error::InvalidSourceName { path } => "source path has no file name to move under: "@
            + os_text::shown_text(path.text@),
        Error::RemoveCriteriaRequired =>
            "remove() called with no filter criteria set, which would match every entry under the root"@,
        Error::TrashFailed { path, source } => "could not move to trash: "@ + os_text::shown_text(path.text@) + ": "@
            + source@,
    }
}

impl Error {
    /// What the engine says of this error.
    pub fn message(&self) -> (r: String)
        ensures
            r@ == error_text(*self),
    {
        match self {
            Error::SourceNotFound { path } => text::concat2("source not found: ", path.shown().as_str()),
            Error::DestExists { path } => text::concat2(
                "destination already exists: ",
                path.shown().as_str(),
            ),
            Error::Cancelled => "operation cancelled".to_owned(),
            Error::NoSpace { needed, available } => {
                let needed = text::to_decimal(*needed);
                let available = text::to_decimal(*available);
                let out = text::concat2("insufficient disk space: needed ", needed.as_str());
                let out = text::extend(out, " bytes, available ");
                let out = text::extend(out, available.as_str());
                text::extend(out, " bytes")
            },
            Error::PermissionDenied { path } => text::concat2(
                "permission denied: ",
                path.shown().as_str(),
            ),
            Error::Io { path, source } => {
                let out = text::concat2("io error on ", path.shown().as_str());
                let out = text::extend(out, ": ");
                text::extend(out, source.message.as_str())
            },
            Error::UnknownCompressFormat { path } => text::concat2(
                "could not infer compression format from destination: ",
                path.shown().as_str(),
            ),
            Error::InvalidGlobPattern { pattern, source } => {
                let pattern = text::to_debug(pattern.as_str());
                let out = text::concat2("invalid glob pattern ", pattern.as_str());
                let out = text::extend(out, ": ");
                text::extend(out, source.as_str())
            },
            Error::GzipRequiresFile { path } => text::concat2(
                "gzip compression requires a single file, got a directory: ",
                path.shown().as_str(),
            ),
            Error::CaseCollision { path, other } => {
                let out = text::concat2(
                    "filename differs only by case from another entry, which the destination filesystem cannot represent: ",
                    path.shown().as_str(),
                );
                let out = text::extend(out, " collides with ");
                text::extend(out, other.shown().as_str())
            },
            Error::FileTooLargeForDest { path, size, max } => {
                let size = text::to_decimal(*size);
                let max = text::to_decimal(*max);
                let out = text::concat2(
                    "file exceeds the destination filesystem's maximum file size: ",
                    path.shown().as_str(),
                );
                let out = text::extend(out, " (");
                let out = text::extend(out, size.as_str());
                let out = text::extend(out, " bytes, max ");
                let out = text::extend(out, max.as_str());
                text::extend(out, " bytes)")
            },
            Error::ReservedName { path } => text::concat2(
                "filename is reserved or invalid on the destination filesystem: ",
                path.shown().as_str(),
            ),
            Error::FilesystemIntegrityRisk { filesystem } => {
                let out = text::concat2("destination filesystem (", filesystem.as_str());
                text::extend(out, ") has a known write-integrity issue on this platform")
            },
            Error::DuplicateSourceName { path, other } => {
                let out = text::concat2(
                    "two sources would both move to the same destination name: ",
                    path.shown().as_str(),
                );
                let out = text::extend(out, " and ");
                text::extend(out, other.shown().as_str())
            },
            Error::InvalidSourceName { path } => text::concat2(
                "source path has no file name to move under: ",
                path.shown().as_str(),
            ),
            Error::RemoveCriteriaRequired =>
                "remove() called with no filter criteria set, which would match every entry under the root".to_owned(),
            Error::TrashFailed { path, source } => {
                let out = text::concat2("could not move to trash: ", path.shown().as_str());
                let out = text::extend(out, ": ");
                text::extend(out, source.as_str())
            },
        }
    }
}

/// An I/O failure is neither hidden nor taken for another: the error tells its kind, and
/// names the path, or the room that was needed where the destination is full.
pub proof fn lemma_error_tells_the_failure(failure: IoFailure, path: FilePath, needed: u64)
    ensures
        match io_error(failure, path, needed) {
            Error::SourceNotFound { path: at } => failure.kind == IoKind::NotFound && at == path,
            Error::PermissionDenied { path: at } => failure.kind == IoKind::PermissionDenied && at
                == path,
            Error::NoSpace { needed: asked, available } => failure.kind == IoKind::StorageFull
                && asked == needed && available == 0,
            Error::Io { path: at, source } => failure.kind != IoKind::NotFound && failure.kind
                != IoKind::PermissionDenied && failure.kind != IoKind::StorageFull && at == path
                && source == failure,
            _ => false,
        },
{
}

/// A failure to read is told like any other failure, but for a full disk, which is no
/// special case there.
pub proof fn lemma_read_error_is_never_about_room(failure: IoFailure, path: FilePath, needed: u64)
    ensures
        failure.kind != IoKind::StorageFull ==> read_error(failure, path) == io_error(
            failure,
            path,
            needed,
        ),
        failure.kind == IoKind::StorageFull ==> read_error(failure, path) == (Error::Io {
            path,
            source: failure,
        }),
        !fatal(read_error(failure, path)),
{
}

/// Of the I/O failures only a full destination ends a whole operation.
pub proof fn lemma_only_a_full_destination_is_fatal(failure: IoFailure, path: FilePath, needed: u64)
    ensures
        fatal(io_error(failure, path, needed)) <==> failure.kind == IoKind::StorageFull,
{
}

/// An error that is about one entry alone ends no operation by itself; one that would meet
/// every further entry too does.
pub proof fn lemma_errors_of_one_entry_are_not_fatal(error: Error)
    ensures
        error is SourceNotFound || error is DestExists || error is PermissionDenied || error is Io
            || error is CaseCollision || error is FileTooLargeForDest || error is ReservedName
            || error is TrashFailed || error is UnknownCompressFormat || error is GzipRequiresFile
            || error is InvalidGlobPattern || error is RemoveCriteriaRequired ==> !fatal(error),
        error is Cancelled || error is NoSpace || error is FilesystemIntegrityRisk
            || error is DuplicateSourceName || error is InvalidSourceName ==> fatal(error),
{
}

/// The path that an error is about is the path at which the failure came up.
pub proof fn lemma_error_path_is_where_it_failed(failure: IoFailure, path: FilePath, needed: u64)
    ensures
        failure.kind != IoKind::StorageFull ==> error_path(io_error(failure, path, needed))
            == path.text@,
        error_path(read_error(failure, path)) == path.text@,
        error_path(Error::DestExists { path }) == path.text@,
        error_path(Error::Cancelled) == Seq::<char>::empty(),
{
}

/// A failure of a walk is told at the path that it names, or at the empty path; one that is
/// no I/O failure keeps its message.
pub proof fn lemma_walk_error_is_told_at_its_path(
    result: Error,
    failure: Option<IoFailure>,
    path: Option<FilePath>,
    message: Seq<char>,
)
    requires
        is_walk_error(result, failure, path, message),
    ensures
        (failure matches Some(f) ==> f.kind != IoKind::StorageFull) ==> error_path(result)
            == match path {
            Some(path) => path.text@,
            None => Seq::empty(),
        },
        failure is None ==> (result matches Error::Io { source, .. } && source.message@ == message),
        failure matches Some(f) && f.kind == IoKind::PermissionDenied
            ==> result is PermissionDenied,
        failure matches Some(f) && f.kind == IoKind::NotFound ==> result is SourceNotFound,
{
}

/// Whether `part` stands somewhere in `text`.
pub open spec fn tells(text: Seq<char>, part: Seq<char>) -> bool {
    exists|before: Seq<char>, after: Seq<char>| text == #[trigger] (before + part + after)
}

proof fn lemma_tells(text: Seq<char>, before: Seq<char>, part: Seq<char>, after: Seq<char>)
    requires
        text =~= before + part + after,
    ensures
        tells(text, part),
{
    assert(text == before + part + after);
}

/// What is said of an error names every path that the error is about, and what the system
/// said of it.
pub proof fn lemma_message_names_the_paths(error: Error)
    ensures
        match error {
            Error::SourceNotFound { path } => tells(
                error_text(error),
                os_text::shown_text(path.text@),
            ),
            Error::DestExists { path } => tells(error_text(error), os_text::shown_text(path.text@)),
            Error::PermissionDenied { path } => tells(
                error_text(error),
                os_text::shown_text(path.text@),
            ),
            Error::Io { path, source } => tells(error_text(error), os_text::shown_text(path.text@))
                && tells(error_text(error), source.message@),
            Error::ReservedName { path } => tells(error_text(error), os_text::shown_text(path.text@)),
            Error::CaseCollision { path, other } => tells(
                error_text(error),
                os_text::shown_text(path.text@),
            ) && tells(error_text(error), os_text::shown_text(other.text@)),
            Error::DuplicateSourceName { path, other } => tells(
                error_text(error),
                os_text::shown_text(path.text@),
            ) && tells(error_text(error), os_text::shown_text(other.text@)),
            Error::FileTooLargeForDest { path, size, max } => tells(
                error_text(error),
                os_text::shown_text(path.text@),
            ) && tells(error_text(error), text::decimal(size as nat)) && tells(
                error_text(error),
                text::decimal(max as nat),
            ),
            Error::NoSpace { needed, available } => tells(
                error_text(error),
                text::decimal(needed as nat),
            ) && tells(error_text(error), text::decimal(available as nat)),
            Error::TrashFailed { path, source } => tells(
                error_text(error),
                os_text::shown_text(path.text@),
            ) && tells(error_text(error), source@),
            _ => true,
        },
{
    let said = error_text(error);
    let none = Seq::<char>::empty();
    match error {
        Error::SourceNotFound { path } => {
            lemma_tells(said, "source not found: "@, os_text::shown_text(path.text@), none);
        },
        Error::DestExists { path } => {
            lemma_tells(
                said,
                "destination already exists: "@,
                os_text::shown_text(path.text@),
                none,
            );
        },
        Error::PermissionDenied { path } => {
            lemma_tells(said, "permission denied: "@, os_text::shown_text(path.text@), none);
        },
        Error::Io { path, source } => {
            let shown = os_text::shown_text(path.text@);
            lemma_tells(said, "io error on "@, shown, ": "@ + source.message@);
            lemma_tells(said, "io error on "@ + shown + ": "@, source.message@, none);
        },
        Error::ReservedName { path } => {
            lemma_tells(
                said,
                "filename is reserved or invalid on the destination filesystem: "@,
                os_text::shown_text(path.text@),
                none,
            );
        },
        Error::CaseCollision { path, other } => {
            let first = os_text::shown_text(path.text@);
            let second = os_text::shown_text(other.text@);
            let front =
                "filename differs only by case from another entry, which the destination filesystem cannot represent: "@;
            lemma_tells(said, front, first, " collides with "@ + second);
            lemma_tells(said, front + first + " collides with "@, second, none);
        },
        Error::DuplicateSourceName { path, other } => {
            let first = os_text::shown_text(path.text@);
            let second = os_text::shown_text(other.text@);
            let front = "two sources would both move to the same destination name: "@;
            lemma_tells(said, front, first, " and "@ + second);
            lemma_tells(said, front + first + " and "@, second, none);
        },
        Error::FileTooLargeForDest { path, size, max } => {
            let shown = os_text::shown_text(path.text@);
            let front = "file exceeds the destination filesystem's maximum file size: "@;
            let a = text::decimal(size as nat);
            let b = text::decimal(max as nat);
            lemma_tells(said, front, shown, " ("@ + a + " bytes, max "@ + b + " bytes)"@);
            lemma_tells(said, front + shown + " ("@, a, " bytes, max "@ + b + " bytes)"@);
            lemma_tells(said, front + shown + " ("@ + a + " bytes, max "@, b, " bytes)"@);
        },
        Error::NoSpace { needed, available } => {
            let a = text::decimal(needed as nat);
            let b = text::decimal(available as nat);
            let front = "insufficient disk space: needed "@;
            lemma_tells(said, front, a, " bytes, available "@ + b + " bytes"@);
            lemma_tells(said, front + a + " bytes, available "@, b, " bytes"@);
        },
        Error::TrashFailed { path, source } => {
            let shown = os_text::shown_text(path.text@);
            lemma_tells(said, "could not move to trash: "@, shown, ": "@ + source@);
            lemma_tells(said, "could not move to trash: "@ + shown + ": "@, source@, none);
        },
        _ => {},
    }
}

} // verus!

use file_engine::error::{
    classify_io_error, classify_read_error, classify_walk_failure, Error, IoFailure, IoKind,
};
use file_engine::paths::FilePath;

fn failure(kind: IoKind) -> IoFailure {
    IoFailure {
        kind,
        message: "it broke".to_string(),
    }
}

fn p(text: &str) -> FilePath {
    FilePath::new(text)
}

#[test]
fn io_failures_map_to_errors_by_their_kind() {
    assert!(matches!(
        classify_io_error(failure(IoKind::NotFound), p("a"), 3),
        Error::SourceNotFound { path } if path.text == "a"
    ));
    assert!(matches!(
        classify_io_error(failure(IoKind::PermissionDenied), p("a"), 3),
        Error::PermissionDenied { path } if path.text == "a"
    ));
    assert!(matches!(
        classify_io_error(failure(IoKind::StorageFull), p("a"), 3),
        Error::NoSpace { needed: 3, available: 0 }
    ));
    assert!(matches!(
        classify_io_error(failure(IoKind::CrossesDevices), p("a"), 3),
        Error::Io { .. }
    ));
    assert!(matches!(
        classify_read_error(failure(IoKind::StorageFull), p("a")),
        Error::Io { .. }
    ));
}

#[test]
fn a_walk_failure_without_a_cause_says_so() {
    let error = classify_walk_failure(None, None, "directory walk error");
    assert_eq!(error.message(), "io error on : directory walk error");
    let error = classify_walk_failure(Some(failure(IoKind::NotFound)), Some(p("x")), "unused");
    assert!(matches!(error, Error::SourceNotFound { path } if path.text == "x"));
}

#[test]
fn fatal_errors_are_the_documented_ones() {
    let fatal = [
        Error::Cancelled,
        Error::NoSpace {
            needed: 1,
            available: 0,
        },
        Error::FilesystemIntegrityRisk {
            filesystem: "exfat".to_string(),
        },
        Error::DuplicateSourceName {
            path: p("a"),
            other: p("b"),
        },
        Error::InvalidSourceName { path: p("..") },
    ];
    for error in fatal {
        assert!(error.is_fatal(), "{error:?}");
    }
    let other = [
        Error::SourceNotFound { path: p("a") },
        Error::DestExists { path: p("a") },
        Error::PermissionDenied { path: p("a") },
        Error::RemoveCriteriaRequired,
        Error::ReservedName { path: p("CON") },
    ];
    for error in other {
        assert!(!error.is_fatal(), "{error:?}");
    }
}

#[test]
fn errors_name_the_path_a_walk_met_them_at() {
    assert_eq!(Error::SourceNotFound { path: p("a") }.err_path().text, "a");
    assert_eq!(Error::DestExists { path: p("b") }.err_path().text, "b");
    assert_eq!(
        Error::Io {
            path: p("c"),
            source: failure(IoKind::Other)
        }
        .err_path()
        .text,
        "c"
    );
    assert_eq!(Error::Cancelled.err_path().text, "");
}

#[test]
fn every_error_has_its_message() {
    let cases = vec![
        (Error::SourceNotFound { path: p("a") }, "source not found: a"),
        (
            Error::DestExists { path: p("a") },
            "destination already exists: a",
        ),
        (Error::Cancelled, "operation cancelled"),
        (
            Error::NoSpace {
                needed: 12,
                available: 3,
            },
            "insufficient disk space: needed 12 bytes, available 3 bytes",
        ),
        (
            Error::PermissionDenied { path: p("a") },
            "permission denied: a",
        ),
        (
            Error::Io {
                path: p("a"),
                source: failure(IoKind::Other),
            },
            "io error on a: it broke",
        ),
        (
            Error::UnknownCompressFormat { path: p("a.rar") },
            "could not infer compression format from destination: a.rar",
        ),
        (
            Error::InvalidGlobPattern {
                pattern: "[\"".to_string(),
                source: "bad".to_string(),
            },
            "invalid glob pattern \"[\\\"\": bad",
        ),
        (
            Error::GzipRequiresFile { path: p("dir") },
            "gzip compression requires a single file, got a directory: dir",
        ),
        (
            Error::CaseCollision {
                path: p("a"),
                other: p("A"),
            },
            "filename differs only by case from another entry, which the destination filesystem cannot represent: a collides with A",
        ),
        (
            Error::FileTooLargeForDest {
                path: p("a"),
                size: 10,
                max: 4,
            },
            "file exceeds the destination filesystem's maximum file size: a (10 bytes, max 4 bytes)",
        ),
        (
            Error::ReservedName { path: p("CON") },
            "filename is reserved or invalid on the destination filesystem: CON",
        ),
        (
            Error::FilesystemIntegrityRisk {
                filesystem: "exfat".to_string(),
            },
            "destination filesystem (exfat) has a known write-integrity issue on this platform",
        ),
        (
            Error::DuplicateSourceName {
                path: p("x/a"),
                other: p("y/a"),
            },
            "two sources would both move to the same destination name: x/a and y/a",
        ),
        (
            Error::InvalidSourceName { path: p("..") },
            "source path has no file name to move under: ..",
        ),
        (
            Error::RemoveCriteriaRequired,
            "remove() called with no filter criteria set, which would match every entry under the root",
        ),
        (
            Error::TrashFailed {
                path: p("a"),
                source: "no trash".to_string(),
            },
            "could not move to trash: a: no trash",
        ),
    ];
    for (error, text) in cases {
        assert_eq!(error.message(), text);
    }
}

use file_engine::checksum::{content_hash, files_identical, same_hash, ContentHasher};
use file_engine::compress as streams;
use file_engine::engine;
use file_engine::error::{Error, IoFailure, IoKind};
use file_engine::move_op::{CopyKind, MoveBuilder, MoveEvent, MoveStep, SourceKind};
use file_engine::operations::compress::{
    after_cancel, archive_name, check_gzip_source, format_for, gzip_entry, gzip_finished,
    gzip_started, infer_format, read_failed, resolve_format, ArchiveWriter, CompressFormat,
    ReadQueue,
};
use file_engine::operations::diff::{changed, flat_entries, Diff, DiffStrategy};
use file_engine::operations::move_many::{
    basenames, record_scan, stopped_by_scan, with_failed_sources, MoveMany, MoveManyNext,
    PendingSource,
};
use file_engine::operations::move_path::{
    after_attempt, first_attempt, is_cross_device, next_attempt, parent_created, AttemptEvent,
    AttemptStep, MoveNext, MoveOneOutcome, RollbackStep, Sweep,
};
use file_engine::operations::pipeline::{
    dest_path_for, directories_covered_by_files, merge_workloads, prefix_workload, start_pipeline,
    PipelineStart, Validation,
};
use file_engine::operations::remove::{
    after_scan, from_dispatch, hard_delete_result, select, trash_result, RemoveBuilder, RemoveNext,
};
use file_engine::operations::remove_filter::RemoveFilter;
use file_engine::operations::sync::{deletes_orphans, OrphanSweep};
use file_engine::operations::watch::{
    classify_watch_failure, watch_result, WatchEnd, WatchFailure,
};
use file_engine::paths::FilePath;
use file_engine::planner::action::EntryOutcome;
use file_engine::planner::config::{BatchConfig, ErrorStrategy, SortOrder};
use file_engine::planner::dispatcher::{Admission, Dispatcher};
use file_engine::planner::outcome::{OperationOutcome, StopReason};
use file_engine::planner::plan::plan;
use file_engine::profiler::{
    family_of, planned, resolved_threshold, total_size, DirEntry, Entry, FilesystemCapabilities,
    FilesystemFamily, Span, Timestamp, Workload, DEFAULT_SMALL_FILE_THRESHOLD,
};
use file_engine::progress::Progress;
use file_engine::validate::{check_name, validate};
use file_engine::FileEngine;

fn p(text: &str) -> FilePath {
    FilePath::new(text)
}

fn entry(name: &str, size: u64) -> Entry {
    Entry {
        path: p(&format!("src/{name}")),
        relative_path: p(name),
        size,
        modified: None,
    }
}

fn aged(name: &str, size: u64, secs: i64) -> Entry {
    Entry {
        modified: Some(Timestamp { secs, nanos: 0 }),
        ..entry(name, size)
    }
}

fn names(entries: &[Entry]) -> Vec<String> {
    entries.iter().map(|e| e.relative_path.text.clone()).collect()
}

fn failure(kind: IoKind) -> IoFailure {
    IoFailure {
        kind,
        message: "it broke".to_string(),
    }
}

fn dir(name: &str, mode: Option<u32>) -> DirEntry {
    DirEntry {
        path: p(&format!("src/{name}")),
        relative_path: p(name),
        mode,
    }
}

const ZERO: Span = Span { secs: 0, nanos: 0 };

#[test]
fn directories_covered_by_files_marks_every_ancestor_including_the_root() {
    let small = vec![Entry {
        path: p("irrelevant"),
        relative_path: p("a/b/file.txt"),
        size: 1,
        modified: None,
    }];

    let covered = directories_covered_by_files(&small, &vec![]);

    assert!(covered.contains(&p("a/b")));
    assert!(covered.contains(&p("a")));
    assert!(
        covered.contains(&FilePath::empty()),
        "the root itself is a proper ancestor too"
    );
    assert_eq!(covered.len(), 3);
}

#[test]
fn directories_covered_by_files_does_not_cover_an_unrelated_sibling() {
    let small = vec![Entry {
        path: p("irrelevant"),
        relative_path: p("a/b/file.txt"),
        size: 1,
        modified: None,
    }];

    let covered = directories_covered_by_files(&small, &vec![]);

    assert!(!covered.contains(&p("a/empty_sibling")));
}

#[test]
fn is_cross_device_true_for_crosses_devices_kind() {
    let err = failure(IoKind::CrossesDevices);
    assert!(is_cross_device(&err));
}

#[test]
fn is_cross_device_false_for_other_kinds() {
    for kind in [IoKind::PermissionDenied, IoKind::NotFound, IoKind::Other] {
        let err = failure(kind);
        assert!(
            !is_cross_device(&err),
            "{kind:?} should not be classified as cross-device"
        );
    }
}

fn diff_of(source: Vec<Entry>, dest: Vec<Entry>, tolerance: Span) -> (Vec<String>, Vec<String>) {
    let mut diff = Diff::new(source, Ok(dest), DiffStrategy::SizeAndModifiedTime, tolerance).unwrap();
    assert!(diff.next_comparison().is_none());
    let plan = diff.finish();
    (names(&plan.to_copy), names(&plan.to_delete))
}

fn none() -> Vec<String> {
    Vec::new()
}

#[test]
fn equal_sides_produce_an_empty_plan() {
    let side = vec![aged("a.txt", 4, 1000), aged("b.txt", 9, 1000)];
    assert_eq!(diff_of(side.clone(), side, ZERO), (none(), none()));
}

#[test]
fn files_of_one_side_are_copied_or_deleted() {
    assert_eq!(
        diff_of(vec![entry("only_source.txt", 1)], vec![entry("only_dest.txt", 1)], ZERO),
        (
            vec!["only_source.txt".to_string()],
            vec!["only_dest.txt".to_string()]
        )
    );
}

#[test]
fn a_newer_source_is_copied_and_an_equal_one_is_not() {
    assert_eq!(
        diff_of(
            vec![aged("newer.txt", 4, 2000), aged("unchanged.txt", 4, 1000)],
            vec![aged("newer.txt", 4, 1000), aged("unchanged.txt", 4, 1000)],
            ZERO
        ),
        (vec!["newer.txt".to_string()], none())
    );
}

#[test]
fn a_difference_within_the_tolerance_is_no_change() {
    let two = Span { secs: 2, nanos: 0 };
    assert!(!changed(&aged("a", 4, 1002), &aged("a", 4, 1000), &two));
    assert!(changed(&aged("a", 4, 1003), &aged("a", 4, 1000), &two));
    assert!(changed(&aged("a", 4, 1001), &aged("a", 4, 1000), &ZERO));
    assert!(changed(&aged("a", 5, 1000), &aged("a", 4, 1000), &two));
    assert!(changed(&aged("a", 4, 1000), &entry("a", 4), &two));
    assert!(!changed(&entry("a", 4), &aged("a", 4, 1000), &ZERO));
}

#[test]
fn names_in_different_unicode_forms_are_matched() {
    let composed = "caf\u{e9}.txt";
    let decomposed = "cafe\u{301}.txt";
    assert_eq!(
        diff_of(vec![aged(composed, 4, 1000)], vec![aged(decomposed, 4, 1000)], ZERO),
        (none(), none())
    );
}

#[test]
fn a_missing_destination_has_no_files_and_other_failures_are_handed_on() {
    let source = vec![entry("a", 1), entry("b", 2)];
    let mut diff = Diff::new(
        source.clone(),
        Err(Error::SourceNotFound { path: p("dst") }),
        DiffStrategy::default(),
        ZERO,
    )
    .unwrap();
    assert!(diff.next_comparison().is_none());
    assert_eq!(names(&diff.finish().to_copy), vec!["a", "b"]);

    assert!(matches!(
        Diff::new(
            source,
            Err(Error::PermissionDenied { path: p("dst") }),
            DiffStrategy::default(),
            ZERO
        ),
        Err(Error::PermissionDenied { .. })
    ));
}

#[test]
fn contents_decide_under_the_checksum_strategy() {
    let mut diff = Diff::new(
        vec![aged("same", 4, 1), entry("new", 4), aged("edited", 4, 1)],
        Ok(vec![aged("same", 4, 9), aged("edited", 4, 9)]),
        DiffStrategy::Checksum,
        ZERO,
    )
    .unwrap();
    let (a, b) = diff.next_comparison().unwrap();
    assert_eq!((a.text.as_str(), b.text.as_str()), ("src/same", "src/same"));
    diff.record(Ok(content_hash(b"one!")), Ok(content_hash(b"one!")))
        .unwrap();
    let (a, _) = diff.next_comparison().unwrap();
    assert_eq!(a.text, "src/edited");
    diff.record(Ok(content_hash(b"one!")), Ok(content_hash(b"two!")))
        .unwrap();
    assert!(diff.next_comparison().is_none());
    let plan = diff.finish();
    assert_eq!(names(&plan.to_copy), vec!["new", "edited"]);
    assert!(plan.to_delete.is_empty());
}

#[test]
fn an_unreadable_file_ends_the_comparison() {
    let mut diff = Diff::new(
        vec![entry("x", 1)],
        Ok(vec![entry("x", 1)]),
        DiffStrategy::Checksum,
        ZERO,
    )
    .unwrap();
    assert!(diff.next_comparison().is_some());
    let result = diff.record(
        Err(Error::PermissionDenied { path: p("src/x") }),
        Err(Error::SourceNotFound { path: p("dst/x") }),
    );
    assert!(matches!(result, Err(Error::PermissionDenied { .. })));
}

#[test]
fn a_scan_is_flattened_small_files_first() {
    let workload = Workload {
        small: vec![entry("s", 1)],
        large: vec![entry("l", 9)],
        directories: vec![dir("d", None)],
    };
    assert_eq!(names(&flat_entries(workload)), vec!["s", "l"]);
}

#[test]
fn orphans_are_deleted_behind_a_copy_that_ran_to_its_end() {
    let mut outcome = OperationOutcome::default();
    assert!(deletes_orphans(&outcome));
    outcome.stopped_early = Some(StopReason::Cancelled);
    assert!(!deletes_orphans(&outcome));
}

fn sweep_orphans(strategy: ErrorStrategy) -> OperationOutcome {
    let (mut sweep, event) = OrphanSweep::new(
        vec![entry("a", 1), entry("b", 1), entry("c", 1)],
        strategy,
    );
    assert!(matches!(
        event,
        Progress::Started {
            bytes_total: None,
            entries_total: 3
        }
    ));
    while let Some((e, _)) = sweep.next_entry() {
        let result = if e.relative_path.text == "b" {
            Err(Error::PermissionDenied { path: e.path })
        } else {
            Ok(())
        };
        sweep.record(result);
    }
    sweep.outcome
}

#[test]
fn a_collecting_sweep_goes_on_and_the_others_stop() {
    let outcome = sweep_orphans(ErrorStrategy::ContinueAndCollect);
    assert_eq!(names(&outcome.succeeded), vec!["a", "c"]);
    assert_eq!(outcome.failed.len(), 1);
    assert_eq!(outcome.stopped_early, None);

    let outcome = sweep_orphans(ErrorStrategy::AbortOnError);
    assert_eq!(names(&outcome.succeeded), vec!["a"]);
    assert_eq!(outcome.stopped_early, Some(StopReason::AbortOnError));

    let outcome = sweep_orphans(ErrorStrategy::Undo);
    assert_eq!(names(&outcome.succeeded), vec!["a"]);
    assert_eq!(outcome.stopped_early, Some(StopReason::AbortOnError));
}

#[test]
fn a_rename_is_tried_first_and_devices_decide_about_a_copy() {
    assert!(matches!(first_attempt(true), AttemptStep::Rename));
    assert!(matches!(first_attempt(false), AttemptStep::ProbeDest));
    let crossed = next_attempt(
        &p("a"),
        &p("b"),
        false,
        AttemptStep::Rename,
        AttemptEvent::Done {
            result: Err(failure(IoKind::CrossesDevices)),
        },
    );
    assert!(matches!(
        crossed,
        AttemptStep::Finished {
            result: Ok(MoveOneOutcome::CrossDevice)
        }
    ));
    assert!(matches!(
        after_attempt(Ok(MoveOneOutcome::CrossDevice)),
        MoveNext::CopyAcross
    ));
    assert!(matches!(
        after_attempt(Ok(MoveOneOutcome::Renamed)),
        MoveNext::Done { .. }
    ));
    assert!(matches!(
        after_attempt(Err(Error::Cancelled)),
        MoveNext::Failed {
            error: Error::Cancelled
        }
    ));
    assert!(parent_created(Ok(()), &p("b")).is_none());
    assert!(matches!(
        parent_created(Err(failure(IoKind::PermissionDenied)), &p("b")),
        Some(Error::PermissionDenied { .. })
    ));
}

#[test]
fn an_identical_destination_resolves_a_move() {
    let step = next_attempt(
        &p("a"),
        &p("b"),
        true,
        AttemptStep::ProbeDest,
        AttemptEvent::DestProbed { result: Ok(4) },
    );
    let step = next_attempt(
        &p("a"),
        &p("b"),
        true,
        step,
        AttemptEvent::SourceProbed {
            result: Ok((true, 4)),
        },
    );
    assert!(matches!(step, AttemptStep::CompareContent));
    let step = next_attempt(
        &p("a"),
        &p("b"),
        true,
        step,
        AttemptEvent::Compared { result: Ok(true) },
    );
    assert!(matches!(step, AttemptStep::RemoveSource));
    let step = next_attempt(
        &p("a"),
        &p("b"),
        true,
        step,
        AttemptEvent::Done { result: Ok(()) },
    );
    assert!(matches!(
        step,
        AttemptStep::Finished {
            result: Ok(MoveOneOutcome::Resolved)
        }
    ));

    let refused = next_attempt(
        &p("a"),
        &p("b"),
        false,
        AttemptStep::ProbeSource { dest_size: 4 },
        AttemptEvent::SourceProbed {
            result: Ok((true, 4)),
        },
    );
    assert!(matches!(
        refused,
        AttemptStep::Finished {
            result: Err(Error::DestExists { .. })
        }
    ));
}

fn copied(list: &[&str]) -> OperationOutcome {
    let mut outcome = OperationOutcome::default();
    outcome.succeeded = list.iter().map(|n| entry(n, 1)).collect();
    outcome
}

fn run_sweep(strategy: ErrorStrategy) -> (OperationOutcome, Vec<RollbackStep>) {
    let (mut sweep, event) = Sweep::new(copied(&["a", "b", "c"]), strategy);
    assert!(matches!(
        event,
        Some(Progress::Started {
            bytes_total: None,
            entries_total: 3
        })
    ));
    let mut undo = Vec::new();
    while let Some((e, _)) = sweep.next_entry() {
        let result = if e.relative_path.text == "b" {
            Err(Error::PermissionDenied { path: e.path })
        } else {
            Ok(())
        };
        let (_, steps) = sweep.record(result, &p("dst"));
        undo.extend(steps);
    }
    (sweep.outcome, undo)
}

#[test]
fn a_sweep_reports_sources_that_stay() {
    let (outcome, undo) = run_sweep(ErrorStrategy::ContinueAndCollect);
    assert_eq!(outcome.succeeded.len(), 3);
    assert_eq!(outcome.cleanup_failed.len(), 1);
    assert_eq!(outcome.stopped_early, None);
    assert!(undo.is_empty());

    let (outcome, undo) = run_sweep(ErrorStrategy::AbortOnError);
    assert_eq!(outcome.cleanup_failed.len(), 1);
    assert_eq!(outcome.stopped_early, Some(StopReason::AbortOnError));
    assert!(undo.is_empty());
}

#[test]
fn an_undone_sweep_restores_removed_sources_and_removes_copies() {
    let (outcome, undo) = run_sweep(ErrorStrategy::Undo);
    assert!(outcome.succeeded.is_empty());
    assert!(outcome.cleanup_failed.is_empty());
    assert_eq!(outcome.stopped_early, Some(StopReason::Undo));
    assert_eq!(undo.len(), 3);
    assert!(matches!(&undo[0], RollbackStep::RemoveCopy { dest, .. } if dest.text == "dst/c"));
    assert!(matches!(&undo[1], RollbackStep::RemoveCopy { dest, .. } if dest.text == "dst/b"));
    assert!(matches!(&undo[2], RollbackStep::RestoreSource { dest, .. } if dest.text == "dst/a"));
}

#[test]
fn nothing_copied_is_nothing_to_sweep() {
    let (sweep, event) = Sweep::new(OperationOutcome::default(), ErrorStrategy::Undo);
    assert!(event.is_none());
    assert!(sweep.next_entry().is_none());
}

#[test]
fn sources_of_a_move_need_names_of_their_own() {
    let good = basenames(&vec![p("x/a"), p("y/b/")]).unwrap();
    assert_eq!(good[0].text, "a");
    assert_eq!(good[1].text, "b");
    match basenames(&vec![p("x/a"), p("y/a")]) {
        Err(Error::DuplicateSourceName { path, other }) => {
            assert_eq!((path.text.as_str(), other.text.as_str()), ("y/a", "x/a"));
        }
        other => panic!("unexpected {other:?}"),
    }
    assert!(matches!(
        basenames(&vec![p("x/..")]),
        Err(Error::InvalidSourceName { .. })
    ));
}

#[test]
fn a_move_of_many_renames_collects_and_copies_the_rest() {
    let mut job = MoveMany::new(
        vec![p("x/a"), p("x/b"), p("x/c")],
        p("dst"),
        ErrorStrategy::ContinueAndCollect,
    )
    .unwrap();
    let (source, target) = job.next_source(false).unwrap();
    assert_eq!((source.text.as_str(), target.text.as_str()), ("x/a", "dst/a"));
    assert!(job.record(Ok(MoveOneOutcome::Renamed), true).is_empty());
    job.next_source(false).unwrap();
    job.record(Err(Error::PermissionDenied { path: p("x/b") }), true);
    job.next_source(false).unwrap();
    job.record(Ok(MoveOneOutcome::CrossDevice), false);
    assert!(job.next_source(false).is_none());
    match job.conclude() {
        MoveManyNext::CopyAcross {
            pending,
            sources_failed,
            renamed,
        } => {
            assert_eq!(renamed.len(), 1);
            assert_eq!(pending.len(), 1);
            assert_eq!(pending[0].basename.text, "c");
            assert!(!pending[0].is_file);
            assert_eq!(sources_failed.len(), 1);
            let outcome = with_failed_sources(OperationOutcome::default(), sources_failed);
            assert_eq!(outcome.sources_failed[0].0.text, "x/b");
        }
        MoveManyNext::Done { .. } => panic!("one source is pending"),
    }
}

#[test]
fn an_undone_move_of_many_renames_back_in_reverse() {
    let mut job = MoveMany::new(
        vec![p("x/a"), p("x/b"), p("x/c")],
        p("dst"),
        ErrorStrategy::Undo,
    )
    .unwrap();
    job.next_source(false).unwrap();
    job.record(Ok(MoveOneOutcome::Renamed), true);
    job.next_source(false).unwrap();
    job.record(Ok(MoveOneOutcome::Renamed), true);
    job.next_source(false).unwrap();
    let back = job.record(Err(Error::DestExists { path: p("dst/c") }), true);
    let back: Vec<(String, String)> = back.into_iter().map(|(a, b)| (a.text, b.text)).collect();
    assert_eq!(
        back,
        vec![
            ("dst/b".to_string(), "x/b".to_string()),
            ("dst/a".to_string(), "x/a".to_string())
        ]
    );
    match job.conclude() {
        MoveManyNext::Done { outcome } => {
            assert_eq!(outcome.stopped_early, Some(StopReason::Undo))
        }
        MoveManyNext::CopyAcross { .. } => panic!("the move was stopped"),
    }
}

#[test]
fn a_cancelled_move_of_many_starts_no_further_source() {
    let mut job = MoveMany::new(vec![p("a"), p("b")], p("dst"), ErrorStrategy::AbortOnError).unwrap();
    job.next_source(false).unwrap();
    job.record(Ok(MoveOneOutcome::Resolved), true);
    assert!(job.next_source(true).is_none());
    assert_eq!(job.stopped_early, Some(StopReason::Cancelled));
}

fn caps() -> FilesystemCapabilities {
    FilesystemCapabilities {
        name: "exfat".to_string(),
        case_sensitive: false,
        max_file_size: Some(100),
        windows_naming_rules: true,
        timestamp_granularity: Span { secs: 2, nanos: 0 },
        write_integrity_risk: false,
    }
}

fn small(entries: Vec<Entry>) -> Workload {
    Workload {
        small: entries,
        large: vec![],
        directories: vec![],
    }
}

#[test]
fn both_names_of_a_case_collision_are_rejected() {
    let (kept, validation) = validate(
        small(vec![
            entry("Report.txt", 6),
            entry("report.txt", 6),
            entry("unrelated.txt", 5),
        ]),
        &caps(),
        false,
    )
    .unwrap();
    assert_eq!(names(&kept.small), vec!["unrelated.txt"]);
    assert_eq!(validation.rejected_entries.len(), 2);
    match &validation.rejected_entries[0].1 {
        Error::CaseCollision { path, other } => {
            assert_eq!(path.text, "src/Report.txt");
            assert_eq!(other.text, "src/report.txt");
        }
        other => panic!("unexpected {other:?}"),
    }
    assert!(matches!(
        validation.rejected_entries[1].1,
        Error::CaseCollision { .. }
    ));
}

#[test]
fn case_folding_is_that_of_unicode() {
    let (kept, validation) = validate(
        small(vec![entry("\u{c9}t\u{e9}", 1), entry("e\u{301}t\u{e9}", 1)]),
        &caps(),
        false,
    )
    .unwrap();
    assert!(kept.small.is_empty());
    assert_eq!(validation.rejected_entries.len(), 2);
}

#[test]
fn a_case_sensitive_destination_holds_both_names() {
    let sensitive = FilesystemCapabilities {
        case_sensitive: true,
        ..caps()
    };
    let (kept, validation) =
        validate(small(vec![entry("A", 1), entry("a", 1)]), &sensitive, false).unwrap();
    assert_eq!(names(&kept.small), vec!["A", "a"]);
    assert!(validation.rejected_entries.is_empty());
}

#[test]
fn large_files_and_reserved_names_are_rejected() {
    let workload = Workload {
        small: vec![entry("fits", 100), entry("CON", 1), entry("dir/aux.txt", 1)],
        large: vec![entry("huge", 101)],
        directories: vec![dir("", None), dir("ok", None), dir("bad.", None)],
    };
    let (kept, validation) = validate(workload, &caps(), false).unwrap();
    assert_eq!(names(&kept.small), vec!["fits"]);
    assert!(kept.large.is_empty());
    assert_eq!(kept.directories.len(), 2);
    let kinds: Vec<String> = validation
        .rejected_entries
        .iter()
        .map(|(e, error)| format!("{} {}", e.relative_path.text, error.message()))
        .collect();
    assert_eq!(
        kinds,
        vec![
            "CON filename is reserved or invalid on the destination filesystem: src/CON",
            "dir/aux.txt filename is reserved or invalid on the destination filesystem: src/dir/aux.txt",
            "huge file exceeds the destination filesystem's maximum file size: src/huge (101 bytes, max 100 bytes)",
        ]
    );
    assert_eq!(validation.rejected_directories.len(), 1);
    assert_eq!(validation.rejected_directories[0].0.relative_path.text, "bad.");
}

#[test]
fn a_risky_destination_is_refused_unless_allowed() {
    let risky = FilesystemCapabilities {
        write_integrity_risk: true,
        ..caps()
    };
    assert!(matches!(
        validate(small(vec![entry("a.txt", 1)]), &risky, false),
        Err(Error::FilesystemIntegrityRisk { filesystem }) if filesystem == "exfat"
    ));
    assert!(validate(small(vec![entry("a.txt", 1)]), &risky, true).is_ok());
}

#[test]
fn names_that_windows_does_not_take() {
    for name in ["CON", "nul.txt", "Com1", "lpt9.log", "a<b", "tab\t", "dot.", "space ", "a\\b"] {
        assert!(check_name(name), "{name:?}");
    }
    for name in ["con1", "com0", "com10", "console", "a.b", ".hidden", "lpt"] {
        assert!(!check_name(name), "{name:?}");
    }
}

#[test]
fn rejections_stop_a_copy_unless_failures_are_collected() {
    let rejected = || Validation {
        rejected_entries: vec![(entry("A", 1), Error::ReservedName { path: p("src/A") })],
        rejected_directories: vec![(dir("d", None), Error::ReservedName { path: p("src/d") })],
    };
    let collecting = BatchConfig::default();
    match start_pipeline(small(vec![entry("b", 1)]), rejected(), &p("dst"), &collecting) {
        PipelineStart::Run { pipeline, plan } => {
            assert_eq!(plan.batches.len(), 1);
            assert_eq!(pipeline.directories_failed[0].0.text, "dst/d");
            let outcome = pipeline.finish(copied(&["b"]));
            assert_eq!(outcome.failed.len(), 1);
            assert_eq!(outcome.succeeded.len(), 1);
            assert_eq!(outcome.directories_failed.len(), 1);
        }
        PipelineStart::Stopped { .. } => panic!("failures are collected"),
    }
    let aborting = BatchConfig {
        error_strategy: ErrorStrategy::AbortOnError,
        ..BatchConfig::default()
    };
    match start_pipeline(small(vec![entry("b", 1)]), rejected(), &p("dst"), &aborting) {
        PipelineStart::Stopped { outcome } => {
            assert_eq!(outcome.failed.len(), 1);
            assert!(outcome.succeeded.is_empty());
            assert_eq!(outcome.stopped_early, Some(StopReason::AbortOnError));
        }
        PipelineStart::Run { .. } => panic!("nothing may be written"),
    }
}

#[test]
fn only_directories_without_files_below_are_created_by_themselves() {
    let workload = Workload {
        small: vec![entry("full/deep/a", 1)],
        large: vec![],
        directories: vec![
            dir("", Some(0o755)),
            dir("full", Some(0o700)),
            dir("full/deep", None),
            dir("empty", Some(0o711)),
        ],
    };
    let nothing = Validation {
        rejected_entries: vec![],
        rejected_directories: vec![],
    };
    match start_pipeline(workload, nothing, &p("dst"), &BatchConfig::default()) {
        PipelineStart::Run { mut pipeline, .. } => {
            assert_eq!(pipeline.to_create.len(), 1);
            assert_eq!(pipeline.to_create[0].relative_path.text, "empty");
            assert!(matches!(
                pipeline.directories_started(),
                Progress::DirectoriesStarted { total: 1 }
            ));
            assert!(matches!(
                pipeline.directory_created(p("dst/empty"), Ok(())),
                Progress::DirectoryCompleted { .. }
            ));
            assert!(matches!(
                pipeline.directory_created(p("dst/x"), Err(failure(IoKind::PermissionDenied))),
                Progress::DirectoryFailed { .. }
            ));
            let jobs: Vec<(String, u32)> = pipeline
                .permission_jobs(&p("dst"))
                .into_iter()
                .map(|(path, mode)| (path.text, mode))
                .collect();
            assert_eq!(
                jobs,
                vec![
                    ("dst".to_string(), 0o755),
                    ("dst/full".to_string(), 0o700),
                    ("dst/empty".to_string(), 0o711)
                ]
            );
            assert!(pipeline.applies_permissions(true, &OperationOutcome::default()));
            assert!(!pipeline.applies_permissions(false, &OperationOutcome::default()));
            pipeline.permission_applied(p("dst/full"), Err(failure(IoKind::Other)));
            let outcome = pipeline.finish(OperationOutcome::default());
            assert_eq!(outcome.directories_failed.len(), 2);
        }
        PipelineStart::Stopped { .. } => panic!("nothing was rejected"),
    }
    assert_eq!(dest_path_for(&dir("", None), &p("dst")).text, "dst");
}

#[test]
fn workloads_of_several_sources_are_put_under_their_names() {
    let found = Workload {
        small: vec![entry("f", 1)],
        large: vec![entry("big", 9)],
        directories: vec![dir("", None), dir("sub", None)],
    };
    let prefixed = prefix_workload(found, &p("one"), false);
    assert_eq!(names(&prefixed.small), vec!["one/f"]);
    assert_eq!(prefixed.directories[0].relative_path.text, "one");
    assert_eq!(prefixed.directories[1].relative_path.text, "one/sub");
    let file = prefix_workload(small(vec![entry("two", 2)]), &p("two"), true);
    let merged = merge_workloads(vec![prefixed, file]);
    assert_eq!(names(&merged.small), vec!["one/f", "two"]);
    assert_eq!(names(&merged.large), vec!["one/big"]);
    assert_eq!(merged.directories.len(), 2);
}

#[test]
fn formats_go_by_the_extension() {
    assert_eq!(format_for(&p("a.zip")), Some(CompressFormat::Zip));
    assert_eq!(format_for(&p("a.tar.gz")), Some(CompressFormat::Gzip));
    assert_eq!(format_for(&p("a.ZIP")), None);
    assert!(matches!(
        infer_format(&p("a.rar")),
        Err(Error::UnknownCompressFormat { path }) if path.text == "a.rar"
    ));
    assert!(matches!(
        resolve_format(Some(CompressFormat::Gzip), &p("a.zip")),
        Ok(CompressFormat::Gzip)
    ));
    assert!(matches!(
        check_gzip_source(Ok(true), &p("dir")),
        Some(Error::GzipRequiresFile { .. })
    ));
    assert!(check_gzip_source(Ok(false), &p("f")).is_none());
    assert!(matches!(
        check_gzip_source(Err(failure(IoKind::NotFound)), &p("f")),
        Some(Error::SourceNotFound { .. })
    ));
    assert_eq!(archive_name(&p("a\\b/c")), "a/b/c");
}

#[test]
fn a_gzip_stream_has_one_entry() {
    let e = gzip_entry(&p("x/y.txt"), 7, None);
    assert_eq!(e.relative_path.text, "y.txt");
    let (started, entry_started) = gzip_started(&e);
    assert!(matches!(
        started,
        Progress::Started {
            bytes_total: Some(7),
            entries_total: 1
        }
    ));
    assert!(matches!(entry_started, Progress::EntryStarted { .. }));
    let (event, result) = gzip_finished(e.clone(), Ok(()));
    assert!(matches!(event, Progress::EntryCompleted { .. }));
    assert_eq!(result.unwrap().succeeded.len(), 1);
    let (event, result) = gzip_finished(e.clone(), Err(Error::Cancelled));
    assert!(matches!(event, Progress::EntryFailed { .. }));
    assert!(matches!(result, Err(Error::Cancelled)));
    assert!(matches!(read_failed(&e), Progress::EntryFailed { .. }));
}

fn write_archive(strategy: ErrorStrategy) -> (OperationOutcome, bool) {
    let mut writer = ArchiveWriter::new(strategy);
    writer.wrote(entry("a", 1), Ok(()));
    writer.unreadable(entry("b", 1), failure(IoKind::PermissionDenied));
    if !writer.is_stopped() {
        writer.wrote(entry("c", 1), Err("bad entry".to_string()));
    }
    writer.finish(Ok(()), &p("out.zip")).unwrap()
}

#[test]
fn a_stopped_archive_is_removed_unless_failures_are_collected() {
    let (outcome, removed) = write_archive(ErrorStrategy::ContinueAndCollect);
    assert_eq!(outcome.succeeded.len(), 1);
    assert_eq!(outcome.failed.len(), 2);
    assert_eq!(
        outcome.failed[1].1.message(),
        "io error on src/c: bad entry"
    );
    assert!(!removed);
    for (strategy, reason) in [
        (ErrorStrategy::AbortOnError, StopReason::AbortOnError),
        (ErrorStrategy::Undo, StopReason::Undo),
    ] {
        let (outcome, removed) = write_archive(strategy);
        assert!(outcome.succeeded.is_empty());
        assert_eq!(outcome.failed.len(), 1);
        assert_eq!(outcome.stopped_early, Some(reason));
        assert!(removed);
    }
    let writer = ArchiveWriter::new(ErrorStrategy::Undo);
    assert!(writer
        .finish(Err("cannot close".to_string()), &p("out.zip"))
        .is_err());
}

#[test]
fn a_cancelled_archive_is_kept_only_where_failures_are_collected() {
    let (outcome, removed) = after_cancel(copied(&["a"]), true, ErrorStrategy::ContinueAndCollect);
    assert_eq!(outcome.stopped_early, Some(StopReason::Cancelled));
    assert_eq!(outcome.succeeded.len(), 1);
    assert!(!removed);
    let (outcome, removed) = after_cancel(copied(&["a"]), true, ErrorStrategy::AbortOnError);
    assert!(outcome.succeeded.is_empty());
    assert!(removed);
    let (outcome, removed) = after_cancel(copied(&["a"]), false, ErrorStrategy::AbortOnError);
    assert_eq!(outcome.stopped_early, None);
    assert!(!removed);
}

#[test]
fn readers_take_every_file_once() {
    let made = plan(
        Workload {
            small: vec![entry("a", 1), entry("b", 2)],
            large: vec![entry("c", 9)],
            directories: vec![],
        },
        &BatchConfig::default(),
    );
    let (mut queue, event) = ReadQueue::new(made, 1);
    assert!(matches!(
        event,
        Progress::Started {
            bytes_total: Some(12),
            entries_total: 3
        }
    ));
    let mut seen = Vec::new();
    loop {
        match queue.next_unit(false, false) {
            Admission::Finish => break,
            Admission::Wait => panic!("the only worker is free"),
            Admission::Start(unit) => {
                while let Some((e, _)) = queue.next_entry(unit, false) {
                    seen.push(e.relative_path.text);
                }
            }
        }
    }
    assert_eq!(seen, vec!["b", "a", "c"]);
    assert!(!queue.stopped_by_cancel);
    assert!(!queue.stopped);
    assert_eq!(queue.active, 0);
    for (taken, unit) in queue.taken.iter().zip(&queue.units) {
        assert_eq!(*taken, unit.len());
    }
    assert_eq!(queue.next_unit(false, true), Admission::Finish);
}

#[test]
fn a_removal_without_criteria_is_refused() {
    let builder = RemoveBuilder::new(p("root"));
    assert!(builder.dry_run);
    assert!(!builder.hard_delete);
    assert!(matches!(
        builder.check_criteria(),
        Err(Error::RemoveCriteriaRequired)
    ));
    assert!(builder
        .allow_unfiltered_delete(true)
        .check_criteria()
        .is_ok());
    assert!(RemoveBuilder::new(p("root"))
        .extensions(vec!["tmp".to_string()])
        .check_criteria()
        .is_ok());
}

#[test]
fn a_dry_run_lists_what_matches_and_touches_nothing() {
    let filter = RemoveFilter {
        extensions: Some(vec!["tmp".to_string()]),
        exclude_patterns: vec!["keep/**".to_string()],
        ..Default::default()
    };
    let set = filter.compiled_excludes().unwrap();
    let matched = select(
        &filter,
        set.as_ref(),
        vec![entry("a.tmp", 1), entry("b.txt", 1), entry("keep/c.tmp", 1)],
    );
    assert_eq!(names(&matched), vec!["a.tmp"]);
    match after_scan(matched.clone(), true, &BatchConfig::default()) {
        RemoveNext::Preview { outcome } => {
            assert_eq!(names(&outcome.previewed), vec!["a.tmp"]);
            assert!(outcome.succeeded.is_empty());
        }
        RemoveNext::Run { .. } => panic!("it is a dry run"),
    }
    match after_scan(matched, false, &BatchConfig::default()) {
        RemoveNext::Run { plan } => {
            assert_eq!(plan.batches.len(), 1);
            assert!(plan.streams.is_empty());
        }
        RemoveNext::Preview { .. } => panic!("it is no dry run"),
    }
}

#[test]
fn a_removal_reports_what_became_of_each_file() {
    assert!(matches!(
        hard_delete_result(Ok(()), &entry("a", 1)),
        Ok(EntryOutcome::Written)
    ));
    assert!(matches!(
        hard_delete_result(Err(failure(IoKind::NotFound)), &entry("a", 1)),
        Err(Error::SourceNotFound { .. })
    ));
    assert!(matches!(
        trash_result(Err("no trash".to_string()), &entry("a", 1)),
        Err(Error::TrashFailed { source, .. }) if source == "no trash"
    ));
    assert!(trash_result(Ok(()), &entry("a", 1)).is_ok());
    let outcome = from_dispatch(copied(&["a"]));
    assert_eq!(outcome.succeeded.len(), 1);
    assert!(outcome.previewed.is_empty());
}

#[test]
fn watch_failures_map_to_errors() {
    assert!(matches!(
        classify_watch_failure(WatchFailure::PathNotFound, p("a")),
        Error::SourceNotFound { .. }
    ));
    assert!(matches!(
        classify_watch_failure(
            WatchFailure::Io {
                failure: failure(IoKind::PermissionDenied)
            },
            p("a")
        ),
        Error::PermissionDenied { .. }
    ));
    assert_eq!(
        classify_watch_failure(
            WatchFailure::Other {
                message: "limit".to_string()
            },
            p("a")
        )
        .message(),
        "io error on a: limit"
    );
    assert!(watch_result(WatchEnd::Cancelled).is_ok());
    assert!(watch_result(WatchEnd::Stopped { error: None }).is_ok());
    assert!(watch_result(WatchEnd::Stopped {
        error: Some(Error::Cancelled)
    })
    .is_err());
}

#[test]
fn hashes_do_not_depend_on_how_a_content_is_cut() {
    let mut hasher = ContentHasher::new();
    hasher.update(b"hello ");
    hasher.update(b"world");
    assert!(same_hash(&hasher.finish(), &content_hash(b"hello world")));
    assert!(!same_hash(&content_hash(b"a"), &content_hash(b"b")));
    assert_eq!(
        content_hash(b"")[..4],
        [0xaf, 0x13, 0x49, 0xb9],
    );
}

#[test]
fn files_of_different_size_are_not_compared() {
    let broken = || Err(Error::PermissionDenied { path: p("a") });
    assert!(matches!(files_identical(1, 2, broken(), broken()), Ok(false)));
    assert!(files_identical(1, 1, broken(), Ok([0; 32])).is_err());
    assert!(files_identical(1, 1, Ok([0; 32]), broken()).is_err());
    assert!(matches!(
        files_identical(1, 1, Ok([7; 32]), Ok([7; 32])),
        Ok(true)
    ));
    assert!(matches!(
        files_identical(1, 1, Ok([7; 32]), Ok([8; 32])),
        Ok(false)
    ));
}

#[test]
fn a_stream_is_metered_chunk_by_chunk() {
    let mut meter = streams::CopyMeter::new(0, p("a"), 2, 5);
    assert_eq!(meter.buffer_size, 1);
    assert!(matches!(meter.before_read(true), Err(Error::Cancelled)));
    assert!(meter.before_read(false).is_ok());
    assert!(matches!(meter.after_read(Ok(3)), Ok(Some(3))));
    assert!(matches!(meter.after_read(Ok(0)), Ok(None)));
    assert!(matches!(
        meter.after_read(Err(failure(IoKind::NotFound))),
        Err(Error::SourceNotFound { .. })
    ));
    let progress = meter.after_write(3, Ok(())).unwrap();
    assert_eq!(progress.bytes_done, 3);
    let progress = meter.after_write(4, Ok(())).unwrap();
    assert_eq!(
        (progress.bytes_done, progress.bytes_total, progress.files_done, progress.files_total),
        (7, 0, 2, 5)
    );
    assert!(meter
        .after_write(1, Err(failure(IoKind::StorageFull)))
        .is_err());
    assert_eq!(meter.bytes_done, 7);
}

fn found(path: &str, is_dir: bool) -> streams::FoundPath {
    streams::FoundPath { path: p(path), is_dir }
}

#[test]
fn an_archive_lists_everything_below_its_root() {
    let items = streams::zip_items(
        vec![
            found("root", true),
            found("root/sub", true),
            found("root/sub/a.txt", false),
            found("root/b\\c", false),
        ],
        &p("root"),
    );
    let listed: Vec<(String, bool, u64, u64)> = items
        .iter()
        .map(|i| (i.name.clone(), i.is_dir, i.files_done, i.files_total))
        .collect();
    assert_eq!(
        listed,
        vec![
            ("sub/".to_string(), true, 0, 3),
            ("sub/a.txt".to_string(), false, 1, 3),
            ("b/c".to_string(), false, 2, 3)
        ]
    );
    let mut run = streams::ZipRun::new(items);
    assert_eq!(run.next_item(false).unwrap().unwrap().name, "sub/");
    assert!(matches!(run.next_item(true), Err(Error::Cancelled)));
    run.next_item(false).unwrap();
    run.next_item(false).unwrap();
    assert!(run.next_item(true).unwrap().is_none());
}

#[test]
fn a_single_file_is_archived_under_its_name() {
    assert_eq!(streams::zip_single(&p("x/y.txt")).name, "y.txt");
    assert_eq!(streams::zip_single(&p("..")).name, "file");
    assert_eq!(streams::zip_single(&p("..")).files_total, 1);
    assert_eq!(
        streams::classify_listing_error(None, Some(p("d"))).message(),
        "io error on d: walk error with no underlying io::Error"
    );
}

#[test]
fn engines_hand_out_their_buffer_size() {
    let plain = engine::FileEngine::new();
    assert_eq!(plain.options().buffer_size, 1024 * 1024);
    assert!(!plain.options().follow_symlinks);
    let own = engine::FileEngine::with_options(engine::EngineOptions {
        buffer_size: 7,
        follow_symlinks: true,
    });
    let builder = own.compress(p("dir"), p("out.gz"));
    assert_eq!(builder.buffer_size, 7);
    assert!(matches!(
        builder.chosen_format(true),
        Err(Error::GzipRequiresFile { .. })
    ));
    assert!(matches!(
        builder.chosen_format(false),
        Ok(CompressFormat::Gzip)
    ));
    assert!(matches!(
        builder.format(CompressFormat::Zip).chosen_format(true),
        Ok(CompressFormat::Zip)
    ));
    assert!(matches!(
        own.decompress(p("in.rar"), p("dir")).chosen_format(),
        Err(Error::UnknownCompressFormat { path }) if path.text == "in.rar"
    ));
    assert!(matches!(
        own.decompress(p("in.rar"), p("dir"))
            .format(CompressFormat::Gzip)
            .chosen_format(),
        Ok(CompressFormat::Gzip)
    ));
    let listing = own.analyze(p("dir")).recursive(false).with_hash(true);
    assert!(!listing.recursive && listing.with_hash);
}

#[test]
fn a_streamed_move_removes_its_source_last() {
    let builder = MoveBuilder::new(p("a"), p("b"), 8, false).preserve_permissions(true);
    assert!(matches!(builder.first_step(), MoveStep::ProbeDest));
    let step = builder.next_step(MoveStep::ProbeDest, MoveEvent::Probed { exists: false });
    assert!(matches!(step, MoveStep::Rename));
    let step = builder.next_step(step, MoveEvent::Renamed { done: false });
    assert!(matches!(step, MoveStep::StatSource));
    let step = builder.next_step(
        step,
        MoveEvent::Statted {
            result: Ok(SourceKind::Directory),
        },
    );
    assert!(matches!(step, MoveStep::Copy { kind: CopyKind::Tree }));
    let step = builder.next_step(step, MoveEvent::Copied { result: Ok(()) });
    assert!(matches!(
        step,
        MoveStep::KeepPermissions { kind: CopyKind::Tree }
    ));
    let step = builder.next_step(step, MoveEvent::PermissionsKept { result: Ok(()) });
    assert!(matches!(step, MoveStep::Remove { kind: CopyKind::Tree }));
    let step = builder.next_step(step, MoveEvent::Removed { result: Ok(()) });
    assert!(matches!(step, MoveStep::Finished { result: Ok(()) }));
}

#[test]
fn a_streamed_move_keeps_links_and_refuses_destinations() {
    let builder = MoveBuilder::new(p("a"), p("b"), 8, false).preserve_permissions(true);
    assert!(matches!(
        builder.next_step(MoveStep::ProbeDest, MoveEvent::Probed { exists: true }),
        MoveStep::Finished {
            result: Err(Error::DestExists { path })
        } if path.text == "b"
    ));
    let step = builder.next_step(
        MoveStep::StatSource,
        MoveEvent::Statted {
            result: Ok(SourceKind::Symlink),
        },
    );
    assert!(matches!(step, MoveStep::Copy { kind: CopyKind::Link }));
    let step = builder.next_step(step, MoveEvent::Copied { result: Ok(()) });
    assert!(matches!(step, MoveStep::Remove { kind: CopyKind::Link }));
    assert!(matches!(
        builder.next_step(
            MoveStep::StatSource,
            MoveEvent::Statted {
                result: Err(failure(IoKind::NotFound))
            }
        ),
        MoveStep::Finished {
            result: Err(Error::SourceNotFound { path })
        } if path.text == "a"
    ));
    let following = MoveBuilder::new(p("a"), p("b"), 8, true).overwrite(true);
    assert!(matches!(following.first_step(), MoveStep::Rename));
    assert!(matches!(
        following.next_step(
            MoveStep::StatSource,
            MoveEvent::Statted {
                result: Ok(SourceKind::Symlink)
            }
        ),
        MoveStep::Copy { kind: CopyKind::File }
    ));
}

#[test]
fn builders_keep_what_they_are_told() {
    let engine = FileEngine::new();
    let copy = engine
        .copy(p("a"), p("b"))
        .overwrite(true)
        .skip_if_identical(true)
        .preserve_permissions(true)
        .allow_filesystem_integrity_risk(true)
        .small_file_threshold(5)
        .max_bytes_per_batch(6)
        .max_files_per_batch(7)
        .batch_sort_order(SortOrder::Ascending)
        .on_error(ErrorStrategy::Undo)
        .batch_concurrency(8);
    assert!(copy.overwrite && copy.skip_if_identical && copy.preserve_permissions);
    assert!(copy.allow_filesystem_integrity_risk);
    assert_eq!(resolved_threshold(copy.small_file_threshold), 5);
    assert_eq!(copy.batch_config.max_bytes_per_batch, 6);
    assert_eq!(copy.batch_config.max_files_per_batch, Some(7));
    assert_eq!(copy.batch_config.sort_order, SortOrder::Ascending);
    assert_eq!(copy.batch_config.error_strategy, ErrorStrategy::Undo);
    assert_eq!(copy.concurrency, Some(8));

    let plain = engine.move_path(p("a"), p("b"));
    assert!(!plain.overwrite);
    assert_eq!(
        resolved_threshold(plain.small_file_threshold),
        DEFAULT_SMALL_FILE_THRESHOLD
    );
    let many = engine.move_many(vec![p("a"), p("b")], p("c")).overwrite(true);
    assert_eq!(many.sources.len(), 2);
    assert!(many.overwrite);

    let sync = engine
        .sync(p("a"), p("b"))
        .diff_strategy(DiffStrategy::Checksum)
        .on_error(ErrorStrategy::AbortOnError);
    assert!(sync.overwrite);
    assert_eq!(sync.diff_strategy, DiffStrategy::Checksum);
    assert_eq!(sync.batch_config.error_strategy, ErrorStrategy::AbortOnError);

    assert!(engine.watch(p("a")).recursive);
    assert!(!engine.watch(p("a")).recursive(false).recursive);
    assert_eq!(
        engine
            .compress(p("a"), p("b"))
            .format(CompressFormat::Zip)
            .format,
        Some(CompressFormat::Zip)
    );
    let remove = engine
        .remove(p("a"))
        .exclude(vec!["x".to_string()])
        .min_size(1)
        .max_size(2)
        .max_depth(3)
        .follow_symlinks(true)
        .dry_run(false)
        .hard_delete(true)
        .on_error(ErrorStrategy::Undo)
        .batch_concurrency(4);
    assert!(!remove.dry_run && remove.hard_delete && remove.follow_symlinks);
    assert_eq!(remove.filter.min_size, Some(1));
    assert_eq!(remove.filter.max_size, Some(2));
    assert_eq!(remove.max_depth, Some(3));
    assert_eq!(remove.filter.exclude_patterns, vec!["x"]);
}

#[test]
fn workloads_split_at_the_threshold() {
    let workload = Workload::partition(vec![entry("a", 10), entry("b", 11), entry("c", 9)], 10);
    assert_eq!(names(&workload.small), vec!["a", "c"]);
    assert_eq!(names(&workload.large), vec!["b"]);
    assert!(workload.directories.is_empty());
}

#[test]
fn a_workload_announces_its_shape() {
    let mut workload =
        Workload::partition(vec![entry("a", 10), entry("b", 11), entry("c", 9)], 10);
    workload.directories = vec![dir("", None), dir("d", None)];
    assert!(matches!(
        planned(&workload, 10),
        Some(Progress::Planned {
            directories: 2,
            small_files: 2,
            small_bytes: 19,
            large_files: 1,
            large_bytes: 11,
            small_file_threshold: 10
        })
    ));
    assert_eq!(total_size(&vec![entry("a", u64::MAX), entry("b", 0)]), Some(u64::MAX));
    assert_eq!(total_size(&vec![entry("a", u64::MAX), entry("b", 1)]), None);
    workload.large.push(entry("huge", u64::MAX));
    assert!(planned(&workload, 10).is_none());
}

#[test]
fn file_systems_are_told_by_their_name() {
    assert_eq!(family_of("MSDOS"), FilesystemFamily::Fat);
    assert_eq!(family_of("ntfs3"), FilesystemFamily::Ntfs);
    assert_eq!(family_of("ext4"), FilesystemFamily::Other);

    let fat = FilesystemCapabilities::of("vfat", false);
    assert_eq!(fat.max_file_size, Some(4 * 1024 * 1024 * 1024 - 1));
    assert!(!fat.case_sensitive && fat.windows_naming_rules && !fat.write_integrity_risk);
    assert_eq!(fat.timestamp_granularity, Span { secs: 2, nanos: 0 });

    let exfat = FilesystemCapabilities::of("ExFAT", true);
    assert_eq!(exfat.name, "ExFAT");
    assert_eq!(exfat.max_file_size, None);
    assert!(exfat.write_integrity_risk);
    assert!(!FilesystemCapabilities::of("exfat", false).write_integrity_risk);

    let other = FilesystemCapabilities::of("btrfs", true);
    assert!(other.case_sensitive && !other.windows_naming_rules);
    assert_eq!(other.timestamp_granularity, ZERO);
}

#[test]
fn a_synced_destination_has_the_names_of_its_source() {
    let source = vec![aged("kept", 1, 5), aged("newer", 1, 9), aged("new", 1, 5)];
    let dest = vec![aged("kept", 1, 5), aged("newer", 1, 5), aged("orphan", 1, 5)];
    let (to_copy, to_delete) = diff_of(source.clone(), dest.clone(), ZERO);
    let mut left: Vec<String> = names(&dest)
        .into_iter()
        .filter(|name| !to_delete.contains(name))
        .collect();
    for name in to_copy {
        if !left.contains(&name) {
            left.push(name);
        }
    }
    left.sort();
    let mut expected = names(&source);
    expected.sort();
    assert_eq!(left, expected);
}

#[test]
fn every_file_of_a_workload_is_accounted_for() {
    let workload = Workload {
        small: vec![entry("a", 1), entry("CON", 1), entry("b", 2), entry("broken", 3)],
        large: vec![entry("big", 90), entry("huge", 101)],
        directories: vec![dir("", None)],
    };
    let (kept, validation) = validate(workload, &caps(), false).unwrap();
    let config = BatchConfig::default();
    let (pipeline, plan) = match start_pipeline(kept, validation, &p("dst"), &config) {
        PipelineStart::Run { pipeline, plan } => (pipeline, plan),
        PipelineStart::Stopped { .. } => panic!("failures are collected"),
    };
    let (mut pool, started) = Dispatcher::new(plan, config.error_strategy, 2);
    let mut reported = 0;
    while let Admission::Start(unit) = pool.next_unit(false) {
        while let Some((e, _)) = pool.next_entry(unit) {
            let result = match e.relative_path.text.as_str() {
                "broken" => Err(Error::PermissionDenied { path: e.path }),
                "b" => Ok(EntryOutcome::Skipped),
                _ => Ok(EntryOutcome::Written),
            };
            pool.finish_entry(unit, result);
            reported += 1;
        }
    }
    assert!(matches!(
        started,
        Progress::Started { bytes_total: Some(96), entries_total } if entries_total == reported
    ));
    let (dispatched, undone) = pool.conclude();
    assert!(undone.is_empty());
    let outcome = pipeline.finish(dispatched);
    assert_eq!(outcome.stopped_early, None);
    let mut all = names(&outcome.succeeded);
    all.extend(names(&outcome.skipped));
    all.extend(outcome.failed.iter().map(|(e, _)| e.relative_path.text.clone()));
    all.sort();
    assert_eq!(all, vec!["CON", "a", "b", "big", "broken", "huge"]);
    assert_eq!(outcome.failed.len(), 3);
}

#[test]
fn a_fatal_failure_renames_back_under_undo() {
    let mut job = MoveMany::new(vec![p("x/a"), p("x/b")], p("dst"), ErrorStrategy::Undo).unwrap();
    job.next_source(false).unwrap();
    job.record(Ok(MoveOneOutcome::Renamed), true);
    job.next_source(false).unwrap();
    let back = job.record(
        Err(Error::NoSpace {
            needed: 0,
            available: 0,
        }),
        true,
    );
    let back: Vec<(String, String)> = back.into_iter().map(|(a, b)| (a.text, b.text)).collect();
    assert_eq!(back, vec![("dst/a".to_string(), "x/a".to_string())]);
    match job.conclude() {
        MoveManyNext::Done { outcome } => {
            assert_eq!(outcome.stopped_early, Some(StopReason::Fatal));
            assert!(outcome.succeeded.is_empty());
            assert_eq!(outcome.sources_failed.len(), 1);
            assert_eq!(outcome.sources_failed[0].0.text, "x/b");
        }
        MoveManyNext::CopyAcross { .. } => panic!("the move was stopped"),
    }
}

#[test]
fn a_fatal_failure_renames_nothing_back_otherwise() {
    let mut job =
        MoveMany::new(vec![p("x/a"), p("x/b")], p("dst"), ErrorStrategy::AbortOnError).unwrap();
    job.next_source(false).unwrap();
    job.record(Ok(MoveOneOutcome::Renamed), true);
    job.next_source(false).unwrap();
    let back = job.record(
        Err(Error::NoSpace {
            needed: 0,
            available: 0,
        }),
        true,
    );
    assert!(back.is_empty());
}

fn pending(name: &str) -> PendingSource {
    PendingSource {
        source: p(&format!("x/{name}")),
        basename: p(name),
        is_file: true,
    }
}

#[test]
fn a_source_that_vanished_before_its_scan_fails_alone() {
    let vanished = || Err(Error::SourceNotFound { path: p("x/s") });
    let mut failed = Vec::new();
    let found = record_scan(
        &mut failed,
        &pending("a"),
        Ok(small(vec![entry("a", 1)])),
        ErrorStrategy::ContinueAndCollect,
    );
    assert_eq!(names(&found.unwrap().small), vec!["a"]);
    assert!(failed.is_empty());
    let gone = record_scan(
        &mut failed,
        &pending("s"),
        vanished(),
        ErrorStrategy::ContinueAndCollect,
    );
    assert!(matches!(gone, Err(None)));
    assert_eq!(failed.len(), 1);
    assert_eq!(failed[0].0.text, "x/s");
    assert!(matches!(failed[0].1, Error::SourceNotFound { .. }));

    let mut failed = Vec::new();
    let gone = record_scan(&mut failed, &pending("s"), vanished(), ErrorStrategy::Undo);
    assert!(matches!(gone, Err(Some(StopReason::Undo))));
    let renamed = vec![(p("x/a"), p("dst/a")), (p("x/b"), p("dst/b"))];
    let (outcome, back) =
        stopped_by_scan(StopReason::Undo, failed, &renamed, ErrorStrategy::Undo);
    assert_eq!(outcome.stopped_early, Some(StopReason::Undo));
    assert_eq!(outcome.sources_failed.len(), 1);
    let back: Vec<(String, String)> = back.into_iter().map(|(a, b)| (a.text, b.text)).collect();
    assert_eq!(
        back,
        vec![
            ("dst/b".to_string(), "x/b".to_string()),
            ("dst/a".to_string(), "x/a".to_string())
        ]
    );
    let (_, back) =
        stopped_by_scan(StopReason::Fatal, vec![], &renamed, ErrorStrategy::AbortOnError);
    assert!(back.is_empty());
}

#[test]
fn an_undone_removal_reports_what_is_gone() {
    let next = after_scan(
        vec![entry("a", 2), entry("b", 1)],
        false,
        &BatchConfig::default(),
    );
    let made = match next {
        RemoveNext::Run { plan } => plan,
        RemoveNext::Preview { .. } => panic!("it is no dry run"),
    };
    assert_eq!(made.batches[0].total_bytes, 3);
    let (mut pool, _) = Dispatcher::new(made, ErrorStrategy::Undo, 1);
    while let Admission::Start(unit) = pool.next_unit(false) {
        while let Some((e, _)) = pool.next_entry(unit) {
            let result = if e.relative_path.text == "b" {
                Err(Error::PermissionDenied { path: e.path })
            } else {
                Ok(EntryOutcome::Written)
            };
            pool.finish_entry(unit, result);
        }
    }
    let outcome = from_dispatch(pool.conclude_kept());
    assert_eq!(names(&outcome.succeeded), vec!["a"]);
    assert_eq!(outcome.failed.len(), 1);
    assert!(matches!(outcome.failed[0].1, Error::PermissionDenied { .. }));
    assert_eq!(outcome.stopped_early, Some(StopReason::Undo));
    assert!(outcome.previewed.is_empty());
}

#[test]
fn a_cancelled_removal_reports_what_is_gone() {
    let made = plan(small(vec![entry("a", 2)]), &BatchConfig::default());
    let (mut pool, _) = Dispatcher::new(made, ErrorStrategy::Undo, 1);
    assert_eq!(pool.next_unit(true), Admission::Finish);
    let outcome = pool.conclude_kept();
    assert!(outcome.succeeded.is_empty());
    assert_eq!(outcome.stopped_early, Some(StopReason::Cancelled));
}

fn with_found(copied_names: &[&str], found: &[&str]) -> OperationOutcome {
    let mut outcome = copied(copied_names);
    outcome.skipped = found.iter().map(|n| entry(n, 1)).collect();
    outcome
}

#[test]
fn the_source_of_an_identical_destination_is_removed_too() {
    let (mut sweep, event) =
        Sweep::new(with_found(&[], &["same"]), ErrorStrategy::ContinueAndCollect);
    assert!(matches!(
        event,
        Some(Progress::Started {
            bytes_total: None,
            entries_total: 1
        })
    ));
    let (e, _) = sweep.next_entry().unwrap();
    assert_eq!(e.path.text, "src/same");
    sweep.record(Ok(()), &p("dst"));
    assert!(sweep.next_entry().is_none());
    assert!(sweep.outcome.succeeded.is_empty());
    assert_eq!(names(&sweep.outcome.skipped), vec!["same"]);
}

#[test]
fn an_undone_sweep_keeps_destinations_that_were_there_before() {
    let (mut sweep, _) = Sweep::new(
        with_found(&["copied"], &["found", "stuck", "later"]),
        ErrorStrategy::Undo,
    );
    let mut undo = Vec::new();
    while let Some((e, _)) = sweep.next_entry() {
        let result = if e.relative_path.text == "stuck" {
            Err(Error::PermissionDenied { path: e.path })
        } else {
            Ok(())
        };
        undo.extend(sweep.record(result, &p("dst")).1);
    }
    assert_eq!(undo.len(), 4);
    assert!(matches!(&undo[0], RollbackStep::LeaveAlone { entry } if entry.path.text == "src/later"));
    assert!(matches!(&undo[1], RollbackStep::LeaveAlone { entry } if entry.path.text == "src/stuck"));
    assert!(
        matches!(&undo[2], RollbackStep::RestoreFromKept { dest, .. } if dest.text == "dst/found")
    );
    assert!(
        matches!(&undo[3], RollbackStep::RestoreSource { dest, .. } if dest.text == "dst/copied")
    );
    assert_eq!(sweep.outcome.stopped_early, Some(StopReason::Undo));
}

#[test]
fn a_copy_that_was_taken_back_leaves_every_source() {
    let mut outcome = with_found(&[], &["same"]);
    outcome.stopped_early = Some(StopReason::Undo);
    let (sweep, event) = Sweep::new(outcome, ErrorStrategy::Undo);
    assert!(event.is_none());
    assert!(sweep.next_entry().is_none());

    let mut outcome = with_found(&[], &["same"]);
    outcome.stopped_early = Some(StopReason::AbortOnError);
    let (sweep, _) = Sweep::new(outcome, ErrorStrategy::AbortOnError);
    assert!(sweep.next_entry().is_some());
}

#[test]
fn a_queue_that_is_stopped_says_so() {
    let made = plan(small(vec![entry("a", 1), entry("b", 2)]), &BatchConfig::default());
    let (mut queue, _) = ReadQueue::new(made, 1);
    let Admission::Start(unit) = queue.next_unit(false, false) else {
        panic!("the only worker is free");
    };
    assert!(queue.next_entry(unit, false).is_some());
    assert!(queue.next_entry(unit, true).is_none());
    assert!(queue.stopped);
    assert_eq!(queue.next_unit(true, false), Admission::Finish);
    assert!(!queue.stopped_by_cancel);
}

#[test]
fn every_source_is_settled_once() {
    let sources = vec![p("x/a"), p("x/b"), p("x/c"), p("x/d"), p("x/e")];
    let mut job =
        MoveMany::new(sources, p("dst"), ErrorStrategy::ContinueAndCollect).unwrap();
    let results = [
        Ok(MoveOneOutcome::Renamed),
        Ok(MoveOneOutcome::Resolved),
        Err(Error::PermissionDenied { path: p("x/c") }),
        Ok(MoveOneOutcome::CrossDevice),
    ];
    for result in results {
        job.next_source(false).unwrap();
        job.record(result, true);
    }
    assert_eq!(job.next, 4);
    assert_eq!(job.renamed.len(), 1);
    assert_eq!(job.renamed[0].0.text, "x/a");
    assert_eq!(job.sources_failed.len(), 1);
    assert_eq!(job.sources_failed[0].0.text, "x/c");
    assert_eq!(job.pending.len(), 1);
    assert_eq!(job.pending[0].source.text, "x/d");
}

#[test]
fn every_orphan_is_deleted_or_failed() {
    let outcome = sweep_orphans(ErrorStrategy::ContinueAndCollect);
    let mut all = names(&outcome.succeeded);
    all.extend(outcome.failed.iter().map(|(e, _)| e.relative_path.text.clone()));
    all.sort();
    assert_eq!(all, vec!["a", "b", "c"]);
    let outcome = sweep_orphans(ErrorStrategy::AbortOnError);
    assert_eq!(outcome.succeeded.len() + outcome.failed.len(), 2);
}

use file_engine::error::{Error, IoFailure, IoKind};
use file_engine::ordering::stable_order;
use file_engine::paths::FilePath;
use file_engine::planner::action::{removed, CopyAction, CopyEvent, CopyStep, EntryOutcome};
use file_engine::planner::batch::{pack, Batch};
use file_engine::planner::config::{
    entry_sizes, median_size, BatchConfig, ErrorStrategy, SortOrder, DEFAULT_MAX_BYTES_PER_BATCH,
    FALLBACK_MAX_FILES_PER_BATCH,
};
use file_engine::planner::dispatcher::{plan_totals, reversed, Admission, Dispatcher};
use file_engine::planner::outcome::{stop_reason_for, strategy_stop_reason, StopReason};
use file_engine::planner::plan::{plan, ExecutionPlan};
use file_engine::profiler::{Entry, Workload};
use file_engine::progress::Progress;

fn entry(name: &str, size: u64) -> Entry {
    Entry {
        path: FilePath::new(name),
        relative_path: FilePath::new(name),
        size,
        modified: None,
    }
}

fn sized(size: u64) -> Entry {
    entry("x", size)
}

fn config(
    max_bytes_per_batch: u64,
    max_files_per_batch: Option<usize>,
    sort_order: SortOrder,
) -> BatchConfig {
    BatchConfig {
        max_bytes_per_batch,
        max_files_per_batch,
        sort_order,
        ..BatchConfig::default()
    }
}

fn key(e: &Entry) -> (String, u64) {
    (e.path.text.clone(), e.size)
}

fn all_entries(batches: &[Batch]) -> Vec<(String, u64)> {
    let mut out: Vec<(String, u64)> = batches
        .iter()
        .flat_map(|b| b.entries.iter().map(key))
        .collect();
    out.sort();
    out
}

fn sorted(entries: Vec<Entry>) -> Vec<(String, u64)> {
    let mut out: Vec<(String, u64)> = entries.iter().map(key).collect();
    out.sort();
    out
}

fn uniform() -> Vec<Entry> {
    (0..20)
        .map(|i| entry(&format!("uniform-{i}"), 1024))
        .collect()
}

fn all_tiny() -> Vec<Entry> {
    (0..500).map(|i| entry(&format!("tiny-{i}"), 1)).collect()
}

fn bimodal() -> Vec<Entry> {
    let mut entries: Vec<Entry> = (0..200).map(|i| entry(&format!("tiny-{i}"), 8)).collect();
    entries.extend((0..10).map(|i| entry(&format!("near-threshold-{i}"), 250_000)));
    entries
}

fn assert_caps_respected(entries: Vec<Entry>, config: &BatchConfig) -> Vec<Batch> {
    let batches = pack(entries.clone(), config);
    let max_files = config.resolved_max_files_per_batch(&entries);
    for batch in &batches {
        // A lone entry that is larger than the budget still gets a batch, of its own.
        assert!(batch.total_bytes <= config.max_bytes_per_batch || batch.entries.len() == 1);
        assert!(batch.entries.len() <= max_files);
        let actual_bytes: u64 = batch.entries.iter().map(|e| e.size).sum();
        assert_eq!(actual_bytes, batch.total_bytes);
    }
    batches
}

#[test]
fn no_batch_exceeds_caps_across_distributions_and_sort_orders() {
    for distribution in [uniform(), all_tiny(), bimodal()] {
        for sort_order in [SortOrder::Ascending, SortOrder::Descending] {
            let config = config(8 * 1024, Some(16), sort_order);
            assert_caps_respected(distribution.clone(), &config);
        }
    }
}

#[test]
fn every_entry_appears_in_exactly_one_batch() {
    for distribution in [uniform(), all_tiny(), bimodal()] {
        let config = config(8 * 1024, Some(16), SortOrder::Descending);
        let batches = pack(distribution.clone(), &config);
        assert_eq!(all_entries(&batches), sorted(distribution));
    }
}

#[test]
fn packing_is_deterministic() {
    let entries = bimodal();
    let config = config(8 * 1024, Some(16), SortOrder::Descending);

    let first = pack(entries.clone(), &config);
    let second = pack(entries, &config);

    let first: Vec<_> = first
        .iter()
        .map(|b| {
            b.entries
                .iter()
                .map(|e| e.path.text.clone())
                .collect::<Vec<_>>()
        })
        .collect();
    let second: Vec<_> = second
        .iter()
        .map(|b| {
            b.entries
                .iter()
                .map(|e| e.path.text.clone())
                .collect::<Vec<_>>()
        })
        .collect();
    assert_eq!(first, second);
}

#[test]
fn ascending_fills_smallest_entries_first() {
    let entries = vec![entry("a", 300), entry("b", 100), entry("c", 200)];
    let config = config(u64::MAX, Some(1), SortOrder::Ascending);
    let batches = pack(entries, &config);
    assert_eq!(batches[0].entries[0].path.text, "b");
    assert_eq!(batches[1].entries[0].path.text, "c");
    assert_eq!(batches[2].entries[0].path.text, "a");
}

#[test]
fn descending_fills_largest_entries_first() {
    let entries = vec![entry("a", 300), entry("b", 100), entry("c", 200)];
    let config = config(u64::MAX, Some(1), SortOrder::Descending);
    let batches = pack(entries, &config);
    assert_eq!(batches[0].entries[0].path.text, "a");
    assert_eq!(batches[1].entries[0].path.text, "c");
    assert_eq!(batches[2].entries[0].path.text, "b");
}

#[test]
fn single_entry_larger_than_byte_budget_becomes_its_own_batch() {
    let entries = vec![
        entry("small", 100),
        entry("oversized", 10_000),
        entry("small-2", 100),
    ];
    let config = config(1_000, None, SortOrder::Descending);
    let batches = pack(entries, &config);

    let oversized_batch = batches
        .iter()
        .find(|b| b.entries.iter().any(|e| e.path.text == "oversized"))
        .expect("oversized entry should be in some batch");
    assert_eq!(oversized_batch.entries.len(), 1);
    assert_eq!(oversized_batch.total_bytes, 10_000);
}

#[test]
fn empty_input_produces_no_batches() {
    let config = config(8 * 1024, None, SortOrder::Descending);
    assert!(pack(Vec::new(), &config).is_empty());
}

#[test]
fn explicit_override_wins_regardless_of_sizes() {
    let config = BatchConfig {
        max_files_per_batch: Some(7),
        ..BatchConfig::default()
    };
    let entries: Vec<Entry> = vec![sized(1), sized(1_000_000)];
    assert_eq!(config.resolved_max_files_per_batch(&entries), 7);
}

#[test]
fn derived_from_median_with_even_length_input() {
    // Sizes 10, 20, 30, 40 -> median = (20 + 30) / 2 = 25.
    let entries: Vec<Entry> = vec![sized(40), sized(10), sized(30), sized(20)];
    let config = BatchConfig {
        max_bytes_per_batch: 250,
        max_files_per_batch: None,
        ..BatchConfig::default()
    };
    assert_eq!(config.resolved_max_files_per_batch(&entries), 10);
}

#[test]
fn derivation_on_empty_entries_does_not_panic() {
    let config = BatchConfig {
        max_files_per_batch: None,
        ..BatchConfig::default()
    };
    assert_eq!(
        config.resolved_max_files_per_batch(&vec![]),
        FALLBACK_MAX_FILES_PER_BATCH
    );
}

#[test]
fn derivation_on_all_zero_byte_entries_does_not_panic() {
    let entries: Vec<Entry> = vec![sized(0), sized(0), sized(0)];
    let config = BatchConfig {
        max_files_per_batch: None,
        ..BatchConfig::default()
    };
    assert_eq!(
        config.resolved_max_files_per_batch(&entries),
        FALLBACK_MAX_FILES_PER_BATCH
    );
}

#[test]
fn error_strategy_defaults_to_continue_and_collect() {
    assert_eq!(
        BatchConfig::default().error_strategy,
        ErrorStrategy::ContinueAndCollect
    );
}

#[test]
fn default_config_is_as_documented() {
    let config = BatchConfig::default();
    assert_eq!(config.max_bytes_per_batch, DEFAULT_MAX_BYTES_PER_BATCH);
    assert_eq!(DEFAULT_MAX_BYTES_PER_BATCH, 8 * 1024 * 1024);
    assert_eq!(config.max_files_per_batch, None);
    assert_eq!(config.sort_order, SortOrder::Descending);
}

#[test]
fn median_of_an_odd_number_of_sizes_is_the_middle_one() {
    let entries = vec![sized(9), sized(1), sized(5)];
    assert_eq!(entry_sizes(&entries), vec![9, 1, 5]);
    assert_eq!(median_size(&entries), 5);
}

#[test]
fn a_batch_is_closed_when_the_next_entry_does_not_fit() {
    let config = config(10, Some(2), SortOrder::Descending);
    let batches = pack(
        vec![entry("a", 6), entry("b", 5), entry("c", 4), entry("d", 1), entry("e", 1)],
        &config,
    );
    let names: Vec<Vec<String>> = batches
        .iter()
        .map(|b| b.entries.iter().map(|e| e.path.text.clone()).collect())
        .collect();
    assert_eq!(names, vec![vec!["a"], vec!["b", "c"], vec!["d", "e"]]);
    assert_eq!(
        batches.iter().map(|b| b.total_bytes).collect::<Vec<_>>(),
        vec![6, 9, 2]
    );
}

#[test]
fn equal_keys_keep_their_order() {
    assert_eq!(stable_order(&vec![2, 1, 2, 1], false), vec![1, 3, 0, 2]);
    assert_eq!(stable_order(&vec![2, 1, 2, 1], true), vec![0, 2, 1, 3]);
    assert_eq!(stable_order(&vec![], true), Vec::<usize>::new());
}

#[test]
fn a_plan_batches_small_files_and_streams_large_ones() {
    let workload = Workload {
        small: vec![entry("s1", 1), entry("s2", 2)],
        large: vec![entry("l1", 100)],
        directories: vec![],
    };
    let made = plan(workload, &config(1024, Some(8), SortOrder::Descending));
    assert_eq!(made.batches.len(), 1);
    assert_eq!(made.batches[0].entries[0].path.text, "s2");
    assert_eq!(made.streams.len(), 1);
    assert_eq!(made.streams[0].entry.path.text, "l1");
    assert_eq!(plan_totals(&made), Some((103, 3)));
}

#[test]
fn an_empty_plan_is_finished_at_once() {
    let (mut pool, event) = Dispatcher::new(
        ExecutionPlan::default(),
        ErrorStrategy::ContinueAndCollect,
        4,
    );
    assert!(matches!(
        event,
        Progress::Started {
            bytes_total: Some(0),
            entries_total: 0
        }
    ));
    assert_eq!(pool.next_unit(false), Admission::Finish);
    let (outcome, undone) = pool.conclude();
    assert!(outcome.succeeded.is_empty());
    assert!(outcome.failed.is_empty());
    assert_eq!(outcome.stopped_early, None);
    assert!(undone.is_empty());
}

fn units(names: &[&str]) -> ExecutionPlan {
    plan(
        Workload {
            small: vec![],
            large: names.iter().map(|n| entry(n, 10)).collect(),
            directories: vec![],
        },
        &BatchConfig::default(),
    )
}

fn denied(name: &str) -> Error {
    Error::PermissionDenied {
        path: FilePath::new(name),
    }
}

/// Carries a plan out with one worker. `result` says what becomes of each entry.
fn run(
    plan: ExecutionPlan,
    strategy: ErrorStrategy,
    cancel_after: usize,
    result: fn(&str) -> Result<EntryOutcome, Error>,
) -> (Vec<String>, file_engine::planner::outcome::OperationOutcome, Vec<String>) {
    let (mut pool, _) = Dispatcher::new(plan, strategy, 1);
    let mut seen: Vec<String> = Vec::new();
    loop {
        match pool.next_unit(seen.len() >= cancel_after) {
            Admission::Finish => break,
            Admission::Wait => panic!("the only worker is free"),
            Admission::Start(unit) => {
                while let Some((entry, event)) = pool.next_entry(unit) {
                    assert!(matches!(event, Progress::EntryStarted { .. }));
                    seen.push(entry.path.text.clone());
                    let told = pool.finish_entry(unit, result(&entry.path.text));
                    assert!(matches!(
                        told,
                        Progress::EntryCompleted { .. } | Progress::EntryFailed { .. }
                    ));
                }
            }
        }
    }
    let (outcome, undone) = pool.conclude();
    (
        seen,
        outcome,
        undone.iter().map(|e| e.path.text.clone()).collect(),
    )
}

fn b_fails(name: &str) -> Result<EntryOutcome, Error> {
    if name == "b" {
        Err(denied(name))
    } else {
        Ok(EntryOutcome::Written)
    }
}

fn b_is_out_of_space(name: &str) -> Result<EntryOutcome, Error> {
    if name == "b" {
        Err(Error::NoSpace {
            needed: 10,
            available: 0,
        })
    } else {
        Ok(EntryOutcome::Written)
    }
}

fn all_skipped(_name: &str) -> Result<EntryOutcome, Error> {
    Ok(EntryOutcome::Skipped)
}

#[test]
fn collecting_goes_on_behind_a_failure() {
    let (seen, outcome, undone) = run(
        units(&["a", "b", "c"]),
        ErrorStrategy::ContinueAndCollect,
        99,
        b_fails,
    );
    assert_eq!(seen, vec!["a", "b", "c"]);
    assert_eq!(outcome.succeeded.len(), 2);
    assert_eq!(outcome.failed.len(), 1);
    assert_eq!(outcome.failed[0].0.path.text, "b");
    assert_eq!(outcome.stopped_early, None);
    assert!(undone.is_empty());
}

#[test]
fn aborting_starts_nothing_behind_a_failure() {
    let (seen, outcome, undone) = run(
        units(&["a", "b", "c"]),
        ErrorStrategy::AbortOnError,
        99,
        b_fails,
    );
    assert_eq!(seen, vec!["a", "b"]);
    assert_eq!(outcome.stopped_early, Some(StopReason::AbortOnError));
    assert_eq!(outcome.succeeded.len(), 1);
    assert!(undone.is_empty());
}

#[test]
fn undoing_takes_back_what_succeeded_last_first() {
    let (seen, outcome, undone) = run(
        units(&["a", "c", "b", "d"]),
        ErrorStrategy::Undo,
        99,
        b_fails,
    );
    assert_eq!(seen, vec!["a", "c", "b"]);
    assert_eq!(outcome.stopped_early, Some(StopReason::Undo));
    assert!(outcome.succeeded.is_empty());
    assert_eq!(undone, vec!["c", "a"]);
}

#[test]
fn a_fatal_error_stops_even_a_collecting_run() {
    let (seen, outcome, _) = run(
        units(&["a", "b", "c"]),
        ErrorStrategy::ContinueAndCollect,
        99,
        b_is_out_of_space,
    );
    assert_eq!(seen, vec!["a", "b"]);
    assert_eq!(outcome.stopped_early, Some(StopReason::Fatal));
}

#[test]
fn a_cancelled_run_starts_nothing_more() {
    let (seen, outcome, undone) = run(
        units(&["a", "c", "d"]),
        ErrorStrategy::ContinueAndCollect,
        1,
        b_fails,
    );
    assert_eq!(seen, vec!["a"]);
    assert_eq!(outcome.stopped_early, Some(StopReason::Cancelled));
    assert_eq!(outcome.succeeded.len(), 1);
    assert!(undone.is_empty());
}

#[test]
fn a_cancelled_run_is_taken_back_under_undo() {
    let (_, outcome, undone) = run(units(&["a", "c", "d"]), ErrorStrategy::Undo, 2, b_fails);
    assert_eq!(outcome.stopped_early, Some(StopReason::Cancelled));
    assert!(outcome.succeeded.is_empty());
    assert_eq!(undone, vec!["c", "a"]);
}

#[test]
fn a_cancel_behind_the_last_unit_changes_nothing() {
    let (seen, outcome, _) = run(
        units(&["a", "c"]),
        ErrorStrategy::ContinueAndCollect,
        2,
        b_fails,
    );
    assert_eq!(seen, vec!["a", "c"]);
    assert_eq!(outcome.stopped_early, None);
}

#[test]
fn skipped_entries_are_reported_apart() {
    let (_, outcome, _) = run(
        units(&["a", "b"]),
        ErrorStrategy::ContinueAndCollect,
        99,
        all_skipped,
    );
    assert_eq!(outcome.skipped.len(), 2);
    assert!(outcome.succeeded.is_empty());
}

#[test]
fn no_more_workers_than_the_limit_have_a_unit() {
    let (mut pool, _) = Dispatcher::new(
        units(&["a", "b", "c"]),
        ErrorStrategy::ContinueAndCollect,
        2,
    );
    assert_eq!(pool.next_unit(false), Admission::Start(0));
    assert_eq!(pool.next_unit(false), Admission::Start(1));
    assert_eq!(pool.next_unit(false), Admission::Wait);
    assert!(pool.next_entry(0).is_some());
    pool.finish_entry(0, Ok(EntryOutcome::Written));
    assert!(pool.next_entry(0).is_none());
    assert_eq!(pool.next_unit(false), Admission::Start(2));
}

#[test]
fn a_pool_has_at_least_one_worker() {
    let (mut pool, _) = Dispatcher::new(units(&["a"]), ErrorStrategy::ContinueAndCollect, 0);
    assert_eq!(pool.next_unit(false), Admission::Start(0));
}

#[test]
fn reversed_entries_start_with_the_last() {
    let names: Vec<String> = reversed(&vec![entry("a", 1), entry("b", 1)])
        .iter()
        .map(|e| e.path.text.clone())
        .collect();
    assert_eq!(names, vec!["b", "a"]);
}

#[test]
fn stop_reasons_follow_the_strategy() {
    assert_eq!(
        strategy_stop_reason(ErrorStrategy::ContinueAndCollect),
        None
    );
    assert_eq!(
        strategy_stop_reason(ErrorStrategy::Undo),
        Some(StopReason::Undo)
    );
    assert_eq!(
        stop_reason_for(ErrorStrategy::ContinueAndCollect, &Error::Cancelled),
        Some(StopReason::Fatal)
    );
    assert_eq!(
        stop_reason_for(ErrorStrategy::AbortOnError, &denied("a")),
        Some(StopReason::AbortOnError)
    );
}

fn failure(kind: IoKind) -> IoFailure {
    IoFailure {
        kind,
        message: "failed".to_string(),
    }
}

#[test]
fn a_copy_creates_the_parent_and_looks_at_the_destination_first() {
    let action = CopyAction {
        overwrite: false,
        skip_if_identical: false,
    };
    let e = entry("src/a.txt", 5);
    let dest = action.progress_target(&entry("a.txt", 5), &FilePath::new("out"));
    assert_eq!(dest.text, "out/a.txt");

    let step = action.first_step(&dest);
    match &step {
        CopyStep::CreateParent { parent } => assert_eq!(parent.text, "out"),
        other => panic!("unexpected step {other:?}"),
    }
    let step = action.next_step(&e, &dest, step, CopyEvent::Done { result: Ok(()) });
    assert!(matches!(step, CopyStep::ProbeDest));
    let step = action.next_step(
        &e,
        &dest,
        step,
        CopyEvent::Probed {
            result: Err(failure(IoKind::NotFound)),
        },
    );
    assert!(matches!(step, CopyStep::CopyFile));
    let step = action.next_step(&e, &dest, step, CopyEvent::Done { result: Ok(()) });
    assert!(matches!(
        step,
        CopyStep::Finished {
            result: Ok(EntryOutcome::Written)
        }
    ));
}

#[test]
fn an_existing_destination_is_refused_or_skipped_where_identical() {
    let e = entry("a.txt", 5);
    let dest = FilePath::new("out/a.txt");
    let strict = CopyAction {
        overwrite: false,
        skip_if_identical: false,
    };
    let step = strict.next_step(
        &e,
        &dest,
        CopyStep::ProbeDest,
        CopyEvent::Probed { result: Ok(5) },
    );
    assert!(matches!(
        step,
        CopyStep::Finished {
            result: Err(Error::DestExists { .. })
        }
    ));

    let lenient = CopyAction {
        overwrite: false,
        skip_if_identical: true,
    };
    let step = lenient.next_step(
        &e,
        &dest,
        CopyStep::ProbeDest,
        CopyEvent::Probed { result: Ok(5) },
    );
    assert!(matches!(step, CopyStep::CompareContent));
    let same = lenient.next_step(
        &e,
        &dest,
        CopyStep::CompareContent,
        CopyEvent::Compared { result: Ok(true) },
    );
    assert!(matches!(
        same,
        CopyStep::Finished {
            result: Ok(EntryOutcome::Skipped)
        }
    ));
    let different = lenient.next_step(
        &e,
        &dest,
        CopyStep::CompareContent,
        CopyEvent::Compared { result: Ok(false) },
    );
    assert!(matches!(
        different,
        CopyStep::Finished {
            result: Err(Error::DestExists { .. })
        }
    ));
}

#[test]
fn overwriting_does_not_look_at_the_destination() {
    let action = CopyAction {
        overwrite: true,
        skip_if_identical: true,
    };
    let step = action.next_step(
        &entry("a", 1),
        &FilePath::new("out/a"),
        CopyStep::CreateParent {
            parent: FilePath::new("out"),
        },
        CopyEvent::Done { result: Ok(()) },
    );
    assert!(matches!(step, CopyStep::CopyFile));
}

#[test]
fn a_full_disk_tells_how_much_was_needed() {
    let action = CopyAction {
        overwrite: true,
        skip_if_identical: false,
    };
    let step = action.next_step(
        &entry("a", 77),
        &FilePath::new("out/a"),
        CopyStep::CopyFile,
        CopyEvent::Done {
            result: Err(failure(IoKind::StorageFull)),
        },
    );
    assert!(matches!(
        step,
        CopyStep::Finished {
            result: Err(Error::NoSpace {
                needed: 77,
                available: 0
            })
        }
    ));
}

#[test]
fn removing_what_is_gone_is_no_failure() {
    assert!(removed(Err(failure(IoKind::NotFound)), &FilePath::new("a")).is_ok());
    assert!(matches!(
        removed(Err(failure(IoKind::PermissionDenied)), &FilePath::new("a")),
        Err(Error::PermissionDenied { .. })
    ));
}

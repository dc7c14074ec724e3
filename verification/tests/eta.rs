use file_engine::eta::{EtaEstimator, KnownRates, Regime};
use file_engine::paths::FilePath;
use file_engine::profiler::Entry;
use file_engine::progress::Progress;

fn entry(name: &str, size: u64) -> Entry {
    Entry {
        path: FilePath::new(name),
        relative_path: FilePath::new(name),
        size,
        modified: None,
    }
}

fn planned(directories: usize, small_files: usize, large_bytes: u64) -> Progress {
    Progress::Planned {
        directories,
        small_files,
        small_bytes: small_files as u64,
        large_files: usize::from(large_bytes > 0),
        large_bytes,
        small_file_threshold: 1024,
    }
}

fn started() -> Progress {
    Progress::Started {
        bytes_total: Some(0),
        entries_total: 0,
    }
}

const NOTHING: KnownRates = KnownRates {
    directories: false,
    small_files: false,
    large_bytes: false,
    all_bytes: false,
};

#[test]
fn nothing_can_be_estimated_before_anything_completes() {
    let mut eta = EtaEstimator::new();
    eta.observe(&planned(0, 10, 0));
    eta.observe(&started());
    assert!(!eta.can_estimate(NOTHING));
    assert!(eta.can_estimate(KnownRates {
        small_files: true,
        ..NOTHING
    }));
}

#[test]
fn nothing_outstanding_can_always_be_estimated() {
    let mut eta = EtaEstimator::new();
    eta.observe(&planned(0, 0, 0));
    eta.observe(&started());
    assert!(eta.can_estimate(NOTHING));
}

#[test]
fn failed_entries_use_up_work_as_well() {
    let mut eta = EtaEstimator::new();
    eta.observe(&planned(0, 2, 0));
    eta.observe(&started());
    eta.observe(&Progress::EntryStarted {
        entry: entry("x", 10),
    });
    let charge = eta.observe(&Progress::EntryFailed {
        entry: entry("x", 10),
    });
    assert_eq!(charge.small_files, 1);
    assert_eq!(charge.all_bytes, 10);
    assert!(charge.time_for_small_files && charge.time_for_all_bytes);
    assert_eq!(eta.small_files_remaining, 1);
}

#[test]
fn a_phase_without_a_plan_costs_by_entry() {
    let mut eta = EtaEstimator::new();
    eta.observe(&Progress::Started {
        bytes_total: None,
        entries_total: 100,
    });
    assert_eq!(eta.regime_for(5_000_000), Regime::SmallFile);
    assert_eq!(eta.small_files_remaining, 100);
}

#[test]
fn sampled_bytes_count_once() {
    let mut eta = EtaEstimator::new();
    eta.observe(&planned(0, 0, 200_000_000));
    eta.observe(&started());
    let big = entry("x", 100_000_000);
    assert_eq!(eta.regime_for(big.size), Regime::LargeFile);
    eta.observe(&Progress::EntryStarted { entry: big.clone() });
    let mut counted = 0;
    for bytes_copied in [25_000_000, 50_000_000, 40_000_000, 75_000_000] {
        counted += eta
            .observe(&Progress::EntryProgress {
                entry: big.clone(),
                bytes_copied,
            })
            .large_bytes;
    }
    assert_eq!(counted, 75_000_000);
    counted += eta
        .observe(&Progress::EntryCompleted { entry: big })
        .large_bytes;
    assert_eq!(counted, 100_000_000);
    assert_eq!(eta.large_bytes_remaining, 100_000_000);
    assert_eq!(eta.large_in_flight, 0);
}

#[test]
fn directories_are_counted_before_any_file() {
    let mut eta = EtaEstimator::new();
    eta.observe(&planned(3, 0, 0));
    eta.observe(&Progress::DirectoriesStarted { total: 3 });
    let charge = eta.observe(&Progress::DirectoryCompleted {
        path: FilePath::new("d"),
    });
    assert_eq!(charge.directories, 1);
    assert!(charge.time_for_directories);
    assert!(!charge.time_for_all_bytes);
    assert_eq!(eta.directories_remaining, 2);
    eta.observe(&started());
    assert!(!eta.directories_in_flight);
}

#[test]
fn large_files_fall_back_on_the_rate_of_all_bytes() {
    let mut eta = EtaEstimator::new();
    eta.observe(&planned(0, 0, 5000));
    assert!(!eta.can_estimate(NOTHING));
    assert!(eta.can_estimate(KnownRates {
        all_bytes: true,
        ..NOTHING
    }));
    assert!(eta.can_estimate(KnownRates {
        large_bytes: true,
        ..NOTHING
    }));
}

#[test]
fn surplus_completions_leave_nothing_below_zero() {
    let mut eta = EtaEstimator::new();
    eta.observe(&Progress::EntryCompleted {
        entry: entry("x", 10),
    });
    eta.observe(&Progress::DirectoryCompleted {
        path: FilePath::new("d"),
    });
    eta.observe(&planned(0, 1, 0));
    eta.observe(&started());
    eta.observe(&Progress::EntryCompleted {
        entry: entry("x", 10),
    });
    eta.observe(&Progress::EntryCompleted {
        entry: entry("x", 10),
    });
    assert_eq!(eta.small_files_remaining, 0);
    assert!(eta.can_estimate(NOTHING));
}

/// Work and time that the charges of a run add up to, for each rate.
#[derive(Default)]
struct Rates {
    directories: (f64, f64),
    small_files: (f64, f64),
    large_bytes: (f64, f64),
    all_bytes: (f64, f64),
    has_seen_event: bool,
}

fn per_sec(rate: (f64, f64)) -> Option<f64> {
    if rate.0 > 0.0 && rate.1 > 0.0 {
        Some(rate.0 / rate.1)
    } else {
        None
    }
}

fn replay(eta: &mut EtaEstimator, rates: &mut Rates, script: &[(Progress, f64)]) {
    for (event, delay) in script {
        let charge = eta.observe(event);
        rates.directories.0 += charge.directories as f64;
        rates.small_files.0 += charge.small_files as f64;
        rates.large_bytes.0 += charge.large_bytes as f64;
        rates.all_bytes.0 += charge.all_bytes as f64;
        if rates.has_seen_event {
            if charge.time_for_directories {
                rates.directories.1 += delay;
            }
            if charge.time_for_small_files {
                rates.small_files.1 += delay;
            }
            if charge.time_for_large_files {
                rates.large_bytes.1 += delay;
            }
            if charge.time_for_all_bytes {
                rates.all_bytes.1 += delay;
            }
        }
        rates.has_seen_event = true;
    }
}

/// The seconds that are left at the rates of the whole run.
fn estimate(eta: &EtaEstimator, rates: &Rates) -> Option<f64> {
    let known = KnownRates {
        directories: per_sec(rates.directories).is_some(),
        small_files: per_sec(rates.small_files).is_some(),
        large_bytes: per_sec(rates.large_bytes).is_some(),
        all_bytes: per_sec(rates.all_bytes).is_some(),
    };
    if !eta.can_estimate(known) {
        return None;
    }
    let seconds = |remaining: f64, rate: Option<f64>| {
        if remaining == 0.0 {
            0.0
        } else {
            remaining / rate.unwrap()
        }
    };
    let directories = seconds(eta.directories_remaining as f64, per_sec(rates.directories));
    let small = seconds(eta.small_files_remaining as f64, per_sec(rates.small_files));
    let large = seconds(
        eta.large_bytes_remaining as f64,
        per_sec(rates.large_bytes).or(per_sec(rates.all_bytes)),
    );
    Some(directories + small.max(large))
}

fn x(size: u64) -> Entry {
    entry("x", size)
}

fn entry_started(size: u64) -> Progress {
    Progress::EntryStarted { entry: x(size) }
}

fn entry_completed(size: u64) -> Progress {
    Progress::EntryCompleted { entry: x(size) }
}

fn directory_completed() -> Progress {
    Progress::DirectoryCompleted {
        path: FilePath::new("d"),
    }
}

#[test]
fn no_estimate_before_anything_completes() {
    let mut eta = EtaEstimator::new();
    let mut rates = Rates::default();
    replay(&mut eta, &mut rates, &[(planned(0, 10, 0), 0.0), (started(), 0.0)]);
    assert_eq!(estimate(&eta, &rates), None);
}

#[test]
fn estimates_zero_when_nothing_is_outstanding() {
    let mut eta = EtaEstimator::new();
    let mut rates = Rates::default();
    replay(&mut eta, &mut rates, &[(planned(0, 0, 0), 0.0), (started(), 0.0)]);
    assert_eq!(estimate(&eta, &rates), Some(0.0));
}

#[test]
fn small_files_are_estimated_per_file_not_per_byte() {
    let mut eta = EtaEstimator::new();
    let mut rates = Rates::default();
    let mut script = vec![(planned(0, 100, 0), 0.0), (started(), 0.0)];
    for i in 0..10 {
        let size = if i % 2 == 0 { 10 } else { 1000 };
        script.push((entry_started(size), 0.0));
        script.push((entry_completed(size), 0.1));
    }
    replay(&mut eta, &mut rates, &script);
    let estimate = estimate(&eta, &rates).unwrap();
    assert!(
        (estimate - 9.0).abs() < 0.5,
        "expected ~9s for 90 files at 10 files/sec, got {estimate}"
    );
}

#[test]
fn large_files_are_estimated_per_byte() {
    let mut eta = EtaEstimator::new();
    let mut rates = Rates::default();
    let big = 10_000_u64;
    let mut script = vec![(planned(0, 0, big * 10), 0.0), (started(), 0.0)];
    for _ in 0..4 {
        script.push((entry_started(big), 0.0));
        script.push((entry_completed(big), 1.0));
    }
    replay(&mut eta, &mut rates, &script);
    let estimate = estimate(&eta, &rates).unwrap();
    assert!(
        (estimate - 6.0).abs() < 0.5,
        "expected ~6s for 60_000 bytes at 10_000 B/s, got {estimate}"
    );
}

#[test]
fn directory_pre_pass_is_estimated_before_any_file_work_is_known() {
    let mut eta = EtaEstimator::new();
    let mut rates = Rates::default();
    let mut script = vec![
        (planned(100, 0, 0), 0.0),
        (Progress::DirectoriesStarted { total: 100 }, 0.0),
    ];
    for _ in 0..20 {
        script.push((directory_completed(), 0.1));
    }
    replay(&mut eta, &mut rates, &script);
    let estimate = estimate(&eta, &rates).unwrap();
    assert!(
        (estimate - 8.0).abs() < 0.5,
        "expected ~8s for 80 directories at 10/sec, got {estimate}"
    );
}

#[test]
fn directory_and_file_costs_are_summed_not_conflated() {
    let mut eta = EtaEstimator::new();
    let mut rates = Rates::default();
    let mut script = vec![
        (planned(30, 30, 0), 0.0),
        (Progress::DirectoriesStarted { total: 30 }, 0.0),
    ];
    for _ in 0..10 {
        script.push((directory_completed(), 0.1));
    }
    script.push((started(), 0.0));
    for _ in 0..10 {
        script.push((entry_started(10), 0.0));
        script.push((entry_completed(10), 0.2));
    }
    replay(&mut eta, &mut rates, &script);
    let estimate = estimate(&eta, &rates).unwrap();
    assert!(
        (estimate - 6.0).abs() < 0.7,
        "expected ~6s (2s of directories + 4s of files), got {estimate}"
    );
}

#[test]
fn failed_entries_count_as_progress() {
    let mut eta = EtaEstimator::new();
    let mut rates = Rates::default();
    let mut script = vec![(planned(0, 20, 0), 0.0), (started(), 0.0)];
    for _ in 0..10 {
        script.push((entry_started(10), 0.0));
        script.push((Progress::EntryFailed { entry: x(10) }, 0.1));
    }
    replay(&mut eta, &mut rates, &script);
    let estimate = estimate(&eta, &rates).unwrap();
    assert!((estimate - 1.0).abs() < 0.3, "expected ~1s, got {estimate}");
}

#[test]
fn started_without_planned_is_modelled_as_a_metadata_only_phase() {
    let mut eta = EtaEstimator::new();
    let mut rates = Rates::default();
    let mut script = vec![(
        Progress::Started {
            bytes_total: None,
            entries_total: 100,
        },
        0.0,
    )];
    for _ in 0..10 {
        script.push((entry_started(5_000_000), 0.0));
        script.push((entry_completed(5_000_000), 0.1));
    }
    replay(&mut eta, &mut rates, &script);
    let estimate = estimate(&eta, &rates).unwrap();
    assert!(
        (estimate - 9.0).abs() < 0.5,
        "expected ~9s for 90 deletions at 10/sec, got {estimate}"
    );
}

#[test]
fn a_later_phase_resets_remaining_work_without_discarding_learned_rates() {
    let mut eta = EtaEstimator::new();
    let mut rates = Rates::default();
    let mut script = vec![(planned(0, 10, 0), 0.0), (started(), 0.0)];
    for _ in 0..10 {
        script.push((entry_started(10), 0.0));
        script.push((entry_completed(10), 0.1));
    }
    replay(&mut eta, &mut rates, &script);
    assert_eq!(estimate(&eta, &rates), Some(0.0));

    replay(
        &mut eta,
        &mut rates,
        &[(
            Progress::Started {
                bytes_total: None,
                entries_total: 5,
            },
            0.0,
        )],
    );
    let estimate = estimate(&eta, &rates).unwrap();
    assert!(
        (estimate - 0.5).abs() < 0.2,
        "expected ~0.5s for 5 entries at 10/sec, got {estimate}"
    );
}

fn planned_bytes(small_files: usize, large_files: usize, large_bytes: u64) -> Progress {
    Progress::Planned {
        directories: 0,
        small_files,
        small_bytes: small_files as u64 * 100_000,
        large_files,
        large_bytes,
        small_file_threshold: 1_000_000,
    }
}

#[test]
fn outstanding_large_files_are_costed_from_overall_byte_throughput() {
    let mut eta = EtaEstimator::new();
    let mut rates = Rates::default();
    let mut script = vec![
        (planned_bytes(100, 1, 100_000_000), 0.0),
        (started(), 0.0),
        (entry_started(100_000_000), 0.0),
    ];
    for _ in 0..50 {
        script.push((entry_started(100_000), 0.0));
        script.push((entry_completed(100_000), 0.1));
    }
    replay(&mut eta, &mut rates, &script);
    let estimate = estimate(&eta, &rates)
        .expect("an unfinished large file must not suppress the estimate");
    assert!(
        (estimate - 100.0).abs() < 15.0,
        "expected ~100s dominated by the outstanding large file, got {estimate}"
    );
}

#[test]
fn a_measured_large_file_rate_supersedes_the_overall_fallback() {
    let mut eta = EtaEstimator::new();
    let mut rates = Rates::default();
    replay(
        &mut eta,
        &mut rates,
        &[
            (planned_bytes(0, 3, 300_000_000), 0.0),
            (started(), 0.0),
            (entry_started(100_000_000), 0.0),
            (entry_completed(100_000_000), 1.0),
        ],
    );
    assert_eq!(per_sec(rates.large_bytes), Some(100_000_000.0));
    let estimate = estimate(&eta, &rates).unwrap();
    assert!(
        (estimate - 2.0).abs() < 0.3,
        "expected ~2s for the remaining 200MB at 100MB/s, got {estimate}"
    );
}

#[test]
fn a_single_large_file_is_estimated_from_in_flight_samples() {
    let mut eta = EtaEstimator::new();
    let mut rates = Rates::default();
    let big = x(1_000_000_000);
    let mut script = vec![
        (planned_bytes(0, 1, 1_000_000_000), 0.0),
        (started(), 0.0),
        (Progress::EntryStarted { entry: big.clone() }, 0.0),
    ];
    for i in 1..=4 {
        script.push((
            Progress::EntryProgress {
                entry: big.clone(),
                bytes_copied: i * 25_000_000,
            },
            0.25,
        ));
    }
    replay(&mut eta, &mut rates, &script);
    let estimate = estimate(&eta, &rates).expect("in-flight samples must produce an estimate");
    assert!(
        (estimate - 9.0).abs() < 1.0,
        "expected ~9s for the outstanding 900MB at 100MB/s, got {estimate}"
    );
    assert_eq!(per_sec(rates.large_bytes), Some(100_000_000.0));
}

#[test]
fn sampled_bytes_are_not_counted_again_on_completion() {
    let mut eta = EtaEstimator::new();
    let mut rates = Rates::default();
    let big = x(100_000_000);
    let mut script = vec![
        (planned_bytes(0, 2, 200_000_000), 0.0),
        (started(), 0.0),
        (Progress::EntryStarted { entry: big.clone() }, 0.0),
    ];
    for bytes_copied in [25_000_000, 50_000_000, 75_000_000, 100_000_000] {
        script.push((
            Progress::EntryProgress {
                entry: big.clone(),
                bytes_copied,
            },
            0.25,
        ));
    }
    script.push((Progress::EntryCompleted { entry: big }, 0.0));
    replay(&mut eta, &mut rates, &script);
    assert_eq!(per_sec(rates.large_bytes), Some(100_000_000.0));
    let estimate = estimate(&eta, &rates).unwrap();
    assert!(
        (estimate - 1.0).abs() < 0.2,
        "expected ~1s for the remaining 100MB at 100MB/s, got {estimate}"
    );
}

#[test]
fn out_of_order_and_surplus_completions_do_not_panic() {
    let mut eta = EtaEstimator::new();
    let mut rates = Rates::default();
    replay(
        &mut eta,
        &mut rates,
        &[
            (entry_completed(10), 0.1),
            (directory_completed(), 0.1),
            (planned(0, 1, 0), 0.0),
            (started(), 0.0),
            (entry_completed(10), 0.1),
            (entry_completed(10), 0.1),
        ],
    );
    assert_eq!(estimate(&eta, &rates), Some(0.0));
}

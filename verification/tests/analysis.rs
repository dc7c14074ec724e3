use file_engine::analysis::builder::{
    assemble, error_budget, hash_workers, AnalyzeBuilder, DEFAULT_TOP_N_LARGEST,
};
use file_engine::analysis::error_strategy::AnalysisErrorStrategy;
use file_engine::analysis::filter::AnalysisFilter;
use file_engine::analysis::hash::{plan_hashing, DuplicateSearch};
use file_engine::analysis::report::{age_of, Age, Entry};
use file_engine::analysis::walk::{
    classify_walk_error, counts, keeps_child, name_mime, Walk, WalkItem, WalkParams,
};
use file_engine::checksum::content_hash;
use file_engine::error::{Error, IoFailure, IoKind};
use file_engine::paths::FilePath;
use file_engine::profiler::{Span, Timestamp};
use file_engine::FileEngine;

fn p(text: &str) -> FilePath {
    FilePath::new(text)
}

fn entry(name: &str, size: u64) -> Entry {
    Entry {
        path: p(&format!("root/{name}")),
        relative_path: p(name),
        size,
        modified: None,
    }
}

fn at(secs: i64) -> Timestamp {
    Timestamp { secs, nanos: 0 }
}

const DAY: i64 = 86_400;

fn params() -> WalkParams {
    WalkParams {
        root: p("root"),
        filter: AnalysisFilter::default(),
        error_strategy: AnalysisErrorStrategy::ContinueAndCollect,
        max_depth: None,
        follow_symlinks: false,
        top_n_largest: 10,
        detect_mime_types: false,
        collect_duplicate_candidates: false,
        max_reported_errors: 1000,
        walk_concurrency: 2,
        estimate_total: false,
    }
}

fn file(path: &str, size: u64) -> WalkItem {
    WalkItem::File {
        path: p(path),
        metadata: Ok((size, None)),
    }
}

fn visit(walk: &mut Walk, item: WalkItem) {
    if let Some(entry) = walk.visit(false, item).unwrap() {
        walk.record(entry, &None);
    }
}

#[test]
fn basic_statistics_of_a_small_tree() {
    let mut walk = Walk::new(params(), at(0));
    visit(&mut walk, WalkItem::Directory);
    visit(&mut walk, file("root/a.txt", 10));
    visit(&mut walk, file("root/b.TXT", 20));
    visit(&mut walk, WalkItem::Directory);
    visit(&mut walk, file("root/nested/c.rs", 30));
    visit(&mut walk, WalkItem::Other);
    visit(&mut walk, file("root/plain", 1));
    let outcome = walk.finish();
    assert_eq!(outcome.file_count, 4);
    assert_eq!(outcome.dir_count, 2);
    assert_eq!(outcome.total_size, 61);
    assert_eq!(outcome.largest_files[0].size, 30);
    assert_eq!(outcome.largest_files[0].relative_path.text, "nested/c.rs");
    let rows: Vec<(String, usize, u64)> = outcome
        .by_extension
        .iter()
        .map(|(name, s)| (name.clone(), s.count, s.total_size))
        .collect();
    assert_eq!(
        rows,
        vec![
            ("txt".to_string(), 2, 30),
            ("rs".to_string(), 1, 30),
            ("".to_string(), 1, 1)
        ]
    );
    assert!(outcome.by_mime.is_empty());
    assert!(outcome.duplicate_candidates.is_empty());
    assert_eq!(outcome.age_buckets.unknown, 4);
}

#[test]
fn only_the_largest_files_are_kept_largest_first() {
    let mut walk = Walk::new(
        WalkParams {
            top_n_largest: 3,
            ..params()
        },
        at(0),
    );
    for (name, size) in [("a", 5), ("b", 9), ("c", 1), ("d", 7), ("e", 7), ("f", 2)] {
        visit(&mut walk, file(&format!("root/{name}"), size));
    }
    let outcome = walk.finish();
    let sizes: Vec<u64> = outcome.largest_files.iter().map(|e| e.size).collect();
    assert_eq!(sizes, vec![9, 7, 7]);

    let mut walk = Walk::new(
        WalkParams {
            top_n_largest: 0,
            ..params()
        },
        at(0),
    );
    visit(&mut walk, file("root/a", 5));
    assert!(walk.finish().largest_files.is_empty());
}

#[test]
fn the_filter_decides_what_counts() {
    let filter = AnalysisFilter {
        extensions: Some(vec!["rs".to_string()]),
        ..Default::default()
    };
    let mut walk = Walk::new(WalkParams { filter, ..params() }, at(0));
    visit(&mut walk, file("root/a.rs", 1));
    visit(&mut walk, file("root/a.toml", 1));
    assert_eq!(walk.finish().file_count, 1);
}

#[test]
fn a_root_that_is_a_file_is_one_entry() {
    let walk = Walk::new(
        WalkParams {
            root: p("dir/only.txt"),
            ..params()
        },
        at(0),
    );
    let entry = walk.root_entry(5, None).unwrap();
    assert_eq!(entry.relative_path.text, "only.txt");
    assert_eq!(entry.path.text, "dir/only.txt");
    assert_eq!(entry.size, 5);
}

#[test]
fn a_cancelled_walk_is_given_up() {
    let mut walk = Walk::new(params(), at(0));
    assert!(matches!(
        walk.visit(true, WalkItem::Directory),
        Err(Error::Cancelled)
    ));
}

#[test]
fn failures_are_counted_and_the_first_are_listed() {
    let mut walk = Walk::new(
        WalkParams {
            max_reported_errors: 2,
            ..params()
        },
        at(0),
    );
    for name in ["x", "y", "z"] {
        visit(
            &mut walk,
            WalkItem::Failed {
                error: Error::PermissionDenied { path: p(name) },
            },
        );
    }
    let outcome = walk.finish();
    assert_eq!(outcome.errors_total, 3);
    assert_eq!(outcome.errors.len(), 2);
    assert_eq!(outcome.errors[0].0.text, "x");
    assert_eq!(outcome.errors[1].0.text, "y");
}

#[test]
fn the_first_failure_ends_an_aborting_walk() {
    let mut walk = Walk::new(
        WalkParams {
            error_strategy: AnalysisErrorStrategy::AbortOnError,
            ..params()
        },
        at(0),
    );
    let result = walk.visit(
        false,
        WalkItem::File {
            path: p("root/a"),
            metadata: Err(Error::PermissionDenied { path: p("root/a") }),
        },
    );
    assert!(matches!(result, Err(Error::PermissionDenied { .. })));
}

#[test]
fn a_failure_to_read_metadata_is_listed_under_the_file() {
    let mut walk = Walk::new(params(), at(0));
    visit(
        &mut walk,
        WalkItem::File {
            path: p("root/a"),
            metadata: Err(Error::Cancelled),
        },
    );
    assert_eq!(walk.finish().errors[0].0.text, "root/a");
}

#[test]
fn exclude_patterns_prune_below_the_root_only() {
    let filter = AnalysisFilter {
        exclude_patterns: vec!["node_modules".to_string(), "**/*.o".to_string()],
        ..Default::default()
    };
    let set = filter.compiled_excludes().unwrap();
    let set = set.as_ref();
    assert!(!keeps_child(set, 1, &p("root/node_modules"), &p("root")));
    assert!(!keeps_child(set, 2, &p("root/x/a.o"), &p("root")));
    assert!(keeps_child(set, 1, &p("root/src"), &p("root")));
    assert!(keeps_child(set, 0, &p("node_modules"), &p("node_modules")));
    assert!(keeps_child(None, 1, &p("root/node_modules"), &p("root")));
}

#[test]
fn media_types_are_told_from_the_beginning_of_a_file() {
    assert_eq!(name_mime(&Some(vec![0xff, 0xd8, 0xff, 0xaa])), "image/jpeg");
    assert_eq!(name_mime(&Some(b"just text".to_vec())), "unknown");
    assert_eq!(name_mime(&None), "unknown");

    let mut walk = Walk::new(
        WalkParams {
            detect_mime_types: true,
            ..params()
        },
        at(0),
    );
    walk.record(entry("a.jpg", 4), &Some(vec![0xff, 0xd8, 0xff, 0xaa]));
    walk.record(entry("b", 6), &None);
    let outcome = walk.finish();
    let rows: Vec<(String, usize, u64)> = outcome
        .by_mime
        .iter()
        .map(|(name, s)| (name.clone(), s.count, s.total_size))
        .collect();
    assert_eq!(
        rows,
        vec![
            ("image/jpeg".to_string(), 1, 4),
            ("unknown".to_string(), 1, 6)
        ]
    );
}

#[test]
fn ages_fall_into_the_first_bucket_they_are_below() {
    let now = at(1000 * DAY);
    let cases = [
        (1000 * DAY, Age::UnderOneDay),
        (1001 * DAY, Age::UnderOneDay),
        (999 * DAY + 1, Age::UnderOneDay),
        (999 * DAY, Age::UnderOneWeek),
        (993 * DAY, Age::UnderOneMonth),
        (970 * DAY, Age::UnderOneYear),
        (635 * DAY, Age::Older),
        (-5, Age::Older),
    ];
    for (secs, age) in cases {
        assert_eq!(age_of(&now, &Some(at(secs))), age, "{secs}");
    }
    assert_eq!(age_of(&now, &None), Age::Unknown);
    let mut walk = Walk::new(params(), now);
    for (secs, _) in cases {
        visit(
            &mut walk,
            WalkItem::File {
                path: p("root/x"),
                metadata: Ok((1, Some(at(secs)))),
            },
        );
    }
    let buckets = walk.finish().age_buckets;
    assert_eq!(
        (
            buckets.under_1_day,
            buckets.under_1_week,
            buckets.under_1_month,
            buckets.under_1_year,
            buckets.older,
            buckets.unknown
        ),
        (3, 1, 1, 1, 2, 0)
    );
}

#[test]
fn a_cycle_of_links_is_a_walk_error() {
    assert_eq!(
        classify_walk_error(None, Some(p("loop"))).message(),
        "io error on loop: directory walk error"
    );
    let failure = IoFailure {
        kind: IoKind::PermissionDenied,
        message: "no".to_string(),
    };
    assert!(matches!(
        classify_walk_error(Some(failure), None),
        Error::PermissionDenied { path } if path.text.is_empty()
    ));
}

#[test]
fn only_files_that_share_their_size_are_hashed() {
    let plan = plan_hashing(vec![
        entry("a", 5),
        entry("b", 7),
        entry("c", 5),
        entry("d", 0),
        entry("e", 0),
        entry("f", 9),
    ]);
    let read: Vec<&str> = plan.to_hash.iter().map(|e| e.relative_path.text.as_str()).collect();
    assert_eq!(read, vec!["a", "c"]);
    assert_eq!(plan.empty.len(), 2);
    assert!(plan_hashing(vec![entry("d", 0)]).empty.is_empty());
}

fn search(empty: Vec<Entry>, groups: usize, errors: usize) -> DuplicateSearch {
    DuplicateSearch::new(
        empty,
        AnalysisErrorStrategy::ContinueAndCollect,
        groups,
        errors,
    )
}

#[test]
fn empty_files_are_duplicates_without_being_read() {
    let outcome = search(vec![entry("a", 0), entry("b", 0)], 10, 10).finish();
    assert_eq!(outcome.groups_total, 1);
    assert_eq!(outcome.bytes_wasted, 0);
    assert_eq!(outcome.groups[0].size, 0);
    assert_eq!(outcome.groups[0].hash, content_hash(b""));
    assert_eq!(outcome.groups[0].paths.len(), 2);
}

#[test]
fn files_of_one_size_and_hash_form_a_group() {
    let mut found = search(vec![], 1, 10);
    for (name, size, content) in [
        ("a", 3, b"one"),
        ("b", 3, b"two"),
        ("c", 3, b"one"),
        ("d", 3, b"one"),
        ("e", 4, b"two"),
        ("f", 3, b"two"),
    ] {
        found
            .record(false, entry(name, size), Ok(content_hash(content)))
            .unwrap();
    }
    let outcome = found.finish();
    assert_eq!(outcome.groups_total, 2);
    assert_eq!(outcome.bytes_wasted, 3 * 2 + 3);
    assert_eq!(outcome.groups.len(), 1);
    let paths: Vec<&str> = outcome.groups[0].paths.iter().map(|x| x.text.as_str()).collect();
    assert_eq!(paths, vec!["root/a", "root/c", "root/d"]);
}

#[test]
fn hash_failures_are_collected_or_end_the_search() {
    let mut found = search(vec![], 10, 1);
    for name in ["a", "b"] {
        found
            .record(
                false,
                entry(name, 1),
                Err(Error::PermissionDenied { path: p(name) }),
            )
            .unwrap();
    }
    let outcome = found.finish();
    assert_eq!(outcome.errors_total, 2);
    assert_eq!(outcome.errors.len(), 1);
    assert_eq!(outcome.errors[0].0.text, "root/a");

    let mut aborting = DuplicateSearch::new(vec![], AnalysisErrorStrategy::AbortOnError, 10, 10);
    assert!(matches!(
        aborting.record(false, entry("a", 1), Err(Error::Cancelled)),
        Err(Error::Cancelled)
    ));
}

#[test]
fn a_cancelled_search_is_given_up_whatever_came_in() {
    let mut found = search(vec![], 10, 10);
    assert!(matches!(
        found.record(true, entry("a", 1), Ok([0; 32])),
        Err(Error::Cancelled)
    ));
}

#[test]
fn a_report_joins_the_walk_and_the_search() {
    let mut walk = Walk::new(
        WalkParams {
            max_reported_errors: 3,
            ..params()
        },
        at(0),
    );
    visit(&mut walk, file("root/a", 2));
    visit(
        &mut walk,
        WalkItem::Failed {
            error: Error::PermissionDenied { path: p("x") },
        },
    );
    let outcome = walk.finish();
    let budget = error_budget(3, &outcome);
    assert_eq!(budget, 2);
    let mut found = search(vec![], 10, budget);
    for name in ["a", "b", "c"] {
        found
            .record(false, entry(name, 1), Err(Error::Cancelled))
            .unwrap();
    }
    let report = assemble(outcome, Some(found.finish()), Span { secs: 1, nanos: 5 });
    assert_eq!(report.errors.len(), 3);
    assert_eq!(report.errors_total, 4);
    assert_eq!(report.file_count, 1);
    assert_eq!(report.duration, Span { secs: 1, nanos: 5 });

    let report = assemble(
        Walk::new(params(), at(0)).finish(),
        None,
        Span { secs: 0, nanos: 0 },
    );
    assert_eq!(report.duplicate_groups_total, 0);
    assert!(report.duplicates.is_empty());
}

#[test]
fn analyses_are_set_up_by_their_builder() {
    let plain = FileEngine::new().analyze(p("root"));
    assert_eq!(plain.top_n_largest, DEFAULT_TOP_N_LARGEST);
    let params = plain.into_params(6);
    assert_eq!(params.walk_concurrency, 6);
    assert_eq!(params.max_reported_errors, 1000);
    assert!(!params.collect_duplicate_candidates);

    let params = AnalyzeBuilder::new(p("root"))
        .extensions(vec!["a".to_string()])
        .exclude_globs(vec!["b".to_string()])
        .min_size(1)
        .max_size(2)
        .modified_after(at(3))
        .modified_before(at(4))
        .max_depth(5)
        .follow_symlinks(true)
        .walk_concurrency(7)
        .estimate_total(true)
        .top_n_largest(8)
        .detect_mime_types(true)
        .on_error(AnalysisErrorStrategy::AbortOnError)
        .max_reported_errors(9)
        .detect_duplicates(true)
        .hash_concurrency(10)
        .max_reported_duplicates(11)
        .into_params(6);
    assert_eq!(params.filter.extensions, Some(vec!["a".to_string()]));
    assert_eq!(params.filter.exclude_patterns, vec!["b"]);
    assert_eq!(params.filter.min_size, Some(1));
    assert_eq!(params.filter.max_size, Some(2));
    assert_eq!(params.filter.modified_after, Some(at(3)));
    assert_eq!(params.filter.modified_before, Some(at(4)));
    assert_eq!(params.max_depth, Some(5));
    assert!(params.follow_symlinks && params.detect_mime_types && params.estimate_total);
    assert_eq!(params.walk_concurrency, 7);
    assert_eq!(params.top_n_largest, 8);
    assert_eq!(params.error_strategy, AnalysisErrorStrategy::AbortOnError);
    assert_eq!(params.max_reported_errors, 9);
    assert!(params.collect_duplicate_candidates);
}

#[test]
fn at_least_one_file_is_hashed_at_a_time() {
    assert_eq!(hash_workers(None, 4), 4);
    assert_eq!(hash_workers(Some(2), 4), 2);
    assert_eq!(hash_workers(Some(0), 4), 1);
}

#[test]
fn an_estimate_counts_what_the_walk_records() {
    let filter = AnalysisFilter {
        min_size: Some(2),
        ..Default::default()
    };
    let params = WalkParams { filter, ..params() };
    assert!(counts(&params, &file("root/a", 2)));
    assert!(!counts(&params, &file("root/a", 1)));
    assert!(!counts(&params, &WalkItem::Directory));
    assert!(!counts(&params, &WalkItem::Other));
    assert!(!counts(
        &params,
        &WalkItem::File {
            path: p("root/a"),
            metadata: Err(Error::Cancelled)
        }
    ));
}

#[test]
fn groups_are_the_candidates_of_one_content() {
    let contents: [(&str, &[u8]); 7] = [
        ("a", b"one"),
        ("b", b""),
        ("c", b"two"),
        ("d", b"one"),
        ("e", b"single"),
        ("f", b""),
        ("g", b"six"),
    ];
    let candidates = contents.iter().map(|(n, c)| entry(n, c.len() as u64)).collect();
    let plan = plan_hashing(candidates);
    let mut found = search(plan.empty, 10, 10);
    for e in plan.to_hash.into_iter().rev() {
        let content = contents.iter().find(|(n, _)| *n == e.relative_path.text).unwrap().1;
        found.record(false, e, Ok(content_hash(content))).unwrap();
    }
    let outcome = found.finish();
    let groups: Vec<(u64, Vec<String>)> = outcome
        .groups
        .iter()
        .map(|g| (g.size, g.paths.iter().map(|p| p.text.clone()).collect()))
        .collect();
    assert_eq!(
        groups,
        vec![
            (0, vec!["root/b".to_string(), "root/f".to_string()]),
            (3, vec!["root/d".to_string(), "root/a".to_string()])
        ]
    );
}

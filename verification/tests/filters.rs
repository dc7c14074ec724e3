use file_engine::analysis::filter::AnalysisFilter;
use file_engine::error::Error;
use file_engine::globs::{is_excluded, join_with_commas};
use file_engine::operations::remove_filter::RemoveFilter;
use file_engine::paths::FilePath;
use file_engine::profiler::Timestamp;

const EPOCH: Timestamp = Timestamp { secs: 0, nanos: 0 };

fn at(secs: i64) -> Timestamp {
    Timestamp { secs, nanos: 0 }
}

#[test]
fn no_filters_matches_everything() {
    let filter = AnalysisFilter::default();
    assert!(filter.matches(&FilePath::new("a.txt"), 0, None));
}

#[test]
fn filter_extension_filter_is_case_insensitive_and_excludes_others() {
    let filter = AnalysisFilter {
        extensions: Some(vec!["rs".to_string()]),
        ..Default::default()
    };
    assert!(filter.matches(&FilePath::new("main.RS"), 0, None));
    assert!(!filter.matches(&FilePath::new("main.toml"), 0, None));
    assert!(!filter.matches(&FilePath::new("no_extension"), 0, None));
}

#[test]
fn filter_size_range_is_inclusive_on_both_ends() {
    let filter = AnalysisFilter {
        min_size: Some(10),
        max_size: Some(20),
        ..Default::default()
    };
    assert!(filter.matches(&FilePath::new("a"), 10, None));
    assert!(filter.matches(&FilePath::new("a"), 20, None));
    assert!(!filter.matches(&FilePath::new("a"), 9, None));
    assert!(!filter.matches(&FilePath::new("a"), 21, None));
}

#[test]
fn filter_modified_range_rejects_entries_with_no_known_mtime() {
    let filter = AnalysisFilter {
        modified_after: Some(EPOCH),
        ..Default::default()
    };
    assert!(!filter.matches(&FilePath::new("a"), 0, None));
}

#[test]
fn filter_compiled_excludes_prunes_matching_paths() {
    let filter = AnalysisFilter {
        exclude_patterns: vec!["**/node_modules/**".to_string()],
        ..Default::default()
    };
    let set = filter.compiled_excludes().unwrap().unwrap();
    assert!(set.is_match("project/node_modules/pkg/index.js"));
    assert!(!set.is_match("project/src/main.rs"));
    assert!(is_excluded(
        Some(&set),
        &FilePath::new("project/node_modules/pkg/index.js")
    ));
    assert!(!is_excluded(
        Some(&set),
        &FilePath::new("project/src/main.rs")
    ));
}

#[test]
fn filter_compiled_excludes_is_none_when_no_patterns_set() {
    assert!(AnalysisFilter::default()
        .compiled_excludes()
        .unwrap()
        .is_none());
}

#[test]
fn filter_invalid_glob_pattern_is_reported_as_an_error() {
    let filter = AnalysisFilter {
        exclude_patterns: vec!["[".to_string()],
        ..Default::default()
    };
    assert!(matches!(
        filter.compiled_excludes(),
        Err(Error::InvalidGlobPattern { .. })
    ));
}

#[test]
fn no_filters_matches_everything_and_is_empty() {
    let filter = RemoveFilter::default();
    assert!(filter.is_empty());
    assert!(filter.matches(&FilePath::new("a.txt"), 0, None, None));
}

#[test]
fn any_single_criterion_makes_the_filter_non_empty() {
    let filter = RemoveFilter {
        min_size: Some(1),
        ..Default::default()
    };
    assert!(!filter.is_empty());
}

#[test]
fn remove_filter_extension_filter_is_case_insensitive_and_excludes_others() {
    let filter = RemoveFilter {
        extensions: Some(vec!["tmp".to_string()]),
        ..Default::default()
    };
    assert!(filter.matches(&FilePath::new("cache.TMP"), 0, None, None));
    assert!(!filter.matches(&FilePath::new("cache.log"), 0, None, None));
    assert!(!filter.matches(&FilePath::new("no_extension"), 0, None, None));
}

#[test]
fn remove_filter_size_range_is_inclusive_on_both_ends() {
    let filter = RemoveFilter {
        min_size: Some(10),
        max_size: Some(20),
        ..Default::default()
    };
    assert!(filter.matches(&FilePath::new("a"), 10, None, None));
    assert!(filter.matches(&FilePath::new("a"), 20, None, None));
    assert!(!filter.matches(&FilePath::new("a"), 9, None, None));
    assert!(!filter.matches(&FilePath::new("a"), 21, None, None));
}

#[test]
fn remove_filter_modified_range_rejects_entries_with_no_known_mtime() {
    let filter = RemoveFilter {
        modified_after: Some(EPOCH),
        ..Default::default()
    };
    assert!(!filter.matches(&FilePath::new("a"), 0, None, None));
}

#[test]
fn remove_filter_compiled_excludes_prunes_matching_paths() {
    let filter = RemoveFilter {
        exclude_patterns: vec!["**/*.keep".to_string()],
        ..Default::default()
    };
    let set = filter.compiled_excludes().unwrap().unwrap();
    assert!(!filter.matches(&FilePath::new("a.keep"), 0, None, Some(&set)));
    assert!(filter.matches(&FilePath::new("a.tmp"), 0, None, Some(&set)));
}

#[test]
fn remove_filter_invalid_glob_pattern_is_reported_as_an_error() {
    let filter = RemoveFilter {
        exclude_patterns: vec!["[".to_string()],
        ..Default::default()
    };
    assert!(matches!(
        filter.compiled_excludes(),
        Err(Error::InvalidGlobPattern { .. })
    ));
}

#[test]
fn remove_filter_compiled_excludes_is_none_when_no_patterns_set() {
    assert!(RemoveFilter::default()
        .compiled_excludes()
        .unwrap()
        .is_none());
}

#[test]
fn exclude_pattern_can_target_nested_paths() {
    let filter = RemoveFilter {
        exclude_patterns: vec!["**/node_modules/**".to_string()],
        ..Default::default()
    };
    let set = filter.compiled_excludes().unwrap().unwrap();
    assert!(!filter.matches(
        &FilePath::new("project/node_modules/pkg/index.js"),
        0,
        None,
        Some(&set)
    ));
    assert!(filter.matches(
        &FilePath::new("project/src/main.rs"),
        0,
        None,
        Some(&set)
    ));
}

#[test]
fn the_first_bad_pattern_is_reported_with_what_is_wrong() {
    let filter = RemoveFilter {
        exclude_patterns: vec!["*.ok".to_string(), "[".to_string(), "{".to_string()],
        ..Default::default()
    };
    match filter.compiled_excludes() {
        Err(Error::InvalidGlobPattern { pattern, source }) => {
            assert_eq!(pattern, "[");
            assert_eq!(
                source,
                "error parsing glob '[': unclosed character class; missing ']'"
            );
        }
        other => panic!("unexpected {:?}", other.is_ok()),
    }
}

#[test]
fn any_pattern_of_a_set_excludes() {
    let filter = RemoveFilter {
        exclude_patterns: vec!["*.keep".to_string(), "logs/**".to_string()],
        ..Default::default()
    };
    let set = filter.compiled_excludes().unwrap().unwrap();
    assert!(!filter.matches(&FilePath::new("a.keep"), 0, None, Some(&set)));
    assert!(!filter.matches(&FilePath::new("logs/x.tmp"), 0, None, Some(&set)));
    assert!(filter.matches(&FilePath::new("b.tmp"), 0, None, Some(&set)));
    assert!(filter.accepts(&FilePath::new("a.keep"), 0, None));
}

#[test]
fn patterns_are_listed_with_commas() {
    assert_eq!(join_with_commas(&vec![]), "");
    assert_eq!(join_with_commas(&vec!["a".to_string()]), "a");
    assert_eq!(
        join_with_commas(&vec!["a".to_string(), "b".to_string(), "c".to_string()]),
        "a, b, c"
    );
}

#[test]
fn modified_range_is_inclusive_on_both_ends() {
    let filter = AnalysisFilter {
        modified_after: Some(at(10)),
        modified_before: Some(at(20)),
        ..Default::default()
    };
    let path = FilePath::new("a");
    assert!(filter.matches(&path, 0, Some(at(10))));
    assert!(filter.matches(&path, 0, Some(at(20))));
    assert!(!filter.matches(&path, 0, Some(at(9))));
    assert!(!filter.matches(
        &path,
        0,
        Some(Timestamp { secs: 20, nanos: 1 })
    ));
}

#[test]
fn criteria_combine_with_and() {
    let filter = RemoveFilter {
        extensions: Some(vec!["tmp".to_string(), "log".to_string()]),
        max_size: Some(5),
        ..Default::default()
    };
    assert!(filter.accepts(&FilePath::new("a.log"), 5, None));
    assert!(!filter.accepts(&FilePath::new("a.log"), 6, None));
    assert!(!filter.accepts(&FilePath::new("a.txt"), 5, None));
}

#[test]
fn each_criterion_alone_makes_a_filter_non_empty() {
    let filters = [
        RemoveFilter {
            extensions: Some(vec![]),
            ..Default::default()
        },
        RemoveFilter {
            exclude_patterns: vec!["a".to_string()],
            ..Default::default()
        },
        RemoveFilter {
            max_size: Some(1),
            ..Default::default()
        },
        RemoveFilter {
            modified_after: Some(EPOCH),
            ..Default::default()
        },
        RemoveFilter {
            modified_before: Some(EPOCH),
            ..Default::default()
        },
    ];
    for filter in filters {
        assert!(!filter.is_empty());
    }
}

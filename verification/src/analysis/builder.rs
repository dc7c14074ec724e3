use vstd::prelude::*;

use super::error_strategy::AnalysisErrorStrategy;
use super::filter::AnalysisFilter;
use super::hash::{DuplicateSearch, HashOutcome};
use super::report::{
    AnalysisReport, DEFAULT_MAX_REPORTED_DUPLICATE_GROUPS, DEFAULT_MAX_REPORTED_ERRORS,
};
use super::walk::{Walk, WalkOutcome, WalkParams};
use crate::paths::FilePath;
use crate::profiler::{Span, Timestamp};

verus! {

/// How many of the largest files a report lists, where the caller sets no number.
pub const DEFAULT_TOP_N_LARGEST: usize = 10;

/// Settings of an analysis.
#[derive(Debug)]
pub struct AnalyzeBuilder {
    pub root: FilePath,
    pub filter: AnalysisFilter,
    pub error_strategy: AnalysisErrorStrategy,
    pub max_depth: Option<usize>,
    pub follow_symlinks: bool,
    pub top_n_largest: usize,
    pub detect_mime_types: bool,
    pub max_reported_errors: usize,
    pub walk_concurrency: Option<usize>,
    pub estimate_total: bool,
    pub detect_duplicates: bool,
    pub hash_concurrency: Option<usize>,
    pub max_reported_duplicates: usize,
}

impl AnalyzeBuilder {
    /// An analysis of all files under `root`, without media types and duplicates.
    pub fn new(root: FilePath) -> (r: AnalyzeBuilder)
        ensures
            r.root == root,
            r.filter.unset(),
            r.error_strategy == AnalysisErrorStrategy::ContinueAndCollect,
            r.max_depth is None,
            !r.follow_symlinks,
            r.top_n_largest == DEFAULT_TOP_N_LARGEST,
            !r.detect_mime_types,
            r.max_reported_errors == DEFAULT_MAX_REPORTED_ERRORS,
            r.walk_concurrency is None,
            !r.estimate_total,
            !r.detect_duplicates,
            r.hash_concurrency is None,
            r.max_reported_duplicates == DEFAULT_MAX_REPORTED_DUPLICATE_GROUPS,
    {
        AnalyzeBuilder {
            root,
            filter: AnalysisFilter::default(),
            error_strategy: AnalysisErrorStrategy::default(),
            max_depth: None,
            follow_symlinks: false,
            top_n_largest: DEFAULT_TOP_N_LARGEST,
            detect_mime_types: false,
            max_reported_errors: DEFAULT_MAX_REPORTED_ERRORS,
            walk_concurrency: None,
            estimate_total: false,
            detect_duplicates: false,
            hash_concurrency: None,
            max_reported_duplicates: DEFAULT_MAX_REPORTED_DUPLICATE_GROUPS,
        }
    }

    /// Only files with one of these extensions count.
    pub fn extensions(self, exts: Vec<String>) -> (r: AnalyzeBuilder)
        ensures
            r == (AnalyzeBuilder {
                filter: (AnalysisFilter { extensions: Some(exts), ..self.filter }),
                ..self
            }),
    {
        AnalyzeBuilder {
            filter: AnalysisFilter { extensions: Some(exts), ..self.filter },
            ..self
        }
    }

    /// What one of these patterns matches is not walked into.
    pub fn exclude_globs(self, patterns: Vec<String>) -> (r: AnalyzeBuilder)
        ensures
            r == (AnalyzeBuilder {
                filter: (AnalysisFilter { exclude_patterns: patterns, ..self.filter }),
                ..self
            }),
    {
        AnalyzeBuilder {
            filter: AnalysisFilter { exclude_patterns: patterns, ..self.filter },
            ..self
        }
    }

    pub fn min_size(self, bytes: u64) -> (r: AnalyzeBuilder)
        ensures
            r == (AnalyzeBuilder {
                filter: (AnalysisFilter { min_size: Some(bytes), ..self.filter }),
                ..self
            }),
    {
        AnalyzeBuilder { filter: AnalysisFilter { min_size: Some(bytes), ..self.filter }, ..self }
    }

    pub fn max_size(self, bytes: u64) -> (r: AnalyzeBuilder)
        ensures
            r == (AnalyzeBuilder {
                filter: (AnalysisFilter { max_size: Some(bytes), ..self.filter }),
                ..self
            }),
    {
        AnalyzeBuilder { filter: AnalysisFilter { max_size: Some(bytes), ..self.filter }, ..self }
    }

    /// Only files modified at or after `t` count.
    pub fn modified_after(self, t: Timestamp) -> (r: AnalyzeBuilder)
        ensures
            r == (AnalyzeBuilder {
                filter: (AnalysisFilter { modified_after: Some(t), ..self.filter }),
                ..self
            }),
    {
        AnalyzeBuilder {
            filter: AnalysisFilter { modified_after: Some(t), ..self.filter },
            ..self
        }
    }

    /// Only files modified at or before `t` count.
    pub fn modified_before(self, t: Timestamp) -> (r: AnalyzeBuilder)
        ensures
            r == (AnalyzeBuilder {
                filter: (AnalysisFilter { modified_before: Some(t), ..self.filter }),
                ..self
            }),
    {
        AnalyzeBuilder {
            filter: AnalysisFilter { modified_before: Some(t), ..self.filter },
            ..self
        }
    }

    /// How far the walk descends: the root is at depth 0.
    pub fn max_depth(self, depth: usize) -> (r: AnalyzeBuilder)
        ensures
            r == (AnalyzeBuilder { max_depth: Some(depth), ..self }),
    {
        AnalyzeBuilder { max_depth: Some(depth), ..self }
    }

    pub fn follow_symlinks(self, follow: bool) -> (r: AnalyzeBuilder)
        ensures
            r == (AnalyzeBuilder { follow_symlinks: follow, ..self }),
    {
        AnalyzeBuilder { follow_symlinks: follow, ..self }
    }

    /// How many workers read directories.
    pub fn walk_concurrency(self, n: usize) -> (r: AnalyzeBuilder)
        ensures
            r == (AnalyzeBuilder { walk_concurrency: Some(n), ..self }),
    {
        AnalyzeBuilder { walk_concurrency: Some(n), ..self }
    }

    /// Whether a first pass counts the files that match.
    pub fn estimate_total(self, enable: bool) -> (r: AnalyzeBuilder)
        ensures
            r == (AnalyzeBuilder { estimate_total: enable, ..self }),
    {
        AnalyzeBuilder { estimate_total: enable, ..self }
    }

    /// How many of the largest files are listed.
    pub fn top_n_largest(self, n: usize) -> (r: AnalyzeBuilder)
        ensures
            r == (AnalyzeBuilder { top_n_largest: n, ..self }),
    {
        AnalyzeBuilder { top_n_largest: n, ..self }
    }

    /// Whether the beginning of each file is read for its media type.
    pub fn detect_mime_types(self, enable: bool) -> (r: AnalyzeBuilder)
        ensures
            r == (AnalyzeBuilder { detect_mime_types: enable, ..self }),
    {
        AnalyzeBuilder { detect_mime_types: enable, ..self }
    }

    pub fn on_error(self, strategy: AnalysisErrorStrategy) -> (r: AnalyzeBuilder)
        ensures
            r == (AnalyzeBuilder { error_strategy: strategy, ..self }),
    {
        AnalyzeBuilder { error_strategy: strategy, ..self }
    }

    /// How many failures are listed; all are counted.
    pub fn max_reported_errors(self, n: usize) -> (r: AnalyzeBuilder)
        ensures
            r == (AnalyzeBuilder { max_reported_errors: n, ..self }),
    {
        AnalyzeBuilder { max_reported_errors: n, ..self }
    }

    /// Whether files are searched for duplicates.
    pub fn detect_duplicates(self, enable: bool) -> (r: AnalyzeBuilder)
        ensures
            r == (AnalyzeBuilder { detect_duplicates: enable, ..self }),
    {
        AnalyzeBuilder { detect_duplicates: enable, ..self }
    }

    /// How many files are hashed at a time.
    pub fn hash_concurrency(self, n: usize) -> (r: AnalyzeBuilder)
        ensures
            r == (AnalyzeBuilder { hash_concurrency: Some(n), ..self }),
    {
        AnalyzeBuilder { hash_concurrency: Some(n), ..self }
    }

    /// How many groups of duplicates are listed; all are counted.
    pub fn max_reported_duplicates(self, n: usize) -> (r: AnalyzeBuilder)
        ensures
            r == (AnalyzeBuilder { max_reported_duplicates: n, ..self }),
    {
        AnalyzeBuilder { max_reported_duplicates: n, ..self }
    }

    /// What the walk is asked for. Where the caller set no number of workers,
    /// `default_concurrency` applies.
    pub fn into_params(self, default_concurrency: usize) -> (r: WalkParams)
        ensures
            r == (WalkParams {
                root: self.root,
                filter: self.filter,
                error_strategy: self.error_strategy,
                max_depth: self.max_depth,
                follow_symlinks: self.follow_symlinks,
                top_n_largest: self.top_n_largest,
                detect_mime_types: self.detect_mime_types,
                collect_duplicate_candidates: self.detect_duplicates,
                max_reported_errors: self.max_reported_errors,
                walk_concurrency: (match self.walk_concurrency {
                    Some(n) => n,
                    None => default_concurrency,
                }),
                estimate_total: self.estimate_total,
            }),
            self.walk_concurrency is Some ==> r.walk_concurrency == self.walk_concurrency->0,
            r.collect_duplicate_candidates <==> self.detect_duplicates,
    {
        WalkParams {
            root: self.root,
            filter: self.filter,
            error_strategy: self.error_strategy,
            max_depth: self.max_depth,
            follow_symlinks: self.follow_symlinks,
            top_n_largest: self.top_n_largest,
            detect_mime_types: self.detect_mime_types,
            collect_duplicate_candidates: self.detect_duplicates,
            max_reported_errors: self.max_reported_errors,
            walk_concurrency: match self.walk_concurrency {
                Some(n) => n,
                None => default_concurrency,
            },
            estimate_total: self.estimate_total,
        }
    }
}

/// How many files are hashed at a time.
pub open spec fn workers(set: Option<usize>, default_concurrency: usize) -> usize {
    let n = match set {
        Some(n) => n,
        None => default_concurrency,
    };
    if n == 0 {
        1
    } else {
        n
    }
}

/// How many files are hashed at a time: what the caller set, or else the default, and one
/// at least.
pub fn hash_workers(set: Option<usize>, default_concurrency: usize) -> (r: usize)
    ensures
        r == workers(set, default_concurrency),
{
    let n: usize = match set {
        Some(n) => n,
        None => default_concurrency,
    };
    if n == 0 {
        1
    } else {
        n
    }
}

/// How many of `limit` places are left where `taken` are taken.
pub open spec fn room_left(limit: usize, taken: nat) -> int {
    if taken < limit {
        limit - taken
    } else {
        0
    }
}

/// How many failures the search for duplicates may still list behind those of the walk.
pub fn error_budget(max_reported_errors: usize, walk: &WalkOutcome) -> (r: usize)
    ensures
        r == room_left(max_reported_errors, walk.errors@.len()),
{
    if walk.errors.len() < max_reported_errors {
        max_reported_errors - walk.errors.len()
    } else {
        0
    }
}

/// Whether `report` tells of a walk and of the search for duplicates behind it.
pub open spec fn reports(
    report: AnalysisReport,
    walk: WalkOutcome,
    hashes: Option<HashOutcome>,
    duration: Span,
) -> bool {
    &&& report.file_count == walk.file_count
    &&& report.dir_count == walk.dir_count
    &&& report.total_size == walk.total_size
    &&& report.largest_files == walk.largest_files
    &&& report.by_extension == walk.by_extension
    &&& report.by_mime == walk.by_mime
    &&& report.age_buckets == walk.age_buckets
    &&& report.duration == duration
    &&& match hashes {
        Some(h) => {
            &&& report.errors@ == walk.errors@ + h.errors@
            &&& report.errors_total == walk.errors_total + h.errors_total
            &&& report.duplicates == h.groups
            &&& report.duplicate_groups_total == h.groups_total
            &&& report.duplicate_bytes_wasted == h.bytes_wasted
        },
        None => {
            &&& report.errors@ == walk.errors@
            &&& report.errors_total == walk.errors_total
            &&& report.duplicates@.len() == 0
            &&& report.duplicate_groups_total == 0
            &&& report.duplicate_bytes_wasted == 0
        },
    }
}

/// The report of a walk and of the search for duplicates behind it, where there was one.
pub fn assemble(walk: WalkOutcome, hashes: Option<HashOutcome>, duration: Span) -> (r:
    AnalysisReport)
    requires
        hashes matches Some(h) ==> walk.errors_total + h.errors_total <= usize::MAX,
    ensures
        reports(r, walk, hashes, duration),
{
    let mut errors = walk.errors;
    let mut errors_total: usize = walk.errors_total;
    let (duplicates, duplicate_groups_total, duplicate_bytes_wasted) = match hashes {
        Some(h) => {
            let mut more = h.errors;
            errors.append(&mut more);
            errors_total = errors_total + h.errors_total;
            (h.groups, h.groups_total, h.bytes_wasted)
        },
        None => (Vec::new(), 0, 0),
    };
    AnalysisReport {
        file_count: walk.file_count,
        dir_count: walk.dir_count,
        total_size: walk.total_size,
        largest_files: walk.largest_files,
        by_extension: walk.by_extension,
        by_mime: walk.by_mime,
        age_buckets: walk.age_buckets,
        errors,
        errors_total,
        duplicates,
        duplicate_groups_total,
        duplicate_bytes_wasted,
        duration,
    }
}

/// The failures that a report lists stay within the limit that the caller set, those of the
/// walk and those of the search together.
pub proof fn lemma_listed_errors_stay_within_the_limit(walk: Walk, search: DuplicateSearch)
    requires
        walk.wf(),
        search.wf(),
        search.max_reported_errors == walk.params.max_reported_errors - walk.errors@.len(),
    ensures
        walk.errors@.len() + search.errors@.len() <= walk.params.max_reported_errors,
{
}

/// There is always a worker, and what the caller set is kept to.
pub proof fn lemma_there_is_always_a_worker(set: Option<usize>, default_concurrency: usize)
    ensures
        workers(set, default_concurrency) >= 1,
        set is Some && set->0 > 0 ==> workers(set, default_concurrency) == set->0,
        set is None && default_concurrency > 0 ==> workers(set, default_concurrency)
            == default_concurrency,
{
}

/// What is listed and what may still be listed never exceed the limit, and use it up.
pub proof fn lemma_room_is_used_up(limit: usize, taken: nat)
    ensures
        0 <= room_left(limit, taken) <= limit,
        taken <= limit ==> taken + room_left(limit, taken) == limit,
        taken >= limit ==> room_left(limit, taken) == 0,
{
}

/// No failure is lost in a report: it counts those of the walk and those of the search for
/// duplicates, and lists them in that order. What was counted is told as the phase that counted
/// it left it, and without a search there are no duplicates.
pub proof fn lemma_report_tells_of_both_phases(
    report: AnalysisReport,
    walk: WalkOutcome,
    hashes: Option<HashOutcome>,
    duration: Span,
    i: int,
)
    requires
        reports(report, walk, hashes, duration),
    ensures
        report.errors_total >= walk.errors_total,
        hashes is None ==> report.errors_total == walk.errors_total && report.duplicates@.len()
            == 0 && report.duplicate_bytes_wasted == 0 && report.duplicate_groups_total == 0,
        hashes matches Some(h) ==> report.errors_total - walk.errors_total == h.errors_total
            && report.errors@.len() == walk.errors@.len() + h.errors@.len()
            && report.duplicates@ == h.groups@,
        0 <= i < walk.errors@.len() ==> report.errors@[i] == walk.errors@[i],
        hashes is Some && 0 <= i < hashes->0.errors@.len() ==> report.errors@[walk.errors@.len()
            + i] == hashes->0.errors@[i],
        report.file_count == walk.file_count,
        report.dir_count == walk.dir_count,
        report.total_size == walk.total_size,
        report.largest_files == walk.largest_files,
        report.by_extension == walk.by_extension,
        report.by_mime == walk.by_mime,
        report.age_buckets == walk.age_buckets,
        report.duration == duration,
        hashes matches Some(h) ==> report.duplicate_groups_total == h.groups_total
            && report.duplicate_bytes_wasted == h.bytes_wasted,
{
}

} // verus!

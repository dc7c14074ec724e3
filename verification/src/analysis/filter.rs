use vstd::prelude::*;

use crate::criteria;
use crate::error::Error;
use crate::globs;
use crate::paths::FilePath;
use crate::profiler::Timestamp;
use crate::text;

verus! {

/// Which files count toward a report. A file has to meet every criterion that is set. What
/// an exclude pattern matches is not even walked into.
#[derive(Debug)]
pub struct AnalysisFilter {
    /// `None` matches any extension. Compared without regard to ASCII case, and without
    /// the dot.
    pub extensions: Option<Vec<String>>,
    pub exclude_patterns: Vec<String>,
    pub min_size: Option<u64>,
    pub max_size: Option<u64>,
    pub modified_after: Option<Timestamp>,
    pub modified_before: Option<Timestamp>,
}

impl Default for AnalysisFilter {
    fn default() -> (r: Self)
        ensures
            r.unset(),
    {
        AnalysisFilter {
            extensions: None,
            exclude_patterns: Vec::new(),
            min_size: None,
            max_size: None,
            modified_after: None,
            modified_before: None,
        }
    }
}

impl AnalysisFilter {
    /// Whether no criterion is set.
    pub open spec fn unset(self) -> bool {
        &&& self.extensions is None
        &&& self.exclude_patterns@.len() == 0
        &&& self.min_size is None
        &&& self.max_size is None
        &&& self.modified_after is None
        &&& self.modified_before is None
    }

    /// Whether a file that the walk came to counts toward the report.
    pub open spec fn passes(self, path: FilePath, size: u64, modified: Option<Timestamp>) -> bool {
        &&& criteria::extension_passes(self.extensions, path@)
        &&& criteria::size_passes(self.min_size, self.max_size, size)
        &&& criteria::time_passes(self.modified_after, self.modified_before, modified)
    }

    /// Compiles the exclude patterns, once per walk; `None` where there are none.
    pub fn compiled_excludes(&self) -> (r: Result<Option<globset::GlobSet>, Error>)
        ensures
            globs::compiles_to(text::texts(self.exclude_patterns@), r),
    {
        globs::compile(&self.exclude_patterns)
    }

    /// Whether a file that the walk came to counts toward the report.
    pub fn matches(&self, relative_path: &FilePath, size: u64, modified: Option<Timestamp>) -> (r:
        bool)
        ensures
            r == self.passes(*relative_path, size, modified),
    {
        criteria::check_extension(&self.extensions, relative_path) && criteria::check_size(
            self.min_size,
            self.max_size,
            size,
        ) && criteria::check_time(self.modified_after, self.modified_before, modified)
    }
}

/// A filter without criteria matches every file.
pub proof fn lemma_empty_filter_matches_everything(
    filter: AnalysisFilter,
    path: FilePath,
    size: u64,
    modified: Option<Timestamp>,
)
    requires
        filter.unset(),
    ensures
        filter.passes(path, size, modified),
{
}

/// A file passes a filter if and only if it passes each criterion that is set where that
/// criterion is set alone: none of them makes up for another, and none switches another off.
pub proof fn lemma_every_criterion_counts(
    filter: AnalysisFilter,
    path: FilePath,
    size: u64,
    modified: Option<Timestamp>,
    blank: AnalysisFilter,
)
    requires
        blank.unset(),
    ensures
        filter.passes(path, size, modified) <==> {
            &&& (AnalysisFilter { extensions: filter.extensions, ..blank }).passes(path, size, modified)
            &&& (AnalysisFilter { min_size: filter.min_size, ..blank }).passes(path, size, modified)
            &&& (AnalysisFilter { max_size: filter.max_size, ..blank }).passes(path, size, modified)
            &&& (AnalysisFilter { modified_after: filter.modified_after, ..blank }).passes(
                path,
                size,
                modified,
            )
            &&& (AnalysisFilter { modified_before: filter.modified_before, ..blank }).passes(
                path,
                size,
                modified,
            )
        },
{
}

/// Whatever else is asked for, a file that misses one bound does not pass, and one that meets
/// every criterion does.
pub proof fn lemma_missed_bound_never_passes(
    filter: AnalysisFilter,
    path: FilePath,
    size: u64,
    modified: Option<Timestamp>,
)
    ensures
        filter.min_size matches Some(low) && size < low ==> !filter.passes(path, size, modified),
        filter.max_size matches Some(high) && high < size ==> !filter.passes(path, size, modified),
        filter.modified_after matches Some(t) && (modified is None || modified->0.at() < t.at())
            ==> !filter.passes(path, size, modified),
        filter.modified_before matches Some(t) && (modified is None || modified->0.at() > t.at())
            ==> !filter.passes(path, size, modified),
        !criteria::extension_passes(filter.extensions, path@) ==> !filter.passes(
            path,
            size,
            modified,
        ),
        ({
            &&& criteria::extension_passes(filter.extensions, path@)
            &&& filter.min_size matches Some(low) ==> low <= size
            &&& filter.max_size matches Some(high) ==> size <= high
            &&& filter.modified_after matches Some(t) ==> modified is Some && t.at()
                <= modified->0.at()
            &&& filter.modified_before matches Some(t) ==> modified is Some && modified->0.at()
                <= t.at()
        }) ==> filter.passes(path, size, modified),
{
}

/// One more criterion lets no further file pass.
pub proof fn lemma_more_criteria_pass_fewer(
    filter: AnalysisFilter,
    bytes: u64,
    time: Timestamp,
    path: FilePath,
    size: u64,
    modified: Option<Timestamp>,
)
    ensures
        filter.min_size is None && (AnalysisFilter { min_size: Some(bytes), ..filter }).passes(
            path,
            size,
            modified,
        ) ==> filter.passes(path, size, modified),
        filter.max_size is None && (AnalysisFilter { max_size: Some(bytes), ..filter }).passes(
            path,
            size,
            modified,
        ) ==> filter.passes(path, size, modified),
        filter.modified_after is None && (AnalysisFilter { modified_after: Some(time), ..filter }).passes(
            path,
            size,
            modified,
        ) ==> filter.passes(path, size, modified),
        filter.modified_before is None && (AnalysisFilter { modified_before: Some(time), ..filter }).passes(
            path,
            size,
            modified,
        ) ==> filter.passes(path, size, modified),
{
}

/// A filter has no criterion if and only if not one of them is set.
pub proof fn lemma_unset_means_no_criterion(filter: AnalysisFilter)
    ensures
        !filter.unset() <==> filter.extensions is Some || filter.exclude_patterns@.len() > 0
            || filter.min_size is Some || filter.max_size is Some || filter.modified_after is Some
            || filter.modified_before is Some,
{
}

} // verus!

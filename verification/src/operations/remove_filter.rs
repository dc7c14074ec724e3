use vstd::prelude::*;

use crate::criteria;
use crate::error::Error;
use crate::globs;
use crate::os_text;
use crate::paths::FilePath;
use crate::profiler::{Entry, Timestamp};
use crate::text;

verus! {

/// Which files are removed. A file has to meet every criterion that is set.
#[derive(Debug)]
pub struct RemoveFilter {
    /// `None` matches any extension. Compared without regard to ASCII case, and without
    /// the dot.
    pub extensions: Option<Vec<String>>,
    pub exclude_patterns: Vec<String>,
    pub min_size: Option<u64>,
    pub max_size: Option<u64>,
    pub modified_after: Option<Timestamp>,
    pub modified_before: Option<Timestamp>,
}

impl Default for RemoveFilter {
    fn default() -> (r: Self)
        ensures
            r.unset(),
    {
        RemoveFilter {
            extensions: None,
            exclude_patterns: Vec::new(),
            min_size: None,
            max_size: None,
            modified_after: None,
            modified_before: None,
        }
    }
}

impl RemoveFilter {
    /// Whether no criterion is set.
    pub open spec fn unset(self) -> bool {
        &&& self.extensions is None
        &&& self.exclude_patterns@.len() == 0
        &&& self.min_size is None
        &&& self.max_size is None
        &&& self.modified_after is None
        &&& self.modified_before is None
    }

    /// Whether a file meets every criterion but the exclude patterns.
    pub open spec fn passes(self, path: FilePath, size: u64, modified: Option<Timestamp>) -> bool {
        &&& criteria::extension_passes(self.extensions, path@)
        &&& criteria::size_passes(self.min_size, self.max_size, size)
        &&& criteria::time_passes(self.modified_after, self.modified_before, modified)
    }

    /// Whether no criterion is set: such a filter matches every file.
    pub fn is_empty(&self) -> (r: bool)
        ensures
            r == self.unset(),
    {
        self.extensions.is_none() && self.exclude_patterns.len() == 0 && self.min_size.is_none()
            && self.max_size.is_none() && self.modified_after.is_none()
            && self.modified_before.is_none()
    }

    /// Compiles the exclude patterns, once per run; `None` where there are none.
    pub fn compiled_excludes(&self) -> (r: Result<Option<globset::GlobSet>, Error>)
        ensures
            globs::compiles_to(text::texts(self.exclude_patterns@), r),
    {
        globs::compile(&self.exclude_patterns)
    }

    /// Whether a file meets every criterion but the exclude patterns.
    pub fn accepts(&self, relative_path: &FilePath, size: u64, modified: Option<Timestamp>) -> (r:
        bool)
        ensures
            r == self.passes(*relative_path, size, modified),
    {
        criteria::check_extension(&self.extensions, relative_path) && criteria::check_size(
            self.min_size,
            self.max_size,
            size,
        ) && criteria::check_time(self.modified_after, self.modified_before, modified)
    }

    /// Whether a file that was scanned is to be removed: no exclude pattern matches its
    /// path, and it meets every other criterion.
    pub fn matches(
        &self,
        relative_path: &FilePath,
        size: u64,
        modified: Option<Timestamp>,
        excludes: Option<&globset::GlobSet>,
    ) -> (r: bool)
        ensures
            r == (!globs::excludes(excludes, relative_path.text@) && self.passes(
                *relative_path,
                size,
                modified,
            )),
    {
        !globs::is_excluded(excludes, relative_path) && self.accepts(
            relative_path,
            size,
            modified,
        )
    }

    /// Whether an entry is to be removed.
    pub open spec fn selects(self, excludes: Option<&globset::GlobSet>, entry: Entry) -> bool {
        !globs::excludes(excludes, entry.relative_path.text@) && self.passes(
            entry.relative_path,
            entry.size,
            entry.modified,
        )
    }
}

/// A filter without criteria matches every file.
pub proof fn lemma_empty_filter_matches_everything(
    filter: RemoveFilter,
    path: FilePath,
    size: u64,
    modified: Option<Timestamp>,
)
    requires
        filter.unset(),
    ensures
        filter.passes(path, size, modified),
{
}

/// A file passes a filter if and only if it passes each criterion that is set where that
/// criterion is set alone: none of them makes up for another, and none switches another off.
pub proof fn lemma_every_criterion_counts(
    filter: RemoveFilter,
    path: FilePath,
    size: u64,
    modified: Option<Timestamp>,
    blank: RemoveFilter,
)
    requires
        blank.unset(),
    ensures
        filter.passes(path, size, modified) <==> {
            &&& (RemoveFilter { extensions: filter.extensions, ..blank }).passes(path, size, modified)
            &&& (RemoveFilter { min_size: filter.min_size, ..blank }).passes(path, size, modified)
            &&& (RemoveFilter { max_size: filter.max_size, ..blank }).passes(path, size, modified)
            &&& (RemoveFilter { modified_after: filter.modified_after, ..blank }).passes(
                path,
                size,
                modified,
            )
            &&& (RemoveFilter { modified_before: filter.modified_before, ..blank }).passes(
                path,
                size,
                modified,
            )
        },
{
}

/// Whatever else is asked for, a file that misses one bound does not pass, and one that meets
/// every criterion does.
pub proof fn lemma_missed_bound_never_passes(
    filter: RemoveFilter,
    path: FilePath,
    size: u64,
    modified: Option<Timestamp>,
)
    ensures
        filter.min_size matches Some(low) && size < low ==> !filter.passes(path, size, modified),
        filter.max_size matches Some(high) && high < size ==> !filter.passes(path, size, modified),
        filter.modified_after matches Some(t) && (modified is None || modified->0.at() < t.at())
            ==> !filter.passes(path, size, modified),
        filter.modified_before matches Some(t) && (modified is None || modified->0.at() > t.at())
            ==> !filter.passes(path, size, modified),
        !criteria::extension_passes(filter.extensions, path@) ==> !filter.passes(
            path,
            size,
            modified,
        ),
        ({
            &&& criteria::extension_passes(filter.extensions, path@)
            &&& filter.min_size matches Some(low) ==> low <= size
            &&& filter.max_size matches Some(high) ==> size <= high
            &&& filter.modified_after matches Some(t) ==> modified is Some && t.at()
                <= modified->0.at()
            &&& filter.modified_before matches Some(t) ==> modified is Some && modified->0.at()
                <= t.at()
        }) ==> filter.passes(path, size, modified),
{
}

/// One more criterion lets no further file pass.
pub proof fn lemma_more_criteria_pass_fewer(
    filter: RemoveFilter,
    bytes: u64,
    time: Timestamp,
    path: FilePath,
    size: u64,
    modified: Option<Timestamp>,
)
    ensures
        filter.min_size is None && (RemoveFilter { min_size: Some(bytes), ..filter }).passes(
            path,
            size,
            modified,
        ) ==> filter.passes(path, size, modified),
        filter.max_size is None && (RemoveFilter { max_size: Some(bytes), ..filter }).passes(
            path,
            size,
            modified,
        ) ==> filter.passes(path, size, modified),
        filter.modified_after is None && (RemoveFilter { modified_after: Some(time), ..filter }).passes(
            path,
            size,
            modified,
        ) ==> filter.passes(path, size, modified),
        filter.modified_before is None && (RemoveFilter { modified_before: Some(time), ..filter }).passes(
            path,
            size,
            modified,
        ) ==> filter.passes(path, size, modified),
{
}

/// A filter has no criterion if and only if not one of them is set.
pub proof fn lemma_unset_means_no_criterion(filter: RemoveFilter)
    ensures
        !filter.unset() <==> filter.extensions is Some || filter.exclude_patterns@.len() > 0
            || filter.min_size is Some || filter.max_size is Some || filter.modified_after is Some
            || filter.modified_before is Some,
{
}

/// What an exclude pattern matches is kept, whatever else is asked for; what none matches is
/// removed if and only if it meets every other criterion.
pub proof fn lemma_excluded_file_is_never_selected(
    filter: RemoveFilter,
    set: globset::GlobSet,
    entry: Entry,
    i: int,
)
    ensures
        0 <= i < globs::patterns_of(set).len() && globs::glob_matches(
            globs::patterns_of(set)[i],
            os_text::bytes_of(entry.relative_path.text@),
        ) ==> !filter.selects(Some(&set), entry),
        (forall|j: int|
            0 <= j < globs::patterns_of(set).len() ==> !globs::glob_matches(
                #[trigger] globs::patterns_of(set)[j],
                os_text::bytes_of(entry.relative_path.text@),
            )) ==> (filter.selects(Some(&set), entry) <==> filter.selects(None, entry)),
        filter.selects(None, entry) <==> filter.passes(
            entry.relative_path,
            entry.size,
            entry.modified,
        ),
{
}

} // verus!

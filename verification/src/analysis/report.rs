use vstd::prelude::*;

use crate::error::Error;
use crate::paths::FilePath;
use crate::profiler::{Span, Timestamp};

verus! {

/// How many failures a report lists, where the caller sets no limit.
pub const DEFAULT_MAX_REPORTED_ERRORS: usize = 1000;

/// How many groups of duplicates a report lists, where the caller sets no limit.
pub const DEFAULT_MAX_REPORTED_DUPLICATE_GROUPS: usize = 1000;

/// A file that matched the filter.
#[derive(Debug)]
pub struct Entry {
    pub path: FilePath,
    pub relative_path: FilePath,
    pub size: u64,
    /// `None` where the file system reports no modification time.
    pub modified: Option<Timestamp>,
}

impl Clone for Entry {
    fn clone(&self) -> (r: Self)
        ensures
            r == *self,
    {
        Entry {
            path: self.path.clone(),
            relative_path: self.relative_path.clone(),
            size: self.size,
            modified: self.modified,
        }
    }
}

#[derive(Debug, Clone, Copy, PartialEq, Eq, Structural)]
pub struct ExtensionStats {
    pub count: usize,
    pub total_size: u64,
}

#[derive(Debug, Clone, Copy, PartialEq, Eq, Structural)]
pub struct MimeStats {
    pub count: usize,
    pub total_size: u64,
}

/// How many files were last modified how long ago. Each counts in the first field whose
/// bound its age is below.
#[derive(Debug, Clone, Copy, PartialEq, Eq, Structural)]
pub struct AgeBuckets {
    pub under_1_day: usize,
    pub under_1_week: usize,
    pub under_1_month: usize,
    pub under_1_year: usize,
    pub older: usize,
    /// Files whose modification time is not known.
    pub unknown: usize,
}

/// Files of the same size and content.
#[derive(Debug)]
pub struct DuplicateGroup {
    pub hash: [u8; 32],
    pub size: u64,
    pub paths: Vec<FilePath>,
}

/// What an analysis found.
#[derive(Debug)]
#[non_exhaustive]
pub struct AnalysisReport {
    pub file_count: usize,
    pub dir_count: usize,
    pub total_size: u64,
    /// The largest files, descending by size.
    pub largest_files: Vec<Entry>,
    /// One row for each extension, in lower case and without the dot; files without one
    /// are under the empty text.
    pub by_extension: Vec<(String, ExtensionStats)>,
    /// One row for each media type; `unknown` where a file has none that is known.
    pub by_mime: Vec<(String, MimeStats)>,
    pub age_buckets: AgeBuckets,
    /// The first failures, in the order they came.
    pub errors: Vec<(FilePath, Error)>,
    /// How many failures there were, listed or not.
    pub errors_total: usize,
    /// The first groups of duplicates.
    pub duplicates: Vec<DuplicateGroup>,
    /// How many groups there are, listed or not.
    pub duplicate_groups_total: usize,
    /// What all groups take beyond one file each, listed or not.
    pub duplicate_bytes_wasted: u64,
    pub duration: Span,
}

/// The span of days that ends a bucket, in nanoseconds.
pub open spec fn days(n: int) -> int {
    n * 86_400 * 1_000_000_000
}

/// A field of `AgeBuckets`.
#[derive(Debug, Clone, Copy, PartialEq, Eq, Structural)]
pub enum Age {
    UnderOneDay,
    UnderOneWeek,
    UnderOneMonth,
    UnderOneYear,
    Older,
    Unknown,
}

/// How old a file is at `now`. One that seems to come from the future is new.
pub open spec fn age_at(now: Timestamp, modified: Option<Timestamp>) -> Age {
    match modified {
        None => Age::Unknown,
        Some(m) => {
            let age = now.at() - m.at();
            if age < days(1) {
                Age::UnderOneDay
            } else if age < days(7) {
                Age::UnderOneWeek
            } else if age < days(30) {
                Age::UnderOneMonth
            } else if age < days(365) {
                Age::UnderOneYear
            } else {
                Age::Older
            }
        },
    }
}

/// How old a file is at `now`.
pub fn age_of(now: &Timestamp, modified: &Option<Timestamp>) -> (r: Age)
    ensures
        r == age_at(*now, *modified),
{
    match modified {
        None => Age::Unknown,
        Some(m) => {
            let day: i128 = 86_400_000_000_000;
            let age: i128 = now.as_nanos() - m.as_nanos();
            if age < day {
                Age::UnderOneDay
            } else if age < 7 * day {
                Age::UnderOneWeek
            } else if age < 30 * day {
                Age::UnderOneMonth
            } else if age < 365 * day {
                Age::UnderOneYear
            } else {
                Age::Older
            }
        },
    }
}

impl AgeBuckets {
    /// The field of an age.
    pub open spec fn at(self, age: Age) -> usize {
        match age {
            Age::UnderOneDay => self.under_1_day,
            Age::UnderOneWeek => self.under_1_week,
            Age::UnderOneMonth => self.under_1_month,
            Age::UnderOneYear => self.under_1_year,
            Age::Older => self.older,
            Age::Unknown => self.unknown,
        }
    }

    /// How many files are counted in all.
    pub open spec fn total(self) -> int {
        self.under_1_day + self.under_1_week + self.under_1_month + self.under_1_year + self.older
            + self.unknown
    }

    /// Counts one file of that age.
    pub fn count(&mut self, age: Age)
        requires
            old(self).at(age) < usize::MAX,
        ensures
            final(self).at(age) == old(self).at(age) + 1,
            forall|other: Age| other != age ==> #[trigger] final(self).at(other) == old(self).at(
                other,
            ),
            final(self).total() == old(self).total() + 1,
    {
        match age {
            Age::UnderOneDay => {
                self.under_1_day = self.under_1_day + 1;
            },
            Age::UnderOneWeek => {
                self.under_1_week = self.under_1_week + 1;
            },
            Age::UnderOneMonth => {
                self.under_1_month = self.under_1_month + 1;
            },
            Age::UnderOneYear => {
                self.under_1_year = self.under_1_year + 1;
            },
            Age::Older => {
                self.older = self.older + 1;
            },
            Age::Unknown => {
                self.unknown = self.unknown + 1;
            },
        }
    }
}

impl Default for AgeBuckets {
    fn default() -> (r: Self)
        ensures
            forall|age: Age| #[trigger] r.at(age) == 0,
            r.total() == 0,
    {
        AgeBuckets {
            under_1_day: 0,
            under_1_week: 0,
            under_1_month: 0,
            under_1_year: 0,
            older: 0,
            unknown: 0,
        }
    }
}

impl Default for ExtensionStats {
    fn default() -> (r: Self)
        ensures
            r.count == 0,
            r.total_size == 0,
    {
        ExtensionStats { count: 0, total_size: 0 }
    }
}

impl Default for MimeStats {
    fn default() -> (r: Self)
        ensures
            r.count == 0,
            r.total_size == 0,
    {
        MimeStats { count: 0, total_size: 0 }
    }
}

/// How far back an age lies.
pub open spec fn rank(age: Age) -> int {
    match age {
        Age::UnderOneDay => 0,
        Age::UnderOneWeek => 1,
        Age::UnderOneMonth => 2,
        Age::UnderOneYear => 3,
        Age::Older => 4,
        Age::Unknown => 5,
    }
}

/// An earlier file is never taken for a newer one, and time only makes files older.
pub proof fn lemma_earlier_files_are_older(
    now: Timestamp,
    later: Timestamp,
    early: Timestamp,
    late: Timestamp,
)
    requires
        early.at() <= late.at(),
        now.at() <= later.at(),
    ensures
        rank(age_at(now, Some(early))) >= rank(age_at(now, Some(late))),
        rank(age_at(later, Some(early))) >= rank(age_at(now, Some(early))),
        age_at(now, Some(early)) != Age::Unknown,
        age_at(now, None) == Age::Unknown,
        late.at() >= now.at() ==> age_at(now, Some(late)) == Age::UnderOneDay,
{
}

/// The bounds lie at 1, 7, 30 and 365 days of 86400 seconds each, and a file that is exactly
/// as old as a bound lies behind it.
pub proof fn lemma_bounds_lie_at_whole_days(now: Timestamp, m: Timestamp)
    ensures
        ({
            let seconds = (now.at() - m.at()) as int;
            let day = 86_400_000_000_000int;
            let r = rank(age_at(now, Some(m)));
            &&& seconds == day - 1 ==> r == 0
            &&& seconds == day ==> r == 1
            &&& seconds == 7 * day - 1 ==> r == 1
            &&& seconds == 7 * day ==> r == 2
            &&& seconds == 30 * day - 1 ==> r == 2
            &&& seconds == 30 * day ==> r == 3
            &&& seconds == 365 * day - 1 ==> r == 3
            &&& seconds == 365 * day ==> r == 4
        }),
{
}

/// Every age has a field of its own, and all fields together are the total.
pub proof fn lemma_every_age_has_its_field(buckets: AgeBuckets)
    ensures
        buckets.total() == buckets.at(Age::UnderOneDay) + buckets.at(Age::UnderOneWeek)
            + buckets.at(Age::UnderOneMonth) + buckets.at(Age::UnderOneYear) + buckets.at(
            Age::Older,
        ) + buckets.at(Age::Unknown),
        buckets.at(Age::UnderOneDay) == buckets.under_1_day,
        buckets.at(Age::Unknown) == buckets.unknown,
        buckets.at(Age::Older) == buckets.older,
{
}

} // verus!

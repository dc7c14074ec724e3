use vstd::prelude::*;
use vstd::string::*;

use super::error_strategy::AnalysisErrorStrategy;
use super::filter::AnalysisFilter;
use super::largest;
use super::largest::keep_largest;
use super::report;
use super::report::{age_of, Age, AgeBuckets, Entry, ExtensionStats, MimeStats};
use super::tally;
use super::tally::{Tally, Totals};
use crate::error;
use crate::error::{Error, IoFailure};
use crate::globs;
use crate::os_text;
use crate::paths;
use crate::paths::FilePath;
use crate::profiler::Timestamp;
use crate::text;

verus! {

/// How much of a file's beginning its media type is told from.
pub const HEADER_BYTES: u64 = 8192;

/// The media type that a file's beginning shows, or `None` where it shows none.
pub uninterp spec fn mime_of(header: Seq<u8>) -> Option<Seq<char>>;

/// `infer::get`, and `mime_type` of what it finds: the media type of a file that begins
/// with `header`. What it gives is named `mime_of`.
#[verifier::external_body]
fn infer_mime(header: &[u8]) -> (r: Option<String>)
    ensures
        match r {
            Some(mime) => mime_of(header@) == Some(mime@),
            None => mime_of(header@) is None,
        },
{
    match infer::get(header) {
        Some(kind) => Some(kind.mime_type().to_string()),
        None => None,
    }
}

/// What a file is listed under whose beginning is `header`, or could not be read: its media
/// type, or `unknown`.
pub open spec fn mime_name(header: Option<Seq<u8>>) -> Seq<char> {
    match header {
        None => "unknown"@,
        Some(bytes) => match mime_of(bytes) {
            Some(mime) => mime,
            None => "unknown"@,
        },
    }
}

/// What a file is listed under whose beginning is `header`, or could not be read.
pub fn name_mime(header: &Option<Vec<u8>>) -> (r: String)
    ensures
        r@ == mime_name(
            match *header {
                Some(bytes) => Some(bytes@),
                None => None,
            },
        ),
{
    match header {
        None => "unknown".to_owned(),
        Some(bytes) => match infer_mime(bytes.as_slice()) {
            Some(mime) => mime,
            None => "unknown".to_owned(),
        },
    }
}

/// What a file is listed under by extension: the extension in lower case, or nothing where
/// it has none or that is no Unicode.
pub open spec fn extension_name(entry: Entry) -> Seq<char> {
    match paths::unicode_extension_of(entry.relative_path@) {
        Some(extension) => text::lowered(extension),
        None => Seq::empty(),
    }
}

/// What a file is listed under by extension.
pub fn name_extension(entry: &Entry) -> (r: String)
    ensures
        r@ == extension_name(*entry),
{
    match entry.relative_path.unicode_extension() {
        Some(extension) => text::to_lower(extension.as_str()),
        None => String::new(),
    }
}

/// The sum of the sizes of `entries`.
pub open spec fn sizes_sum(entries: Seq<Entry>) -> nat
    decreases entries.len(),
{
    if entries.len() == 0 {
        0
    } else {
        sizes_sum(entries.drop_last()) + entries.last().size as nat
    }
}

/// How many of `entries` have that age.
pub open spec fn aged(entries: Seq<Entry>, now: Timestamp, age: Age) -> nat
    decreases entries.len(),
{
    if entries.len() == 0 {
        0
    } else {
        aged(entries.drop_last(), now, age) + if report::age_at(now, entries.last().modified)
            == age {
            1nat
        } else {
            0nat
        }
    }
}

/// Names and sizes of `entries`, by extension.
pub open spec fn by_extension_of(entries: Seq<Entry>) -> Seq<(Seq<char>, u64)> {
    entries.map_values(|e: Entry| (extension_name(e), e.size))
}

/// Names and sizes of `entries`, by media type.
pub open spec fn by_mime_of(entries: Seq<Entry>, mimes: Seq<Seq<char>>) -> Seq<(Seq<char>, u64)> {
    Seq::new(entries.len(), |i: int| (mimes[i], entries[i].size))
}

/// What an analysis is asked for.
#[derive(Debug)]
pub struct WalkParams {
    pub root: FilePath,
    pub filter: AnalysisFilter,
    pub error_strategy: AnalysisErrorStrategy,
    pub max_depth: Option<usize>,
    pub follow_symlinks: bool,
    pub top_n_largest: usize,
    pub detect_mime_types: bool,
    pub collect_duplicate_candidates: bool,
    pub max_reported_errors: usize,
    pub walk_concurrency: usize,
    pub estimate_total: bool,
}

/// What the matched files come to, file by file.
pub struct Aggregator {
    pub now: Timestamp,
    pub top_n: usize,
    pub detect_mime_types: bool,
    pub collect_duplicate_candidates: bool,
    pub file_count: usize,
    pub dir_count: usize,
    pub total_size: u64,
    pub largest: Vec<Entry>,
    pub by_extension: Tally,
    pub by_mime: Tally,
    pub age_buckets: AgeBuckets,
    pub duplicate_candidates: Vec<Entry>,
    /// All files that were recorded, in order.
    pub seen: Ghost<Seq<Entry>>,
    /// What each of them is listed under by media type.
    pub mimes: Ghost<Seq<Seq<char>>>,
}

proof fn lemma_history_sizes(entries: Seq<Entry>, history: Seq<(Seq<char>, u64)>)
    requires
        history.len() == entries.len(),
        forall|i: int| 0 <= i < entries.len() ==> (#[trigger] history[i]).1 == entries[i].size,
    ensures
        tally::size_of_all(history) == sizes_sum(entries),
    decreases entries.len(),
{
    if entries.len() > 0 {
        lemma_history_sizes(entries.drop_last(), history.drop_last());
    }
}

proof fn lemma_aged_is_bounded(entries: Seq<Entry>, now: Timestamp, age: Age)
    ensures
        aged(entries, now, age) <= entries.len(),
    decreases entries.len(),
{
    if entries.len() > 0 {
        lemma_aged_is_bounded(entries.drop_last(), now, age);
    }
}

impl Aggregator {
    pub open spec fn wf(self) -> bool {
        let seen = self.seen@;
        &&& self.mimes@.len() == seen.len()
        &&& self.file_count == seen.len()
        &&& self.total_size == sizes_sum(seen)
        &&& largest::are_largest(self.largest@, seen, self.top_n)
        &&& self.by_extension.wf()
        &&& self.by_extension.history@ == by_extension_of(seen)
        &&& self.by_mime.wf()
        &&& self.by_mime.history@ == if self.detect_mime_types {
            by_mime_of(seen, self.mimes@)
        } else {
            Seq::empty()
        }
        &&& forall|age: Age| #[trigger] self.age_buckets.at(age) == aged(seen, self.now, age)
        &&& self.age_buckets.total() == seen.len()
        &&& self.duplicate_candidates@ == if self.collect_duplicate_candidates {
            seen
        } else {
            Seq::empty()
        }
    }

    /// Whether both were asked for the same.
    pub open spec fn same_settings(self, other: Aggregator) -> bool {
        &&& self.now == other.now
        &&& self.top_n == other.top_n
        &&& self.detect_mime_types == other.detect_mime_types
        &&& self.collect_duplicate_candidates == other.collect_duplicate_candidates
    }

    /// Whether one more file of that size can still be counted.
    pub open spec fn can_take(self, size: u64) -> bool {
        self.file_count < usize::MAX && self.total_size + size <= u64::MAX
    }

    /// An aggregator that has seen nothing. Ages are told at `now`.
    pub fn new(params: &WalkParams, now: Timestamp) -> (r: Aggregator)
        ensures
            r.wf(),
            r.now == now,
            r.top_n == params.top_n_largest,
            r.detect_mime_types == params.detect_mime_types,
            r.collect_duplicate_candidates == params.collect_duplicate_candidates,
            r.dir_count == 0,
            r.seen@ == Seq::<Entry>::empty(),
            r.mimes@ == Seq::<Seq<char>>::empty(),
    {
        proof {
            largest::lemma_no_largest(params.top_n_largest);
        }
        let r = Aggregator {
            now,
            top_n: params.top_n_largest,
            detect_mime_types: params.detect_mime_types,
            collect_duplicate_candidates: params.collect_duplicate_candidates,
            file_count: 0,
            dir_count: 0,
            total_size: 0,
            largest: Vec::new(),
            by_extension: Tally::new(),
            by_mime: Tally::new(),
            age_buckets: AgeBuckets::default(),
            duplicate_candidates: Vec::new(),
            seen: Ghost(Seq::empty()),
            mimes: Ghost(Seq::empty()),
        };
        assert(r.largest@ =~= Seq::<Entry>::empty());
        assert(r.by_extension.history@ =~= by_extension_of(r.seen@));
        assert(r.detect_mime_types ==> r.by_mime.history@ =~= by_mime_of(r.seen@, r.mimes@));
        r
    }

    /// Counts a file in, whose media type is listed as `mime`.
    pub fn record_named(&mut self, entry: Entry, mime: String)
        requires
            old(self).wf(),
            old(self).can_take(entry.size),
        ensures
            final(self).wf(),
            final(self).same_settings(*old(self)),
            final(self).dir_count == old(self).dir_count,
            final(self).seen@ == old(self).seen@.push(entry),
            final(self).mimes@ == old(self).mimes@.push(mime@),
    {
        let ghost before = *self;
        let ghost seen = self.seen@.push(entry);
        let ghost mimes = self.mimes@.push(mime@);
        proof {
            assert(seen.drop_last() =~= before.seen@);
        }
        self.file_count = self.file_count + 1;
        self.total_size = self.total_size + entry.size;
        let mut kept: Vec<Entry> = Vec::new();
        std::mem::swap(&mut kept, &mut self.largest);
        self.largest = keep_largest(kept, &entry, self.top_n, self.seen);
        proof {
            lemma_history_sizes(before.seen@, before.by_extension.history@);
        }
        self.by_extension.add(name_extension(&entry), entry.size);
        assert(self.by_extension.history@ =~= by_extension_of(seen));
        if self.detect_mime_types {
            proof {
                lemma_history_sizes(before.seen@, before.by_mime.history@);
            }
            self.by_mime.add(mime, entry.size);
            assert(self.by_mime.history@ =~= by_mime_of(seen, mimes));
        }
        let age = age_of(&self.now, &entry.modified);
        proof {
            lemma_aged_is_bounded(before.seen@, self.now, age);
            assert(self.age_buckets.at(age) < usize::MAX);
        }
        self.age_buckets.count(age);
        self.seen = Ghost(seen);
        self.mimes = Ghost(mimes);
        if self.collect_duplicate_candidates {
            self.duplicate_candidates.push(entry);
        }
    }

    /// Counts a file in, which begins with `header`, or whose beginning could not be read.
    pub fn record(&mut self, entry: Entry, header: &Option<Vec<u8>>)
        requires
            old(self).wf(),
            old(self).can_take(entry.size),
        ensures
            final(self).wf(),
            final(self).same_settings(*old(self)),
            final(self).dir_count == old(self).dir_count,
            final(self).seen@ == old(self).seen@.push(entry),
            final(self).mimes@ == old(self).mimes@.push(
                if old(self).detect_mime_types {
                    mime_name(
                        match *header {
                            Some(bytes) => Some(bytes@),
                            None => None,
                        },
                    )
                } else {
                    Seq::empty()
                },
            ),
    {
        let mime = if self.detect_mime_types {
            name_mime(header)
        } else {
            String::new()
        };
        self.record_named(entry, mime);
    }
}

/// The names of the rows.
pub open spec fn names_of<T>(rows: Seq<(String, T)>) -> Seq<String> {
    rows.map_values(|row: (String, T)| row.0)
}

/// The totals of the rows by extension.
pub open spec fn extension_totals(rows: Seq<(String, ExtensionStats)>) -> Seq<Totals> {
    rows.map_values(
        |row: (String, ExtensionStats)|
            Totals { count: row.1.count, total_size: row.1.total_size },
    )
}

/// The totals of the rows by media type.
pub open spec fn mime_totals(rows: Seq<(String, MimeStats)>) -> Seq<Totals> {
    rows.map_values(
        |row: (String, MimeStats)| Totals { count: row.1.count, total_size: row.1.total_size },
    )
}

fn extension_rows(tally: Tally) -> (r: Vec<(String, ExtensionStats)>)
    requires
        tally.wf(),
    ensures
        tally::sums_up(names_of(r@), extension_totals(r@), tally.history@),
{
    let (names, totals) = tally.finish();
    let mut rows: Vec<(String, ExtensionStats)> = Vec::with_capacity(names.len());
    let ghost all = names@;
    for name in it: names
        invariant
            it.seq() == all,
            all.len() == totals@.len(),
            names_of(rows@) == all.take(it.index()),
            extension_totals(rows@) == totals@.take(it.index()),
        {
        let ghost before = rows@;
        assert(names_of(before).len() == before.len());
        let i: usize = rows.len();
        let t = totals[i];
        rows.push((name, ExtensionStats { count: t.count, total_size: t.total_size }));
        assert(names_of(rows@) =~= names_of(before).push(name));
        assert(extension_totals(rows@) =~= extension_totals(before).push(t));
        assert(all.take(i + 1) =~= all.take(i as int).push(name));
        assert(totals@.take(i + 1) =~= totals@.take(i as int).push(t));
    }
    assert(all.take(all.len() as int) =~= all);
    assert(totals@.take(all.len() as int) =~= totals@);
    rows
}

fn mime_rows(tally: Tally) -> (r: Vec<(String, MimeStats)>)
    requires
        tally.wf(),
    ensures
        tally::sums_up(names_of(r@), mime_totals(r@), tally.history@),
{
    let (names, totals) = tally.finish();
    let mut rows: Vec<(String, MimeStats)> = Vec::with_capacity(names.len());
    let ghost all = names@;
    for name in it: names
        invariant
            it.seq() == all,
            all.len() == totals@.len(),
            names_of(rows@) == all.take(it.index()),
            mime_totals(rows@) == totals@.take(it.index()),
        {
        let ghost before = rows@;
        assert(names_of(before).len() == before.len());
        let i: usize = rows.len();
        let t = totals[i];
        rows.push((name, MimeStats { count: t.count, total_size: t.total_size }));
        assert(names_of(rows@) =~= names_of(before).push(name));
        assert(mime_totals(rows@) =~= mime_totals(before).push(t));
        assert(all.take(i + 1) =~= all.take(i as int).push(name));
        assert(totals@.take(i + 1) =~= totals@.take(i as int).push(t));
    }
    assert(all.take(all.len() as int) =~= all);
    assert(totals@.take(all.len() as int) =~= totals@);
    rows
}

/// What a walk came to.
#[derive(Debug)]
pub struct WalkOutcome {
    pub file_count: usize,
    pub dir_count: usize,
    pub total_size: u64,
    pub largest_files: Vec<Entry>,
    pub by_extension: Vec<(String, ExtensionStats)>,
    pub by_mime: Vec<(String, MimeStats)>,
    pub age_buckets: AgeBuckets,
    pub errors: Vec<(FilePath, Error)>,
    pub errors_total: usize,
    pub duplicate_candidates: Vec<Entry>,
}

/// Whether `outcome` reports what `aggregator` has seen.
pub open spec fn reports(outcome: WalkOutcome, aggregator: Aggregator) -> bool {
    let seen = aggregator.seen@;
    &&& outcome.file_count == seen.len()
    &&& outcome.dir_count == aggregator.dir_count
    &&& outcome.total_size == sizes_sum(seen)
    &&& largest::are_largest(outcome.largest_files@, seen, aggregator.top_n)
    &&& tally::sums_up(
        names_of(outcome.by_extension@),
        extension_totals(outcome.by_extension@),
        by_extension_of(seen),
    )
    &&& tally::sums_up(
        names_of(outcome.by_mime@),
        mime_totals(outcome.by_mime@),
        if aggregator.detect_mime_types {
            by_mime_of(seen, aggregator.mimes@)
        } else {
            Seq::empty()
        },
    )
    &&& forall|age: Age| #[trigger] outcome.age_buckets.at(age) == aged(seen, aggregator.now, age)
    &&& outcome.age_buckets.total() == seen.len()
    &&& outcome.duplicate_candidates@ == if aggregator.collect_duplicate_candidates {
        seen
    } else {
        Seq::empty()
    }
}

impl Aggregator {
    /// What all recorded files come to, beside the failures of the walk.
    pub fn finish(self, errors: Vec<(FilePath, Error)>, errors_total: usize) -> (r: WalkOutcome)
        requires
            self.wf(),
        ensures
            reports(r, self),
            r.errors == errors,
            r.errors_total == errors_total,
    {
        WalkOutcome {
            file_count: self.file_count,
            dir_count: self.dir_count,
            total_size: self.total_size,
            largest_files: self.largest,
            by_extension: extension_rows(self.by_extension),
            by_mime: mime_rows(self.by_mime),
            age_buckets: self.age_buckets,
            errors,
            errors_total,
            duplicate_candidates: self.duplicate_candidates,
        }
    }
}

/// The rows by extension together hold every file once, and so do the ages.
pub proof fn lemma_every_file_is_counted_once(outcome: WalkOutcome, aggregator: Aggregator)
    requires
        reports(outcome, aggregator),
    ensures
        tally::counts_sum(extension_totals(outcome.by_extension@)) == outcome.file_count,
        tally::totals_sum(extension_totals(outcome.by_extension@)) == outcome.total_size,
        outcome.age_buckets.total() == outcome.file_count,
{
    let history = by_extension_of(aggregator.seen@);
    tally::lemma_rows_hold_everything(
        names_of(outcome.by_extension@),
        extension_totals(outcome.by_extension@),
        history,
    );
    lemma_history_sizes(aggregator.seen@, history);
}

/// Maps a failure of the walk to the engine's error. One that is no I/O failure is a cycle
/// of symbolic links.
pub fn classify_walk_error(failure: Option<IoFailure>, path: Option<FilePath>) -> (r: Error)
    ensures
        error::is_walk_error(r, failure, path, "directory walk error"@),
{
    error::classify_walk_failure(failure, path, "directory walk error")
}

/// Whether the walk goes on into a path that it met at that depth.
pub open spec fn goes_into(
    excludes: Option<&globset::GlobSet>,
    depth: usize,
    path: FilePath,
    root: FilePath,
) -> bool {
    depth == 0 || !globs::excludes(excludes, paths::relative_text(path, root))
}

/// Whether the walk goes on into `path`, which it met at that depth: the root is never
/// excluded, and anything else is where an exclude pattern matches its path from the root
/// on.
pub fn keeps_child(
    excludes: Option<&globset::GlobSet>,
    depth: usize,
    path: &FilePath,
    root: &FilePath,
) -> (r: bool)
    ensures
        r == goes_into(excludes, depth, *path, *root),
{
    if depth == 0 {
        return true;
    }
    let relative = path.relative_to(root);
    !globs::is_excluded(excludes, &relative)
}

/// What a walk meets.
#[derive(Debug)]
pub enum WalkItem {
    /// The walk could not go on at some place.
    Failed { error: Error },
    Directory,
    /// A file, and its size and modification time where they could be read.
    File { path: FilePath, metadata: Result<(u64, Option<Timestamp>), Error> },
    /// Neither: a symbolic link that is not followed.
    Other,
}

/// A walk over a tree.
pub struct Walk {
    pub params: WalkParams,
    pub aggregator: Aggregator,
    pub errors: Vec<(FilePath, Error)>,
    pub errors_total: usize,
}

/// The entry that a file of the tree stands for.
pub open spec fn is_entry_of(
    entry: Entry,
    path: FilePath,
    root: FilePath,
    size: u64,
    modified: Option<Timestamp>,
) -> bool {
    &&& entry.path == path
    &&& entry.relative_path.text@ == paths::relative_text(path, root)
    &&& entry.size == size
    &&& entry.modified == modified
}

/// Whether `r` is the entry of a root that is itself a file, where it matches the filter.
pub open spec fn is_root_entry(
    r: Option<Entry>,
    params: WalkParams,
    size: u64,
    modified: Option<Timestamp>,
) -> bool {
    exists|relative: FilePath|
        #![trigger params.filter.passes(relative, size, modified)]
        relative.text@ == (match paths::last_name(params.root@) {
            Some(name) => name,
            None => params.root.text@,
        }) && r == if params.filter.passes(relative, size, modified) {
            Some(Entry { path: params.root, relative_path: relative, size, modified })
        } else {
            None
        }
}

/// Whether an item is a file that counts toward the report: a first walk that only counts
/// goes by the same filter as the walk that records.
pub open spec fn is_counted(params: WalkParams, item: WalkItem) -> bool {
    match item {
        WalkItem::File { path, metadata: Ok((size, modified)) } => exists|entry: Entry| #[trigger]
            is_entry_of(entry, path, params.root, size, modified) && params.filter.passes(
                entry.relative_path,
                size,
                modified,
            ),
        _ => false,
    }
}

/// Whether an item is a file that counts toward the report.
pub fn counts(params: &WalkParams, item: &WalkItem) -> (r: bool)
    ensures
        r == is_counted(*params, *item),
{
    match item {
        WalkItem::File { path, metadata: Ok((size, modified)) } => {
            let relative_path = path.relative_to(&params.root);
            let ghost entry = Entry {
                path: *path,
                relative_path,
                size: *size,
                modified: *modified,
            };
            proof {
                assert(is_entry_of(entry, *path, params.root, *size, *modified));
                assert forall|other: Entry| #[trigger]
                    is_entry_of(other, *path, params.root, *size, *modified) implies
                    other.relative_path@ == entry.relative_path@ by {
                    assert(other.relative_path.text@ == entry.relative_path.text@);
                }
            }
            params.filter.matches(&relative_path, *size, *modified)
        },
        _ => false,
    }
}

impl Walk {
    pub open spec fn wf(self) -> bool {
        &&& self.aggregator.wf()
        &&& self.errors@.len() == if self.errors_total < self.params.max_reported_errors {
            self.errors_total
        } else {
            self.params.max_reported_errors
        }
    }

    /// A walk that has met nothing yet.
    pub fn new(params: WalkParams, now: Timestamp) -> (r: Walk)
        ensures
            r.wf(),
            r.params == params,
            r.aggregator.now == now,
            r.aggregator.top_n == params.top_n_largest,
            r.aggregator.detect_mime_types == params.detect_mime_types,
            r.aggregator.collect_duplicate_candidates == params.collect_duplicate_candidates,
            r.aggregator.dir_count == 0,
            r.aggregator.seen@ == Seq::<Entry>::empty(),
            r.errors_total == 0,
    {
        let aggregator = Aggregator::new(&params, now);
        Walk { params, aggregator, errors: Vec::new(), errors_total: 0 }
    }

    /// Whether a failure on `path` was taken in: it ends the walk, or it is counted, and
    /// listed where there is room for it.
    pub open spec fn failure_taken(
        self,
        before: Walk,
        path: Seq<char>,
        error: Error,
        result: Result<Option<Entry>, Error>,
    ) -> bool {
        &&& self.params == before.params
        &&& self.aggregator == before.aggregator
        &&& if before.params.error_strategy == AnalysisErrorStrategy::AbortOnError {
            &&& result == Err::<Option<Entry>, Error>(error)
            &&& self == before
        } else {
            &&& result == Ok::<Option<Entry>, Error>(None)
            &&& self.errors_total == before.errors_total + 1
            &&& if before.errors_total < before.params.max_reported_errors {
                &&& self.errors@.drop_last() == before.errors@
                &&& self.errors@.last().0.text@ == path
                &&& self.errors@.last().1 == error
            } else {
                self.errors == before.errors
            }
        }
    }

    fn take_failure(&mut self, path: FilePath, error: Error) -> (r: Result<Option<Entry>, Error>)
        requires
            old(self).wf(),
            old(self).errors_total < usize::MAX,
        ensures
            final(self).wf(),
            final(self).failure_taken(*old(self), path.text@, error, r),
    {
        match self.params.error_strategy {
            AnalysisErrorStrategy::AbortOnError => Err(error),
            AnalysisErrorStrategy::ContinueAndCollect => {
                self.errors_total = self.errors_total + 1;
                if self.errors.len() < self.params.max_reported_errors {
                    self.errors.push((path, error));
                    assert(self.errors@.drop_last() =~= old(self).errors@);
                }
                Ok(None)
            },
        }
    }

    /// Takes in what the walk meets next. A file that matches the filter is handed out, to
    /// be recorded; everything else is dealt with here.
    pub fn visit(&mut self, cancelled: bool, item: WalkItem) -> (r: Result<Option<Entry>, Error>)
        requires
            old(self).wf(),
            old(self).errors_total < usize::MAX,
            old(self).aggregator.dir_count < usize::MAX,
        ensures
            final(self).wf(),
            cancelled ==> r is Err,
            !cancelled ==> ((r is Ok && r->Ok_0 is Some) <==> is_counted(old(self).params, item)),
            final(self).aggregator.seen@ == old(self).aggregator.seen@,
            final(self).aggregator.dir_count == old(self).aggregator.dir_count + if !cancelled
                && item is Directory {
                1int
            } else {
                0
            },
            final(self).params == old(self).params,
            !cancelled && r is Err ==> old(self).params.error_strategy
                == AnalysisErrorStrategy::AbortOnError,
            if cancelled {
                r == Err::<Option<Entry>, Error>(Error::Cancelled) && *final(self) == *old(self)
            } else {
                match item {
                    WalkItem::Failed { error } => final(self).failure_taken(
                        *old(self),
                        error::error_path(error),
                        error,
                        r,
                    ),
                    WalkItem::Directory => {
                        &&& r == Ok::<Option<Entry>, Error>(None)
                        &&& *final(self) == (Walk {
                            aggregator: (Aggregator {
                                dir_count: (old(self).aggregator.dir_count + 1) as usize,
                                ..old(self).aggregator
                            }),
                            ..*old(self)
                        })
                    },
                    WalkItem::Other => r == Ok::<Option<Entry>, Error>(None) && *final(self)
                        == *old(self),
                    WalkItem::File { path, metadata: Err(error) } => final(self).failure_taken(
                        *old(self),
                        path.text@,
                        error,
                        r,
                    ),
                    WalkItem::File { path, metadata: Ok((size, modified)) } => {
                        &&& *final(self) == *old(self)
                        &&& r is Ok
                        &&& exists|entry: Entry| #[trigger]
                            is_entry_of(entry, path, old(self).params.root, size, modified)
                                && r->Ok_0 == if old(self).params.filter.passes(
                                entry.relative_path,
                                size,
                                modified,
                            ) {
                                Some(entry)
                            } else {
                                None
                            }
                    },
                }
            },
    {
        if cancelled {
            return Err(Error::Cancelled);
        }
        match item {
            WalkItem::Failed { error } => {
                let path = error.err_path();
                self.take_failure(path, error)
            },
            WalkItem::Directory => {
                self.aggregator.dir_count = self.aggregator.dir_count + 1;
                Ok(None)
            },
            WalkItem::Other => Ok(None),
            WalkItem::File { path, metadata } => match metadata {
                Err(error) => self.take_failure(path, error),
                Ok((size, modified)) => {
                    let relative_path = path.relative_to(&self.params.root);
                    let entry = Entry { path, relative_path, size, modified };
                    proof {
                        assert(is_entry_of(entry, path, self.params.root, size, modified));
                        assert forall|other: Entry| #[trigger]
                            is_entry_of(other, path, self.params.root, size, modified) implies
                            other.relative_path@ == entry.relative_path@ by {
                            assert(other.relative_path.text@ == entry.relative_path.text@);
                        }
                    }
                    if self.params.filter.matches(&entry.relative_path, size, modified) {
                        Ok(Some(entry))
                    } else {
                        Ok(None)
                    }
                },
            },
        }
    }

    /// The entry of a root that is itself a file, where it matches the filter. Exclude
    /// patterns do not apply to it.
    pub fn root_entry(&self, size: u64, modified: Option<Timestamp>) -> (r: Option<Entry>)
        ensures
            is_root_entry(r, self.params, size, modified),
    {
        let relative_path = match self.params.root.file_name() {
            Some(name) => FilePath { text: name },
            None => self.params.root.clone(),
        };
        if self.params.filter.matches(&relative_path, size, modified) {
            Some(Entry { path: self.params.root.clone(), relative_path, size, modified })
        } else {
            None
        }
    }

    /// Records a file that `visit` or `root_entry` handed out.
    pub fn record(&mut self, entry: Entry, header: &Option<Vec<u8>>)
        requires
            old(self).wf(),
            old(self).aggregator.can_take(entry.size),
        ensures
            final(self).wf(),
            final(self).params == old(self).params,
            final(self).errors == old(self).errors,
            final(self).errors_total == old(self).errors_total,
            final(self).aggregator.same_settings(old(self).aggregator),
            final(self).aggregator.dir_count == old(self).aggregator.dir_count,
            final(self).aggregator.seen@ == old(self).aggregator.seen@.push(entry),
            final(self).aggregator.mimes@ == old(self).aggregator.mimes@.push(
                if old(self).aggregator.detect_mime_types {
                    mime_name(
                        match *header {
                            Some(bytes) => Some(bytes@),
                            None => None,
                        },
                    )
                } else {
                    Seq::empty()
                },
            ),
    {
        self.aggregator.record(entry, header);
    }

    /// What the walk came to.
    pub fn finish(self) -> (r: WalkOutcome)
        requires
            self.wf(),
        ensures
            reports(r, self.aggregator),
            r.errors == self.errors,
            r.errors_total == self.errors_total,
    {
        self.aggregator.finish(self.errors, self.errors_total)
    }
}

/// The root is walked whatever the patterns are; below it exactly what no pattern matches is,
/// and everything where there are none.
pub proof fn lemma_only_excluded_paths_are_left_out(
    set: globset::GlobSet,
    depth: usize,
    path: FilePath,
    root: FilePath,
)
    ensures
        goes_into(Some(&set), 0, path, root),
        goes_into(None, depth, path, root),
        depth > 0 ==> (goes_into(Some(&set), depth, path, root) <==> forall|i: int|
            0 <= i < globs::patterns_of(set).len() ==> !globs::glob_matches(
                #[trigger] globs::patterns_of(set)[i],
                os_text::bytes_of(paths::relative_text(path, root)),
            )),
{
}

/// A file counts if and only if it could be looked at and the filter lets its path from the
/// root on, its size and its time pass; nothing but a file ever counts.
pub proof fn lemma_only_matching_files_count(
    params: WalkParams,
    path: FilePath,
    size: u64,
    modified: Option<Timestamp>,
    entry: Entry,
    error: Error,
)
    requires
        entry.path == path,
        entry.relative_path.text@ == paths::relative_text(path, params.root),
        entry.size == size,
        entry.modified == modified,
    ensures
        is_counted(params, WalkItem::File { path, metadata: Ok((size, modified)) })
            <==> params.filter.passes(entry.relative_path, size, modified),
        !is_counted(params, WalkItem::File { path, metadata: Err(error) }),
        !is_counted(params, WalkItem::Directory),
        !is_counted(params, WalkItem::Other),
        !is_counted(params, WalkItem::Failed { error }),
        params.filter.min_size matches Some(low) && size < low ==> !is_counted(
            params,
            WalkItem::File { path, metadata: Ok((size, modified)) },
        ),
        params.filter.max_size matches Some(high) && size > high ==> !is_counted(
            params,
            WalkItem::File { path, metadata: Ok((size, modified)) },
        ),
{
    assert(is_entry_of(entry, path, params.root, size, modified));
    let item = WalkItem::File { path, metadata: Ok((size, modified)) };
    if is_counted(params, item) {
        let other = choose|other: Entry| #[trigger]
            is_entry_of(other, path, params.root, size, modified) && params.filter.passes(
                other.relative_path,
                size,
                modified,
            );
        assert(other.relative_path.text@ == entry.relative_path.text@);
        assert(other.relative_path@ == entry.relative_path@);
        assert(params.filter.passes(entry.relative_path, size, modified));
    }
    if params.filter.passes(entry.relative_path, size, modified) {
        assert(exists|other: Entry| #[trigger]
            is_entry_of(other, path, params.root, size, modified) && params.filter.passes(
                other.relative_path,
                size,
                modified,
            ));
        match item {
            WalkItem::File { path: p, metadata: Ok((s, m)) } => {
                assert(is_entry_of(entry, p, params.root, s, m));
                assert(params.filter.passes(entry.relative_path, s, m));
            },
            _ => {},
        }
        assert(is_counted(params, item));
    }
}

/// Files are listed under one name if and only if their extensions are the same but for the
/// case of ASCII letters, and under no name where they have none.
pub proof fn lemma_extensions_are_listed_without_case(a: Entry, b: Entry)
    ensures
        paths::unicode_extension_of(a.relative_path@) is None ==> extension_name(a) == Seq::<
            char,
        >::empty(),
        paths::unicode_extension_of(a.relative_path@) is Some && paths::unicode_extension_of(
            b.relative_path@,
        ) is Some ==> (extension_name(a) == extension_name(b) <==> text::lowered(
            paths::unicode_extension_of(a.relative_path@)->0,
        ) == text::lowered(paths::unicode_extension_of(b.relative_path@)->0)),
        paths::unicode_extension_of(a.relative_path@) matches Some(ext) ==> extension_name(a).len()
            == ext.len(),
{
}

/// A file whose beginning tells a media type is listed under it, and any other as unknown.
pub proof fn lemma_media_type_is_what_the_header_tells(header: Seq<u8>)
    ensures
        mime_of(header) matches Some(mime) ==> mime_name(Some(header)) == mime,
        mime_of(header) is None ==> mime_name(Some(header)) == mime_name(None),
        mime_name(None) == "unknown"@,
{
}

/// The sizes of two lists add up, and the ages of the files in them do.
pub proof fn lemma_counts_add_up(a: Seq<Entry>, b: Seq<Entry>, now: Timestamp, age: Age)
    ensures
        sizes_sum(a + b) == sizes_sum(a) + sizes_sum(b),
        aged(a + b, now, age) == aged(a, now, age) + aged(b, now, age),
        a.len() == 1 ==> sizes_sum(a) == a[0].size,
        a.len() == 1 ==> aged(a, now, age) == if report::age_at(now, a[0].modified) == age {
            1nat
        } else {
            0nat
        },
    decreases b.len(),
{
    reveal_with_fuel(sizes_sum, 2);
    reveal_with_fuel(aged, 2);
    if b.len() == 0 {
        assert(a + b =~= a);
    } else {
        lemma_counts_add_up(a, b.drop_last(), now, age);
        assert((a + b).drop_last() =~= a + b.drop_last());
    }
    if a.len() == 1 {
        assert(a.drop_last() =~= Seq::<Entry>::empty());
    }
}

/// A failure ends the walk where it is to be aborted, and is never lost where it goes on: it
/// is counted in any case, and listed as long as there is room.
pub proof fn lemma_failure_is_counted_or_ends_the_walk(
    before: Walk,
    after: Walk,
    path: Seq<char>,
    error: Error,
    result: Result<Option<Entry>, Error>,
)
    requires
        after.failure_taken(before, path, error, result),
    ensures
        before.params.error_strategy == AnalysisErrorStrategy::AbortOnError <==> result is Err,
        result is Err ==> result->Err_0 == error && after == before,
        result is Ok ==> after.errors_total == before.errors_total + 1 && result->Ok_0 is None,
        result is Ok && before.wf() && before.errors_total < before.params.max_reported_errors
            ==> after.errors@.last().1 == error && after.errors@.last().0.text@ == path,
        after.aggregator == before.aggregator,
{
}

/// An entry is the file as it was met: its path, its size, its time, and its path from the
/// root on.
pub proof fn lemma_entry_is_the_file_as_met(
    entry: Entry,
    path: FilePath,
    root: FilePath,
    size: u64,
    modified: Option<Timestamp>,
)
    requires
        is_entry_of(entry, path, root, size, modified),
    ensures
        entry.path == path,
        entry.size == size,
        entry.modified == modified,
        entry.relative_path.text@ == paths::relative_text(path, root),
{
}

/// A report counts every file that was seen once, in the sum of the sizes and in one field of
/// the ages, and every directory. Files are candidates for duplicates only where these are
/// asked for.
pub proof fn lemma_report_counts_what_was_seen(
    outcome: WalkOutcome,
    aggregator: Aggregator,
    age: Age,
)
    requires
        reports(outcome, aggregator),
    ensures
        outcome.file_count == aggregator.seen@.len(),
        outcome.dir_count == aggregator.dir_count,
        outcome.total_size == sizes_sum(aggregator.seen@),
        outcome.age_buckets.at(age) == aged(aggregator.seen@, aggregator.now, age),
        outcome.age_buckets.total() == outcome.file_count,
        aggregator.collect_duplicate_candidates ==> outcome.duplicate_candidates@
            == aggregator.seen@,
        !aggregator.collect_duplicate_candidates ==> outcome.duplicate_candidates@.len() == 0,
{
}

/// What a walk was asked for stays as it was, whatever it comes to.
pub proof fn lemma_settings_stay(before: Aggregator, after: Aggregator)
    requires
        after.same_settings(before),
    ensures
        after.now == before.now,
        after.top_n == before.top_n,
        after.detect_mime_types == before.detect_mime_types,
        after.collect_duplicate_candidates == before.collect_duplicate_candidates,
{
}

/// A root that is a file is filtered as any other file is: it counts as it is on disk, never
/// where its size or its time misses a bound, and always where nothing is asked of it.
pub proof fn lemma_root_file_is_filtered_too(
    r: Option<Entry>,
    params: WalkParams,
    size: u64,
    modified: Option<Timestamp>,
)
    requires
        is_root_entry(r, params, size, modified),
    ensures
        r matches Some(entry) ==> entry.path == params.root && entry.size == size && entry.modified
            == modified,
        params.filter.min_size is Some && size < params.filter.min_size->0 ==> r is None,
        params.filter.max_size is Some && size > params.filter.max_size->0 ==> r is None,
        (params.filter.modified_after is Some || params.filter.modified_before is Some)
            && modified is None ==> r is None,
        params.filter.extensions is None && params.filter.min_size is None && params.filter.max_size
            is None && params.filter.modified_after is None && params.filter.modified_before is None
            ==> r is Some,
{
}

} // verus!

use vstd::prelude::*;
use vstd::string::*;

use crate::paths;
use crate::paths::{FilePath, PathModel};
use crate::profiler::Timestamp;
use crate::text;

verus! {

/// Whether one of `list` is `extension`, but for the case of ASCII letters.
pub open spec fn names_extension(list: Seq<Seq<char>>, extension: Seq<char>) -> bool {
    exists|i: int| 0 <= i < list.len() && text::lowered(#[trigger] list[i]) == text::lowered(extension)
}

/// Whether the extension of a path is one of those asked for. Where none is asked for,
/// every path will do; where some are, one without an extension, or with one that is no
/// Unicode, will not.
pub open spec fn extension_passes(extensions: Option<Vec<String>>, path: PathModel) -> bool {
    match extensions {
        None => true,
        Some(list) => match paths::unicode_extension_of(path) {
            None => false,
            Some(extension) => names_extension(text::texts(list@), extension),
        },
    }
}

/// Whether a size lies between the two bounds that are set, both included.
pub open spec fn size_passes(min: Option<u64>, max: Option<u64>, size: u64) -> bool {
    &&& min matches Some(min) ==> min <= size
    &&& max matches Some(max) ==> size <= max
}

/// Whether a modification time lies between the two bounds that are set, both included. An
/// unknown time lies in no bounds.
pub open spec fn time_passes(
    after: Option<Timestamp>,
    before: Option<Timestamp>,
    modified: Option<Timestamp>,
) -> bool {
    &&& after matches Some(after) ==> (modified matches Some(m) && m.at() >= after.at())
    &&& before matches Some(before) ==> (modified matches Some(m) && m.at() <= before.at())
}

/// Whether the extension of `path` is one of those asked for.
pub fn check_extension(extensions: &Option<Vec<String>>, path: &FilePath) -> (r: bool)
    ensures
        r == extension_passes(*extensions, path@),
{
    let list = match extensions {
        None => {
            return true;
        },
        Some(list) => list,
    };
    let extension = match path.unicode_extension() {
        None => {
            return false;
        },
        Some(extension) => extension,
    };
    let wanted = text::to_lower(extension.as_str());
    let ghost all = text::texts(list@);
    let mut i: usize = 0;
    while i < list.len()
        invariant
            i <= list@.len(),
            all == text::texts(list@),
            *extensions == Some(*list),
            paths::unicode_extension_of(path@) == Some(extension@),
            wanted@ == text::lowered(extension@),
            forall|j: int| 0 <= j < i ==> text::lowered(#[trigger] all[j]) != wanted@,
        decreases list@.len() - i,
    {
        let candidate = text::to_lower(list[i].as_str());
        assert(all[i as int] == list@[i as int]@);
        if text::same(candidate.as_str(), wanted.as_str()) {
            assert(names_extension(all, extension@));
            return true;
        }
        i = i + 1;
    }
    false
}

/// Whether `size` lies between the two bounds that are set, both included.
pub fn check_size(min: Option<u64>, max: Option<u64>, size: u64) -> (r: bool)
    ensures
        r == size_passes(min, max, size),
{
    let above = match min {
        Some(min) => min <= size,
        None => true,
    };
    let below = match max {
        Some(max) => size <= max,
        None => true,
    };
    above && below
}

/// Whether `modified` lies between the two bounds that are set, both included.
pub fn check_time(
    after: Option<Timestamp>,
    before: Option<Timestamp>,
    modified: Option<Timestamp>,
) -> (r: bool)
    ensures
        r == time_passes(after, before, modified),
{
    let late_enough = match (after, modified) {
        (None, _) => true,
        (Some(_), None) => false,
        (Some(after), Some(m)) => m.as_nanos() >= after.as_nanos(),
    };
    let early_enough = match (before, modified) {
        (None, _) => true,
        (Some(_), None) => false,
        (Some(before), Some(m)) => m.as_nanos() <= before.as_nanos(),
    };
    late_enough && early_enough
}

/// The case of ASCII letters in an extension does not matter.
pub proof fn lemma_extension_case_is_ignored(
    list: Seq<Seq<char>>,
    extension: Seq<char>,
    other: Seq<char>,
)
    requires
        text::lowered(extension) == text::lowered(other),
    ensures
        names_extension(list, extension) == names_extension(list, other),
{
}

/// A file whose modification time is not known passes no bound on it.
pub proof fn lemma_unknown_time_passes_no_bound(
    after: Option<Timestamp>,
    before: Option<Timestamp>,
)
    ensures
        time_passes(after, before, None) == (after is None && before is None),
{
}

/// A file outside a bound on its size does not pass, whatever the other bound is; one inside
/// every bound that is set passes, the bounds themselves included.
pub proof fn lemma_size_bounds_hold_each_alone(min: Option<u64>, max: Option<u64>, size: u64)
    ensures
        size_passes(min, max, size) <==> size_passes(min, None, size) && size_passes(
            None,
            max,
            size,
        ),
        min matches Some(low) && size < low ==> !size_passes(min, max, size),
        max matches Some(high) && high < size ==> !size_passes(min, max, size),
        min matches Some(low) && low <= size ==> size_passes(min, None, size),
        max matches Some(high) && size <= high ==> size_passes(None, max, size),
        size_passes(None, None, size),
{
}

/// Where two sizes pass, every size between them does.
pub proof fn lemma_sizes_between_pass(
    min: Option<u64>,
    max: Option<u64>,
    low: u64,
    size: u64,
    high: u64,
)
    requires
        low <= size <= high,
        size_passes(min, max, low),
        size_passes(min, max, high),
    ensures
        size_passes(min, max, size),
{
}

/// A file passes both bounds on its modification time if and only if it passes each of them
/// alone: one that is too early or too late does not pass, whatever the other bound is, and
/// the bounds themselves are included.
pub proof fn lemma_time_bounds_hold_each_alone(
    after: Option<Timestamp>,
    before: Option<Timestamp>,
    modified: Option<Timestamp>,
)
    ensures
        time_passes(after, before, modified) <==> time_passes(after, None, modified)
            && time_passes(None, before, modified),
        after matches Some(bound) && modified matches Some(m) && m.at() < bound.at()
            ==> !time_passes(after, before, modified),
        before matches Some(bound) && modified matches Some(m) && m.at() > bound.at()
            ==> !time_passes(after, before, modified),
        after matches Some(bound) && modified matches Some(m) && m.at() >= bound.at()
            ==> time_passes(after, None, modified),
        before matches Some(bound) && modified matches Some(m) && m.at() <= bound.at()
            ==> time_passes(None, before, modified),
        time_passes(None, None, modified),
{
}

/// Where a file passes, every file that was modified between the lower bound and its own
/// time, or between its own time and the upper bound, passes too: only the order of the
/// times matters.
pub proof fn lemma_times_between_pass(
    after: Option<Timestamp>,
    before: Option<Timestamp>,
    early: Timestamp,
    m: Timestamp,
    late: Timestamp,
)
    requires
        early.at() <= m.at() <= late.at(),
        time_passes(after, before, Some(early)),
        time_passes(after, before, Some(late)),
    ensures
        time_passes(after, before, Some(m)),
{
}

/// Where extensions are asked for, a file passes if and only if its own is one of them: one
/// without an extension never does, and no extension at all is asked for by an empty list.
pub proof fn lemma_extension_passes_where_it_is_listed(list: Vec<String>, path: PathModel)
    ensures
        paths::unicode_extension_of(path) is None ==> !extension_passes(Some(list), path),
        list@.len() == 0 ==> !extension_passes(Some(list), path),
        forall|i: int|
            0 <= i < list@.len() && paths::unicode_extension_of(path) == Some(
                (#[trigger] list@[i])@,
            ) ==> extension_passes(Some(list), path),
        extension_passes(Some(list), path) ==> exists|i: int|
            0 <= i < list@.len() && text::lowered((#[trigger] list@[i])@) == text::lowered(
                paths::unicode_extension_of(path)->0,
            ),
        extension_passes(None, path),
{
    let all = text::texts(list@);
    assert forall|i: int|
        0 <= i < list@.len() && paths::unicode_extension_of(path) == Some(
            (#[trigger] list@[i])@,
        ) implies extension_passes(Some(list), path) by {
        assert(all[i] == list@[i]@);
    }
    if extension_passes(Some(list), path) {
        let extension = paths::unicode_extension_of(path)->0;
        let i = choose|i: int|
            0 <= i < all.len() && text::lowered(#[trigger] all[i]) == text::lowered(extension);
        assert(list@[i]@ == all[i]);
    }
}

/// More extensions let more files pass, never fewer.
pub proof fn lemma_more_extensions_pass_more(
    fewer: Vec<String>,
    more: Vec<String>,
    path: PathModel,
)
    requires
        forall|i: int|
            0 <= i < fewer@.len() ==> text::texts(more@).contains((#[trigger] fewer@[i])@),
        extension_passes(Some(fewer), path),
    ensures
        extension_passes(Some(more), path),
{
    let extension = paths::unicode_extension_of(path)->0;
    let a = text::texts(fewer@);
    let b = text::texts(more@);
    let i = choose|i: int|
        0 <= i < a.len() && text::lowered(#[trigger] a[i]) == text::lowered(extension);
    assert(b.contains(fewer@[i]@));
    let j = choose|j: int| 0 <= j < b.len() && b[j] == fewer@[i]@;
    assert(text::lowered(b[j]) == text::lowered(extension));
}

} // verus!

use vstd::prelude::*;
use vstd::string::*;

use crate::error::Error;
use crate::os_text;
use crate::paths::FilePath;
use crate::text;

verus! {

/// `globset::Glob`, one parsed pattern.
#[verifier::external_type_specification]
#[verifier::external_body]
pub struct ExGlob(globset::Glob);

/// `globset::GlobSetBuilder`, the patterns of a set that is not built yet.
#[verifier::external_type_specification]
#[verifier::external_body]
pub struct ExGlobSetBuilder(globset::GlobSetBuilder);

/// `globset::GlobSet`, patterns that a path is matched against all at once.
#[verifier::external_type_specification]
#[verifier::external_body]
pub struct ExGlobSet(globset::GlobSet);

/// What is wrong with a pattern, or `None` where it can be parsed.
pub uninterp spec fn glob_error(pattern: Seq<char>) -> Option<Seq<char>>;

/// Why patterns that can be parsed cannot be built into one set, or `None` where they
/// can.
pub uninterp spec fn glob_set_error(patterns: Seq<Seq<char>>) -> Option<Seq<char>>;

/// The pattern that a glob was parsed from.
pub uninterp spec fn pattern_of(glob: globset::Glob) -> Seq<char>;

/// The patterns that were added to a builder, in order.
pub uninterp spec fn patterns_in(builder: globset::GlobSetBuilder) -> Seq<Seq<char>>;

/// The patterns of a set.
pub uninterp spec fn patterns_of(set: globset::GlobSet) -> Seq<Seq<char>>;

/// Whether a path, as the bytes that a file system holds, matches a pattern.
pub uninterp spec fn glob_matches(pattern: Seq<char>, path: Seq<u8>) -> bool;

/// `globset::Glob::new`: parses `pattern`. Whether it fails, and what the error says, is
/// named `glob_error`. A backslash separates names on Windows and escapes elsewhere: what
/// is named here is what the platform has that the crate is built for.
#[verifier::external_body]
fn glob_new(pattern: &str) -> (r: Result<globset::Glob, String>)
    ensures
        match r {
            Ok(glob) => glob_error(pattern@) is None && pattern_of(glob) == pattern@,
            Err(message) => glob_error(pattern@) == Some(message@),
        },
{
    match globset::Glob::new(pattern) {
        Ok(glob) => Ok(glob),
        Err(error) => Err(error.to_string()),
    }
}

/// `globset::GlobSetBuilder::new`: a builder without patterns.
#[verifier::external_body]
fn builder_new() -> (r: globset::GlobSetBuilder)
    ensures
        patterns_in(r) == Seq::<Seq<char>>::empty(),
{
    globset::GlobSetBuilder::new()
}

/// `globset::GlobSetBuilder::add`: adds a pattern behind the others.
#[verifier::external_body]
fn builder_add(builder: &mut globset::GlobSetBuilder, glob: globset::Glob)
    ensures
        patterns_in(*final(builder)) == patterns_in(*old(builder)).push(pattern_of(glob)),
{
    builder.add(glob);
}

/// `globset::GlobSetBuilder::build`: a set of all patterns that were added. Whether it
/// fails, and what the error says, is named `glob_set_error`.
#[verifier::external_body]
fn builder_build(builder: &globset::GlobSetBuilder) -> (r: Result<globset::GlobSet, String>)
    ensures
        match r {
            Ok(set) => glob_set_error(patterns_in(*builder)) is None && patterns_of(set)
                == patterns_in(*builder),
            Err(message) => glob_set_error(patterns_in(*builder)) == Some(message@),
        },
{
    match builder.build() {
        Ok(set) => Ok(set),
        Err(error) => Err(error.to_string()),
    }
}

/// `globset::GlobSet::is_match_candidate`: whether any pattern of the set matches the path,
/// given by its bytes (`globset::Candidate::from_bytes`). What it takes for a match is named
/// `glob_matches`, on the platform that the crate is built for.
#[verifier::external_body]
fn set_is_match(set: &globset::GlobSet, path: &[u8]) -> (r: bool)
    ensures
        r == (exists|i: int|
            0 <= i < patterns_of(*set).len() && glob_matches(
                #[trigger] patterns_of(*set)[i],
                path@,
            )),
{
    set.is_match_candidate(&globset::Candidate::from_bytes(path))
}

/// Whether any of the patterns matches a path.
pub open spec fn matches_any(patterns: Seq<Seq<char>>, path: Seq<u8>) -> bool {
    exists|i: int| 0 <= i < patterns.len() && glob_matches(#[trigger] patterns[i], path)
}

/// Whether a set that may be missing excludes a path.
pub open spec fn excludes(set: Option<&globset::GlobSet>, path: Seq<char>) -> bool {
    match set {
        Some(set) => matches_any(patterns_of(*set), os_text::bytes_of(path)),
        None => false,
    }
}

/// Whether a set that may be missing excludes a path: a missing one excludes nothing.
pub fn is_excluded(set: Option<&globset::GlobSet>, path: &FilePath) -> (r: bool)
    ensures
        r == excludes(set, path.text@),
{
    match set {
        Some(set) => set_is_match(set, path.to_bytes().as_slice()),
        None => false,
    }
}

/// `texts` with a comma and a space between them.
pub open spec fn comma_separated(texts: Seq<Seq<char>>) -> Seq<char>
    decreases texts.len(),
{
    if texts.len() == 0 {
        Seq::empty()
    } else if texts.len() == 1 {
        texts[0]
    } else {
        comma_separated(texts.drop_last()) + ", "@ + texts.last()
    }
}

/// `list` with a comma and a space between its texts.
pub fn join_with_commas(list: &Vec<String>) -> (r: String)
    ensures
        r@ == comma_separated(text::texts(list@)),
{
    let mut out: String = String::new();
    let ghost all = text::texts(list@);
    assert(all.take(0) =~= Seq::<Seq<char>>::empty());
    let mut i: usize = 0;
    while i < list.len()
        invariant
            i <= list@.len(),
            all == text::texts(list@),
            out@ == comma_separated(all.take(i as int)),
        decreases list@.len() - i,
    {
        assert(all.take(i + 1).drop_last() =~= all.take(i as int));
        assert(all.take(i + 1).last() == list@[i as int]@);
        if i == 0 {
            out = list[i].clone();
        } else {
            out = text::extend(out, ", ");
            out = text::extend(out, list[i].as_str());
        }
        i = i + 1;
    }
    assert(all.take(all.len() as int) =~= all);
    out
}

/// Whether the pattern at `i` is the first that cannot be parsed.
pub open spec fn is_first_bad(patterns: Seq<Seq<char>>, i: int) -> bool {
    &&& 0 <= i < patterns.len()
    &&& glob_error(patterns[i]) is Some
    &&& forall|j: int| 0 <= j < i ==> glob_error(#[trigger] patterns[j]) is None
}

/// Whether all patterns can be parsed.
pub open spec fn all_valid(patterns: Seq<Seq<char>>) -> bool {
    forall|i: int| 0 <= i < patterns.len() ==> glob_error(#[trigger] patterns[i]) is None
}

/// Whether `result` is what the patterns compile to. Without patterns there is no set. The
/// first pattern that cannot be parsed is reported alone; where all can be parsed but not
/// built into one set, they are reported together.
pub open spec fn compiles_to(
    patterns: Seq<Seq<char>>,
    result: Result<Option<globset::GlobSet>, Error>,
) -> bool {
    match result {
        Ok(None) => patterns.len() == 0,
        Ok(Some(set)) => {
            &&& patterns.len() > 0
            &&& all_valid(patterns)
            &&& glob_set_error(patterns) is None
            &&& patterns_of(set) == patterns
        },
        Err(Error::InvalidGlobPattern { pattern, source }) => {
            ||| exists|i: int| #[trigger]
                is_first_bad(patterns, i) && pattern@ == patterns[i] && glob_error(patterns[i])
                    == Some(source@)
            ||| {
                &&& patterns.len() > 0
                &&& all_valid(patterns)
                &&& pattern@ == comma_separated(patterns)
                &&& glob_set_error(patterns) == Some(source@)
            }
        },
        Err(_) => false,
    }
}

/// Compiles patterns, once for all the paths that are matched against them.
pub fn compile(patterns: &Vec<String>) -> (r: Result<Option<globset::GlobSet>, Error>)
    ensures
        compiles_to(text::texts(patterns@), r),
{
    let ghost all = text::texts(patterns@);
    if patterns.len() == 0 {
        return Ok(None);
    }
    let mut builder = builder_new();
    let mut i: usize = 0;
    assert(all.take(0) =~= Seq::<Seq<char>>::empty());
    while i < patterns.len()
        invariant
            i <= patterns@.len(),
            all == text::texts(patterns@),
            patterns_in(builder) == all.take(i as int),
            forall|j: int| 0 <= j < i ==> glob_error(#[trigger] all[j]) is None,
        decreases patterns@.len() - i,
    {
        match glob_new(patterns[i].as_str()) {
            Ok(glob) => {
                builder_add(&mut builder, glob);
                assert(all.take(i + 1) =~= all.take(i as int).push(all[i as int]));
            },
            Err(source) => {
                assert(is_first_bad(all, i as int));
                return Err(Error::InvalidGlobPattern { pattern: patterns[i].clone(), source });
            },
        }
        i = i + 1;
    }
    assert(all.take(all.len() as int) =~= all);
    match builder_build(&builder) {
        Ok(set) => Ok(Some(set)),
        Err(source) => Err(
            Error::InvalidGlobPattern { pattern: join_with_commas(patterns), source },
        ),
    }
}

/// A path is excluded if and only if some pattern of the set matches its bytes. A missing set
/// excludes nothing.
pub proof fn lemma_a_match_excludes(set: globset::GlobSet, path: Seq<char>, i: int)
    requires
        0 <= i < patterns_of(set).len(),
    ensures
        glob_matches(patterns_of(set)[i], os_text::bytes_of(path)) ==> excludes(Some(&set), path),
        excludes(Some(&set), path) ==> exists|j: int|
            0 <= j < patterns_of(set).len() && glob_matches(
                #[trigger] patterns_of(set)[j],
                os_text::bytes_of(path),
            ),
        !excludes(None, path),
{
}

/// Patterns exclude what any of them excludes: more of them never exclude less.
pub proof fn lemma_more_patterns_exclude_more(
    patterns: Seq<Seq<char>>,
    more: Seq<Seq<char>>,
    path: Seq<u8>,
)
    ensures
        matches_any(patterns + more, path) <==> matches_any(patterns, path) || matches_any(
            more,
            path,
        ),
        !matches_any(Seq::empty(), path),
{
    let all = patterns + more;
    if matches_any(patterns, path) {
        let i = choose|i: int|
            0 <= i < patterns.len() && glob_matches(#[trigger] patterns[i], path);
        assert(all[i] == patterns[i]);
    }
    if matches_any(more, path) {
        let i = choose|i: int| 0 <= i < more.len() && glob_matches(#[trigger] more[i], path);
        assert(all[patterns.len() + i] == more[i]);
    }
    if matches_any(all, path) {
        let i = choose|i: int| 0 <= i < all.len() && glob_matches(#[trigger] all[i], path);
        if i < patterns.len() {
            assert(glob_matches(patterns[i], path));
        } else {
            assert(glob_matches(more[i - patterns.len()], path));
        }
    }
}

/// A pattern that cannot be parsed fails the whole list and is named in the error; a list that
/// compiles excludes by all of its patterns, and only an empty one by none.
pub proof fn lemma_bad_pattern_is_named(
    patterns: Seq<Seq<char>>,
    result: Result<Option<globset::GlobSet>, Error>,
    i: int,
)
    requires
        0 <= i < patterns.len(),
        compiles_to(patterns, result),
    ensures
        glob_error(patterns[i]) is Some ==> result is Err,
        is_first_bad(patterns, i) ==> (result matches Err(Error::InvalidGlobPattern {
            pattern,
            source,
        }) && pattern@ == patterns[i] && Some(source@) == glob_error(patterns[i])),
        result is Err ==> result->Err_0 is InvalidGlobPattern,
        result is Ok ==> result->Ok_0 is Some && patterns_of(result->Ok_0->0) == patterns,
        all_valid(patterns) && glob_set_error(patterns) is None ==> result is Ok,
{
    if is_first_bad(patterns, i) {
        if let Err(Error::InvalidGlobPattern { pattern, source }) = result {
            if exists|k: int| #[trigger]
                is_first_bad(patterns, k) && pattern@ == patterns[k] && glob_error(patterns[k])
                    == Some(source@) {
                let k = choose|k: int| #[trigger]
                    is_first_bad(patterns, k) && pattern@ == patterns[k] && glob_error(patterns[k])
                        == Some(source@);
                if k < i {
                    assert(glob_error(patterns[k]) is None);
                }
                if i < k {
                    assert(glob_error(patterns[i]) is None);
                }
            } else {
                assert(glob_error(patterns[i]) is None);
            }
        }
    }
}

/// One text stands alone, and each further one stands behind a comma and a space.
pub proof fn lemma_commas_stand_between_texts(texts: Seq<Seq<char>>, one: Seq<char>)
    ensures
        comma_separated(seq![one]) == one,
        texts.len() > 0 ==> comma_separated(texts.push(one)) == comma_separated(texts) + seq![
            ',',
            ' ',
        ] + one,
        comma_separated(Seq::empty()).len() == 0,
{
    reveal_strlit(", ");
    assert(", "@ =~= seq![',', ' ']);
    assert(texts.push(one).drop_last() =~= texts);
}

} // verus!

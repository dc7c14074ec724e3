use vstd::prelude::*;
use vstd::string::*;

verus! {

/// Whether a character is white space in Unicode.
pub open spec fn is_space(c: char) -> bool {
    let n = c as u32;
    ||| 0x9 <= n <= 0xd
    ||| n == 0x20
    ||| n == 0x85
    ||| n == 0xa0
    ||| n == 0x1680
    ||| 0x2000 <= n <= 0x200a
    ||| n == 0x2028
    ||| n == 0x2029
    ||| n == 0x202f
    ||| n == 0x205f
    ||| n == 0x3000
}

/// Whether `c` separates words, or else lines.
pub open spec fn separates(c: char, words: bool) -> bool {
    if words {
        is_space(c)
    } else {
        c == '\n'
    }
}

fn is_separator(c: char, words: bool) -> (r: bool)
    ensures
        r == separates(c, words),
{
    let n: u32 = c as u32;
    if words {
        (0x9 <= n && n <= 0xd) || n == 0x20 || n == 0x85 || n == 0xa0 || n == 0x1680 || (0x2000
            <= n && n <= 0x200a) || n == 0x2028 || n == 0x2029 || n == 0x202f || n == 0x205f || n
            == 0x3000
    } else {
        c == '\n'
    }
}

/// The pieces of `text` between separators, empty ones too.
pub open spec fn split(text: Seq<char>, words: bool) -> Seq<Seq<char>>
    decreases text.len(),
{
    if text.len() == 0 {
        seq![Seq::<char>::empty()]
    } else {
        let before = split(text.drop_last(), words);
        if separates(text.last(), words) {
            before.push(Seq::<char>::empty())
        } else {
            before.drop_last().push(before.last().push(text.last()))
        }
    }
}

/// The words of `text`.
pub open spec fn words_of(text: Seq<char>) -> Seq<Seq<char>> {
    split(text, true).filter(|word: Seq<char>| word.len() > 0)
}

/// A line without the carriage return at its end.
pub open spec fn without_return(line: Seq<char>) -> Seq<char> {
    if line.len() > 0 && line.last() == '\r' {
        line.drop_last()
    } else {
        line
    }
}

/// The lines of `text`. What follows the last line feed is a line only where it holds
/// anything, and only a carriage return before a line feed is left out.
pub open spec fn lines_of(text: Seq<char>) -> Seq<Seq<char>> {
    let all = split(text, false);
    let ended = all.drop_last().map_values(|line: Seq<char>| without_return(line));
    if all.last().len() == 0 {
        ended
    } else {
        ended.push(all.last())
    }
}

/// The contents of each text of a list.
pub open spec fn views(list: Seq<Vec<char>>) -> Seq<Seq<char>> {
    list.map_values(|v: Vec<char>| v@)
}

/// The pieces of `text` between separators.
fn split_chars(text: &Vec<char>, words: bool) -> (r: Vec<Vec<char>>)
    ensures
        views(r@) == split(text@, words),
        r@.len() > 0,
{
    let mut done: Vec<Vec<char>> = Vec::new();
    let mut piece: Vec<char> = Vec::new();
    let mut i: usize = 0;
    assert(text@.take(0) =~= Seq::<char>::empty());
    assert(views(done@).push(piece@) =~= split(text@.take(0), words));
    while i < text.len()
        invariant
            i <= text@.len(),
            views(done@).push(piece@) == split(text@.take(i as int), words),
        decreases text@.len() - i,
    {
        let c = text[i];
        let ghost before = views(done@);
        proof {
            assert(text@.take(i + 1).drop_last() =~= text@.take(i as int));
            assert(text@.take(i + 1).last() == c);
            assert(before.push(piece@).drop_last() =~= before);
            assert(before.push(piece@).last() == piece@);
        }
        if is_separator(c, words) {
            let ghost whole = piece@;
            done.push(piece);
            piece = Vec::new();
            assert(views(done@) =~= before.push(whole));
        } else {
            piece.push(c);
        }
        i = i + 1;
    }
    assert(text@.take(text@.len() as int) =~= text@);
    let ghost before = views(done@);
    let ghost whole = piece@;
    done.push(piece);
    assert(views(done@) =~= before.push(whole));
    done
}

/// The words of `text`.
pub fn words(text: &Vec<char>) -> (r: Vec<Vec<char>>)
    ensures
        views(r@) == words_of(text@),
{
    let pieces = split_chars(text, true);
    let mut out: Vec<Vec<char>> = Vec::new();
    let ghost all = pieces@;
    proof {
        reveal(Seq::filter);
        assert(views(all).take(0) =~= Seq::<Seq<char>>::empty());
        assert(views(out@) =~= Seq::<Seq<char>>::empty());
    }
    for piece in it: pieces
        invariant
            it.seq() == all,
            views(out@) == views(all).take(it.index()).filter(|word: Seq<char>| word.len() > 0),
    {
        let ghost before = views(out@);
        let ghost word = piece@;
        proof {
            reveal(Seq::filter);
            let i = it.index();
            assert(views(all).take(i + 1).drop_last() =~= views(all).take(i));
            assert(views(all).take(i + 1).last() == word);
        }
        if piece.len() > 0 {
            out.push(piece);
            assert(views(out@) =~= before.push(word));
        }
    }
    assert(views(all).take(all.len() as int) =~= views(all));
    out
}

/// The lines of `text`.
pub fn lines(text: &Vec<char>) -> (r: Vec<Vec<char>>)
    ensures
        views(r@) == lines_of(text@),
{
    let mut pieces = split_chars(text, false);
    let ghost all = views(pieces@);
    let mut rest: Vec<char> = Vec::new();
    if let Some(last) = pieces.pop() {
        rest = last;
    }
    assert(rest@ == all.last());
    assert(views(pieces@) =~= all.drop_last());
    let ghost kept = views(pieces@);
    let mut out: Vec<Vec<char>> = Vec::new();
    let ghost given = pieces@;
    assert(views(out@) =~= kept.take(0).map_values(|line: Seq<char>| without_return(line)));
    for piece in it: pieces
        invariant
            it.seq() == given,
            kept == views(given),
            views(out@) == kept.take(it.index()).map_values(
                |line: Seq<char>| without_return(line),
            ),
    {
        let ghost before = views(out@);
        let mut line = piece;
        let ghost whole = line@;
        if line.len() > 0 {
            let end: usize = line.len() - 1;
            if line[end] == '\r' {
                let removed = line.pop();
                assert(line@ =~= whole.drop_last());
            }
        }
        assert(line@ == without_return(whole));
        out.push(line);
        proof {
            let i = it.index();
            assert(views(out@) =~= before.push(without_return(whole)));
            assert(kept[i] == whole);
            assert(views(out@) =~= kept.take(i + 1).map_values(
                |line: Seq<char>| without_return(line),
            ));
        }
    }
    assert(kept.take(kept.len() as int) =~= kept);
    if rest.len() > 0 {
        let ghost ended = views(out@);
        let ghost last = rest@;
        out.push(rest);
        assert(views(out@) =~= ended.push(last));
    }
    out
}

/// Whether `part` stands in `text` from `at` on.
pub open spec fn stands_at(text: Seq<char>, part: Seq<char>, at: int) -> bool {
    0 <= at && at + part.len() <= text.len() && text.subrange(at, at + part.len()) == part
}

/// Whether `part` stands somewhere in `text`.
pub open spec fn holds(text: Seq<char>, part: Seq<char>) -> bool {
    exists|at: int| stands_at(text, part, at)
}

/// Whether `part` stands in `text` from `at` on.
pub fn is_at(text: &Vec<char>, part: &Vec<char>, at: usize) -> (r: bool)
    ensures
        r == stands_at(text@, part@, at as int),
{
    if at > text.len() || text.len() - at < part.len() {
        return false;
    }
    let mut i: usize = 0;
    while i < part.len()
        invariant
            i <= part@.len(),
            at + part@.len() <= text@.len(),
            text@.len() <= usize::MAX,
            forall|j: int| 0 <= j < i ==> text@[at + j] == part@[j],
        decreases part@.len() - i,
    {
        if text[at + i] != part[i] {
            assert(text@.subrange(at as int, at + part@.len())[i as int] != part@[i as int]);
            return false;
        }
        i = i + 1;
    }
    assert(text@.subrange(at as int, at + part@.len()) =~= part@);
    true
}

/// Whether `part` stands somewhere in `text`.
pub fn contains(text: &Vec<char>, part: &Vec<char>) -> (r: bool)
    ensures
        r == holds(text@, part@),
{
    let mut at: usize = 0;
    while at < text.len()
        invariant
            at <= text@.len(),
            forall|j: int| 0 <= j < at ==> !stands_at(text@, part@, j),
        decreases text@.len() - at,
    {
        if is_at(text, part, at) {
            return true;
        }
        at = at + 1;
    }
    is_at(text, part, at)
}

/// `text` without the white space in front.
pub open spec fn without_indent(text: Seq<char>) -> Seq<char>
    decreases text.len(),
{
    if text.len() > 0 && is_space(text[0]) {
        without_indent(text.skip(1))
    } else {
        text
    }
}

/// Where the white space in front of `text` ends.
pub fn indent(text: &Vec<char>) -> (r: usize)
    ensures
        r <= text@.len(),
        text@.skip(r as int) == without_indent(text@),
{
    let mut i: usize = 0;
    assert(text@.skip(0) =~= text@);
    while i < text.len() && is_separator(text[i], true)
        invariant
            i <= text@.len(),
            without_indent(text@.skip(i as int)) == without_indent(text@),
        decreases text@.len() - i,
    {
        assert(text@.skip(i as int)[0] == text@[i as int]);
        assert(text@.skip(i as int).skip(1) =~= text@.skip(i + 1));
        i = i + 1;
    }
    proof {
        if i < text@.len() {
            assert(text@.skip(i as int)[0] == text@[i as int]);
        }
    }
    i
}

/// A separator parts a text in two that are split apart from each other.
proof fn lemma_split_at(a: Seq<char>, separator: char, b: Seq<char>, words: bool)
    requires
        separates(separator, words),
    ensures
        split(a.push(separator) + b, words) == split(a, words) + split(b, words),
        split(a, words).len() > 0,
    decreases b.len(),
{
    lemma_split_nonempty(a, words);
    let whole = a.push(separator) + b;
    if b.len() == 0 {
        assert(whole =~= a.push(separator));
        assert(whole.drop_last() =~= a);
        assert(split(b, words) =~= seq![Seq::<char>::empty()]);
        assert(split(a, words).push(Seq::<char>::empty()) =~= split(a, words) + split(b, words));
    } else {
        let front = b.drop_last();
        lemma_split_at(a, separator, front, words);
        lemma_split_nonempty(front, words);
        assert(whole.drop_last() =~= a.push(separator) + front);
        assert(whole.last() == b.last());
        let before = split(a, words) + split(front, words);
        assert(before.last() == split(front, words).last());
        assert(before.drop_last() =~= split(a, words) + split(front, words).drop_last());
        assert(split(whole, words) =~= split(a, words) + split(b, words));
    }
}

proof fn lemma_split_nonempty(text: Seq<char>, words: bool)
    ensures
        split(text, words).len() > 0,
    decreases text.len(),
{
    if text.len() > 0 {
        lemma_split_nonempty(text.drop_last(), words);
    }
}

proof fn lemma_split_without_separator(text: Seq<char>, words: bool)
    requires
        forall|i: int| 0 <= i < text.len() ==> !separates(#[trigger] text[i], words),
    ensures
        split(text, words) == seq![text],
    decreases text.len(),
{
    if text.len() == 0 {
        assert(text =~= Seq::<char>::empty());
    } else {
        let front = text.drop_last();
        assert forall|i: int| 0 <= i < front.len() implies !separates(#[trigger] front[i], words) by {
            assert(front[i] == text[i]);
        }
        lemma_split_without_separator(front, words);
        assert(!separates(text[text.len() - 1], words));
        assert(front.push(text.last()) =~= text);
        assert(split(text, words) =~= seq![text]);
    }
}

/// White space parts the words of a text and belongs to none of them; a text without white
/// space is its only word.
pub proof fn lemma_words_are_parted_by_space(a: Seq<char>, space: char, b: Seq<char>)
    requires
        is_space(space),
    ensures
        words_of(a.push(space) + b) == words_of(a) + words_of(b),
        words_of(Seq::empty()) == Seq::<Seq<char>>::empty(),
        a.len() > 0 && (forall|i: int| 0 <= i < a.len() ==> !is_space(#[trigger] a[i]))
            ==> words_of(a) == seq![a],
{
    reveal(Seq::filter);
    let keep = |word: Seq<char>| word.len() > 0;
    lemma_split_at(a, space, b, true);
    Seq::filter_distributes_over_add(split(a, true), split(b, true), keep);
    let nothing = Seq::<char>::empty();
    assert(split(nothing, true) =~= seq![nothing]);
    assert(seq![nothing].drop_last() =~= Seq::<Seq<char>>::empty());
    assert(Seq::<Seq<char>>::empty().filter(keep) =~= Seq::<Seq<char>>::empty());
    assert(words_of(nothing) =~= Seq::<Seq<char>>::empty());
    if a.len() > 0 && forall|i: int| 0 <= i < a.len() ==> !is_space(#[trigger] a[i]) {
        assert forall|i: int| 0 <= i < a.len() implies !separates(#[trigger] a[i], true) by {
            assert(!is_space(a[i]));
        }
        lemma_split_without_separator(a, true);
        assert(seq![a].drop_last() =~= Seq::<Seq<char>>::empty());
        assert(words_of(a) =~= seq![a]);
    }
}

/// A line feed ends a line and belongs to none; a carriage return in front of it does not
/// either. The lines behind it are those of the rest alone, and an empty rest has none.
pub proof fn lemma_lines_are_parted_by_line_feeds(line: Seq<char>, rest: Seq<char>)
    requires
        !line.contains('\n'),
    ensures
        lines_of(line.push('\n') + rest) == seq![without_return(line)] + lines_of(rest),
        lines_of(Seq::empty()) == Seq::<Seq<char>>::empty(),
        line.len() > 0 ==> lines_of(line) == seq![line],
        without_return(line.push('\r')) == line,
        line.len() > 0 && line.last() != '\r' ==> without_return(line) == line,
{
    assert forall|i: int| 0 <= i < line.len() implies !separates(#[trigger] line[i], false) by {
        assert(line.contains(line[i]));
    }
    lemma_split_without_separator(line, false);
    lemma_split_at(line, '\n', rest, false);
    lemma_split_nonempty(rest, false);
    let strip = |line: Seq<char>| without_return(line);
    let all = split(line.push('\n') + rest, false);
    let tail = split(rest, false);
    assert(all =~= seq![line] + tail);
    assert(all.last() == tail.last());
    assert(all.drop_last() =~= seq![line] + tail.drop_last());
    assert(all.drop_last().map_values(strip) =~= seq![without_return(line)]
        + tail.drop_last().map_values(strip));
    assert(lines_of(line.push('\n') + rest) =~= seq![without_return(line)] + lines_of(rest));
    let nothing = Seq::<char>::empty();
    assert(split(nothing, false) =~= seq![nothing]);
    assert(lines_of(nothing) =~= Seq::<Seq<char>>::empty());
    if line.len() > 0 {
        assert(lines_of(line) =~= seq![line]);
    }
    assert(line.push('\r').drop_last() =~= line);
}

/// What is left of a text without its indent does not begin with white space, and what was
/// taken off is white space and nothing else.
pub proof fn lemma_indent_is_the_leading_space(text: Seq<char>)
    ensures
        ({
            let rest = without_indent(text);
            let count = text.len() - rest.len();
            &&& 0 <= count
            &&& rest == text.skip(count)
            &&& rest.len() > 0 ==> !is_space(rest[0])
            &&& forall|i: int| 0 <= i < count ==> is_space(#[trigger] text[i])
        }),
    decreases text.len(),
{
    if text.len() > 0 && is_space(text[0]) {
        lemma_indent_is_the_leading_space(text.skip(1));
        let rest = without_indent(text);
        let count = text.len() - rest.len();
        assert(text.skip(1).skip(count - 1) =~= text.skip(count));
        assert forall|i: int| 0 <= i < count implies is_space(#[trigger] text[i]) by {
            if i > 0 {
                assert(text.skip(1)[i - 1] == text[i]);
            }
        }
    } else {
        assert(text.skip(0) =~= text);
    }
}

/// A text holds a part wherever the part stands between any two others, and nowhere else.
pub proof fn lemma_part_is_held_between_others(
    text: Seq<char>,
    before: Seq<char>,
    part: Seq<char>,
    after: Seq<char>,
)
    ensures
        holds(before + part + after, part),
        holds(text, part) ==> part.len() <= text.len(),
        holds(text, part) ==> exists|at: int|
            0 <= at <= text.len() - part.len() && text == #[trigger] text.take(at) + part
                + text.skip(at + part.len()),
{
    let whole = before + part + after;
    let at = before.len() as int;
    assert(whole.subrange(at, at + part.len()) =~= part);
    assert(stands_at(whole, part, at));
    if holds(text, part) {
        let at = choose|at: int| stands_at(text, part, at);
        assert(text.take(at) + part + text.skip(at + part.len()) =~= text) by {
            assert forall|i: int| 0 <= i < text.len() implies (text.take(at) + part + text.skip(
                at + part.len(),
            ))[i] == text[i] by {
                if at <= i < at + part.len() {
                    assert(text.subrange(at, at + part.len())[i - at] == part[i - at]);
                }
            }
        }
    }
}

/// Of the ASCII characters, the blank and those from the tab to the carriage return are white
/// space, and no letter, digit or slash is.
pub proof fn lemma_ascii_space(c: char)
    requires
        (c as u32) < 128,
    ensures
        is_space(c) <==> c == ' ' || '\t' <= c <= '\r',
        'a' <= c <= 'z' || 'A' <= c <= 'Z' || '0' <= c <= '9' || c == '/' ==> !is_space(c),
{
}

} // verus!

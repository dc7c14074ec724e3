use vstd::prelude::*;
use vstd::string::*;

verus! {

/// The contents of each string of a list.
pub open spec fn texts(list: Seq<String>) -> Seq<Seq<char>> {
    list.map_values(|t: String| t@)
}

/// `String::push` appends one character.
pub assume_specification[ String::push ](s: &mut String, c: char)
    ensures
        final(s)@ == old(s)@.push(c),
;

/// The ASCII lower-case form of one character; every other character is kept.
pub open spec fn lower_char(c: char) -> char {
    if 'A' <= c && c <= 'Z' {
        ((c as u8) + 32) as u8 as char
    } else {
        c
    }
}

/// `text` with every ASCII capital letter replaced by its small letter.
pub open spec fn lowered(text: Seq<char>) -> Seq<char> {
    text.map_values(|c: char| lower_char(c))
}

/// Lower-cases one ASCII capital letter and keeps every other character.
pub fn to_lower_char(c: char) -> (r: char)
    ensures
        r == lower_char(c),
{
    if 'A' <= c && c <= 'Z' {
        ((c as u8) + 32) as char
    } else {
        c
    }
}

/// A copy of `text` in ASCII lower case.
pub fn to_lower(text: &str) -> (r: String)
    ensures
        r@ == lowered(text@),
{
    let mut out: String = String::new();
    for c in it: text.chars()
        invariant
            it.seq() == text@,
            out@ == lowered(text@.take(it.index())),
    {
        proof {
            let i = it.index();
            assert(text@.take(i + 1) =~= text@.take(i).push(text@[i]));
            assert(lowered(text@.take(i + 1)) =~= lowered(text@.take(i)).push(lower_char(text@[i])));
        }
        out.push(to_lower_char(c));
    }
    assert(text@.take(text@.len() as int) =~= text@);
    out
}

/// The character of a decimal digit.
pub open spec fn digit(d: nat) -> char {
    ((48 + d) as u8) as char
}

/// The decimal digits of `n`, without leading zeros.
pub open spec fn decimal(n: nat) -> Seq<char>
    decreases n,
{
    if n < 10 {
        seq![digit(n)]
    } else {
        decimal(n / 10).push(digit(n % 10))
    }
}

/// The decimal digits of `n`, without leading zeros.
pub fn to_decimal(n: u64) -> (r: String)
    ensures
        r@ == decimal(n as nat),
    decreases n,
{
    if n < 10 {
        let mut out: String = String::new();
        out.push((48 + n as u8) as char);
        assert(out@ =~= seq![digit(n as nat)]);
        out
    } else {
        let mut out = to_decimal(n / 10);
        out.push((48 + (n % 10) as u8) as char);
        out
    }
}

/// The text of `text` in quotes, as `Debug` shows it.
pub uninterp spec fn debug_text(text: Seq<char>) -> Seq<char>;

/// `Debug` of `str`, by `format!`: the text in double quotes, with special
/// characters escaped. What it gives is named `debug_text`.
#[verifier::external_body]
pub(crate) fn to_debug(text: &str) -> (r: String)
    ensures
        r@ == debug_text(text@),
{
    format!("{:?}", text)
}

/// `a` followed by `b`.
pub fn concat2(a: &str, b: &str) -> (r: String)
    ensures
        r@ == a@ + b@,
{
    let mut out = a.to_owned();
    out.append(b);
    out
}

/// `a` with `b` at its end.
pub fn extend(a: String, b: &str) -> (r: String)
    ensures
        r@ == a@ + b@,
{
    let mut out = a;
    out.append(b);
    out
}

/// `text` with every `from` replaced by `to`.
pub open spec fn replaced(text: Seq<char>, from: char, to: char) -> Seq<char> {
    text.map_values(|c: char| if c == from { to } else { c })
}

/// `text` with every `from` replaced by `to`.
pub fn replace_char(text: &str, from: char, to: char) -> (r: String)
    ensures
        r@ == replaced(text@, from, to),
{
    let mut out: String = String::new();
    for c in it: text.chars()
        invariant
            it.seq() == text@,
            out@ == replaced(text@.take(it.index()), from, to),
    {
        proof {
            let i = it.index();
            assert(text@.take(i + 1) =~= text@.take(i).push(text@[i]));
            assert(replaced(text@.take(i + 1), from, to) =~= replaced(text@.take(i), from, to).push(
                if c == from {
                    to
                } else {
                    c
                },
            ));
        }
        out.push(
            if c == from {
                to
            } else {
                c
            },
        );
    }
    assert(text@.take(text@.len() as int) =~= text@);
    out
}

/// Whether two texts are equal.
pub fn same(a: &str, b: &str) -> (r: bool)
    ensures
        r == (a@ == b@),
{
    a.to_owned() == b.to_owned()
}

/// The characters of `text`.
pub fn to_chars(text: &str) -> (r: Vec<char>)
    ensures
        r@ == text@,
{
    let mut out: Vec<char> = Vec::new();
    for c in it: text.chars()
        invariant
            it.seq() == text@,
            out@ == text@.take(it.index()),
    {
        out.push(c);
        assert(out@ =~= text@.take(it.index() + 1));
    }
    assert(text@.take(text@.len() as int) =~= text@);
    out
}

/// The text of `chars`.
pub fn from_chars(chars: &Vec<char>) -> (r: String)
    ensures
        r@ == chars@,
{
    let mut out: String = String::new();
    let mut i: usize = 0;
    while i < chars.len()
        invariant
            i <= chars@.len(),
            out@ == chars@.take(i as int),
        decreases chars@.len() - i,
    {
        out.push(chars[i]);
        assert(out@ =~= chars@.take(i + 1));
        i = i + 1;
    }
    assert(chars@.take(chars@.len() as int) =~= chars@);
    out
}

/// Lowering keeps the length and every character but the capitals, of which none is left; a
/// second lowering changes nothing.
pub proof fn lemma_lowering_leaves_no_capital(text: Seq<char>, i: int)
    requires
        0 <= i < text.len(),
    ensures
        lowered(text).len() == text.len(),
        !('A' <= lowered(text)[i] && lowered(text)[i] <= 'Z'),
        !('A' <= text[i] && text[i] <= 'Z') ==> lowered(text)[i] == text[i],
        'A' <= text[i] && text[i] <= 'Z' ==> lowered(text)[i] as u32 - text[i] as u32 == 'a' as u32
            - 'A' as u32,
        lowered(lowered(text)) == lowered(text),
{
    assert forall|c: char| #[trigger] lower_char(lower_char(c)) == lower_char(c) && !('A'
        <= lower_char(c) && lower_char(c) <= 'Z') && ('A' <= c && c <= 'Z' ==> lower_char(c) as u32
        == c as u32 + 32) by {
        lemma_lower_char(c);
    }
    let c = text[i];
    assert(lowered(text)[i] == lower_char(c));
    assert(lower_char(lower_char(c)) == lower_char(c));
    assert forall|j: int| 0 <= j < text.len() implies lowered(lowered(text))[j]
        == lowered(text)[j] by {
        assert(lower_char(lower_char(text[j])) == lower_char(text[j]));
    }
    assert(lowered(lowered(text)) =~= lowered(text));
}

proof fn lemma_lower_char(c: char)
    ensures
        !('A' <= lower_char(c) && lower_char(c) <= 'Z'),
        lower_char(lower_char(c)) == lower_char(c),
        'A' <= c && c <= 'Z' ==> lower_char(c) as u32 == c as u32 + 32,
{
    if 'A' <= c && c <= 'Z' {
        assert(c as u8 == c as u32);
        assert(((c as u8) + 32) as u8 == c as u32 + 32);
    }
}

/// Replacing keeps the length and every other character, and leaves none of those that were
/// replaced.
pub proof fn lemma_replacing_leaves_none(text: Seq<char>, from: char, to: char, i: int)
    requires
        0 <= i < text.len(),
    ensures
        replaced(text, from, to).len() == text.len(),
        text[i] == from ==> replaced(text, from, to)[i] == to,
        text[i] != from ==> replaced(text, from, to)[i] == text[i],
        from != to ==> !replaced(text, from, to).contains(from),
{
    assert forall|j: int| 0 <= j < text.len() && from != to implies replaced(text, from, to)[j]
        != from by {}
}

/// The number that a text of decimal digits stands for.
pub open spec fn number_of(digits: Seq<char>) -> nat
    decreases digits.len(),
{
    if digits.len() == 0 {
        0
    } else {
        10 * number_of(digits.drop_last()) + (digits.last() as u32 - '0' as u32) as nat
    }
}

/// The digits of a number read back as that number; each is one of `0` to `9`, and none but
/// that of 0 itself leads with `0`.
pub proof fn lemma_decimal_reads_back(n: nat)
    ensures
        number_of(decimal(n)) == n,
        decimal(n).len() > 0,
        forall|i: int| 0 <= i < decimal(n).len() ==> '0' <= #[trigger] decimal(n)[i] <= '9',
        decimal(n)[0] == '0' <==> n == 0,
    decreases n,
{
    reveal_with_fuel(number_of, 2);
    let d = n % 10;
    assert(digit(d) as u32 == 48 + d) by {
        assert((48 + d) as u8 == 48 + d);
    }
    if n < 10 {
        assert(decimal(n).drop_last() =~= Seq::<char>::empty());
    } else {
        lemma_decimal_reads_back(n / 10);
        assert(decimal(n).drop_last() =~= decimal(n / 10));
        assert(decimal(n)[0] == decimal(n / 10)[0]);
        assert forall|i: int| 0 <= i < decimal(n).len() implies '0' <= #[trigger] decimal(n)[i]
            <= '9' by {
            if i < decimal(n / 10).len() {
                assert(decimal(n)[i] == decimal(n / 10)[i]);
            }
        }
    }
}

} // verus!

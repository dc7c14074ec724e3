use vstd::prelude::*;
use vstd::string::*;
use vstd::utf8::*;

verus! {

/// How far above a byte the private-use character lies that keeps it.
///
/// A file system may hold names that are no Unicode. As text such a name has, for every byte
/// that is part of no character, the character this far above the byte. The bytes of a name
/// that holds such characters itself are kept in the same way, so that every name has a text
/// of its own.
pub const KEPT: u32 = 0x10_0000;

/// The byte that `c` keeps, if it keeps one.
pub open spec fn kept_byte(c: char) -> Option<u8> {
    if 0x10_0080 <= c as u32 <= 0x10_00ff {
        Some((c as u32 - KEPT) as u8)
    } else {
        None
    }
}

/// The character that keeps `byte`, which is not ASCII.
pub open spec fn keeper(byte: u8) -> char {
    (KEPT + byte) as u32 as char
}

/// Whether no character of `text` keeps a byte.
pub open spec fn is_plain(text: Seq<char>) -> bool {
    forall|i: int| 0 <= i < text.len() ==> kept_byte(#[trigger] text[i]) is None
}

/// The bytes that `c` stands for.
pub open spec fn char_bytes(c: char) -> Seq<u8> {
    match kept_byte(c) {
        Some(byte) => seq![byte],
        None => encode_utf8(seq![c]),
    }
}

/// The bytes that the file system holds for `text`.
pub open spec fn bytes_of(text: Seq<char>) -> Seq<u8>
    decreases text.len(),
{
    if text.len() == 0 {
        Seq::empty()
    } else {
        bytes_of(text.drop_last()) + char_bytes(text.last())
    }
}

/// The characters that the file system holds for `text`, or `None` where its bytes are no
/// Unicode.
pub open spec fn unicode_of(text: Seq<char>) -> Option<Seq<char>> {
    if is_plain(text) {
        Some(text)
    } else if valid_utf8(bytes_of(text)) {
        Some(decode_utf8(bytes_of(text)))
    } else {
        None
    }
}

/// The text of `c`: itself, or what keeps its bytes.
pub open spec fn kept_char(c: char) -> Seq<char> {
    if kept_byte(c) is None {
        seq![c]
    } else {
        encode_utf8(seq![c]).map_values(|byte: u8| keeper(byte))
    }
}

/// The text of what the file system holds as `bytes`.
pub open spec fn text_of(bytes: Seq<u8>) -> Seq<char>
    decreases bytes.len(),
{
    if bytes.len() == 0 {
        Seq::empty()
    } else if valid_first_scalar(bytes) {
        kept_char(decode_first_scalar(bytes) as char) + text_of(pop_first_scalar(bytes))
    } else {
        seq![keeper(bytes[0])] + text_of(bytes.drop_first())
    }
}

/// The text of what the file system holds as the characters `chars`.
pub open spec fn kept(chars: Seq<char>) -> Seq<char> {
    if is_plain(chars) {
        chars
    } else {
        text_of(encode_utf8(chars))
    }
}

/// What `String::from_utf8_lossy` makes of `bytes`.
pub uninterp spec fn lossy(bytes: Seq<u8>) -> Seq<char>;

/// `text` for people and for archives: what is no Unicode in it is replaced.
pub open spec fn shown_text(text: Seq<char>) -> Seq<char> {
    match unicode_of(text) {
        Some(chars) => chars,
        None => lossy(bytes_of(text)),
    }
}

/// Whether `text` is how the bytes that it stands for are written.
pub open spec fn is_text(text: Seq<char>) -> bool {
    text_of(bytes_of(text)) == text
}

/// `char::from_u32`: the character with that number, where there is one.
pub assume_specification[ char::from_u32 ](i: u32) -> (r: Option<char>)
    ensures
        match r {
            Some(c) => c as u32 == i,
            None => !is_scalar(i),
        },
;

/// `String::from_utf8_lossy`: bytes that are UTF-8 are decoded, and what is not is replaced.
/// What it gives is named `lossy`.
#[verifier::external_body]
fn to_lossy(bytes: &[u8]) -> (r: String)
    ensures
        r@ == lossy(bytes@),
        valid_utf8(bytes@) ==> r@ == decode_utf8(bytes@),
{
    String::from_utf8_lossy(bytes).into_owned()
}

proof fn lemma_bytes_of_concat(a: Seq<char>, b: Seq<char>)
    ensures
        bytes_of(a + b) == bytes_of(a) + bytes_of(b),
    decreases b.len(),
{
    if b.len() == 0 {
        assert(a + b =~= a);
        assert(bytes_of(a) + bytes_of(b) =~= bytes_of(a));
    } else {
        lemma_bytes_of_concat(a, b.drop_last());
        assert((a + b).drop_last() =~= a + b.drop_last());
        assert((a + b).last() == b.last());
        assert(bytes_of(a + b) =~= bytes_of(a) + bytes_of(b));
    }
}

proof fn lemma_bytes_of_one(c: char)
    ensures
        bytes_of(seq![c]) == char_bytes(c),
{
    assert(seq![c].drop_last() =~= Seq::<char>::empty());
    assert(seq![c].last() == c);
    assert(bytes_of(Seq::<char>::empty()) =~= Seq::<u8>::empty());
    assert(bytes_of(seq![c]) =~= char_bytes(c));
}

proof fn lemma_encode_one(c: char)
    ensures
        encode_utf8(seq![c]) == encode_scalar(c as u32),
{
    assert(seq![c].drop_first() =~= Seq::<char>::empty());
    assert(seq![c][0] == c);
    assert(encode_utf8(Seq::<char>::empty()) =~= Seq::<u8>::empty());
    assert(encode_utf8(seq![c]) =~= encode_scalar(c as u32));
}

proof fn lemma_encode_concat(a: Seq<char>, b: Seq<char>)
    ensures
        encode_utf8(a + b) == encode_utf8(a) + encode_utf8(b),
    decreases a.len(),
{
    if a.len() == 0 {
        assert(a + b =~= b);
        assert(encode_utf8(a) + encode_utf8(b) =~= encode_utf8(b));
    } else {
        lemma_encode_concat(a.drop_first(), b);
        assert((a + b).drop_first() =~= a.drop_first() + b);
        assert(encode_utf8(a + b) =~= encode_utf8(a) + encode_utf8(b));
    }
}

/// Text that keeps no byte stands for its characters, in UTF-8.
pub proof fn lemma_plain_text_is_unicode(text: Seq<char>)
    requires
        is_plain(text),
    ensures
        bytes_of(text) == encode_utf8(text),
        valid_utf8(bytes_of(text)),
        decode_utf8(bytes_of(text)) == text,
    decreases text.len(),
{
    if text.len() > 0 {
        let front = text.drop_last();
        assert forall|i: int| 0 <= i < front.len() implies kept_byte(#[trigger] front[i]) is None by {
            assert(front[i] == text[i]);
        }
        lemma_plain_text_is_unicode(front);
        lemma_encode_concat(front, seq![text.last()]);
        assert(front + seq![text.last()] =~= text);
        assert(kept_byte(text[text.len() - 1]) is None);
    }
    encode_utf8_valid_utf8(text);
    encode_utf8_decode_utf8(text);
}

/// A character keeps the byte that it is made for.
proof fn lemma_keeper(byte: u8)
    requires
        byte >= 0x80,
    ensures
        keeper(byte) as u32 == KEPT + byte,
        kept_byte(keeper(byte)) == Some(byte),
        char_bytes(keeper(byte)) == seq![byte],
{
}

proof fn lemma_bytes_of_keepers(bytes: Seq<u8>)
    requires
        forall|i: int| 0 <= i < bytes.len() ==> (#[trigger] bytes[i]) >= 0x80,
    ensures
        bytes_of(bytes.map_values(|byte: u8| keeper(byte))) == bytes,
    decreases bytes.len(),
{
    let all = bytes.map_values(|byte: u8| keeper(byte));
    if bytes.len() > 0 {
        let front = bytes.drop_last();
        assert forall|i: int| 0 <= i < front.len() implies (#[trigger] front[i]) >= 0x80 by {
            assert(front[i] == bytes[i]);
        }
        lemma_bytes_of_keepers(front);
        assert(all.drop_last() =~= front.map_values(|byte: u8| keeper(byte)));
        lemma_keeper(bytes[bytes.len() - 1]);
        assert(all.last() == keeper(bytes.last()));
        assert(bytes_of(all) =~= bytes);
    } else {
        assert(bytes_of(all) =~= bytes);
    }
}

/// The characters that keep bytes have four bytes, none of which is ASCII.
proof fn lemma_kept_range_is_not_ascii(c: char)
    requires
        kept_byte(c) is Some,
    ensures
        forall|i: int|
            0 <= i < encode_utf8(seq![c]).len() ==> (#[trigger] encode_utf8(seq![c])[i]) >= 0x80,
{
    lemma_encode_one(c);
    encode_utf8_first_scalar(seq![c]);
    assert(encode_scalar(c as u32).len() == 4);
}

proof fn lemma_bytes_of_kept_char(c: char)
    ensures
        bytes_of(kept_char(c)) == encode_utf8(seq![c]),
{
    if kept_byte(c) is None {
        lemma_bytes_of_one(c);
    } else {
        lemma_kept_range_is_not_ascii(c);
        lemma_bytes_of_keepers(encode_utf8(seq![c]));
    }
}

/// A byte at which no character starts is not ASCII.
proof fn lemma_stray_byte(bytes: Seq<u8>)
    requires
        bytes.len() > 0,
        !valid_first_scalar(bytes),
    ensures
        bytes[0] >= 0x80,
{
    let byte = bytes[0];
    if byte < 0x80 {
        assert(byte & 0x7f <= 0x7f) by (bit_vector);
        assert(is_leading_byte_width_1(byte));
        assert(decode_first_codepoint(bytes) <= 0x7f);
    }
}

proof fn lemma_first_scalar(bytes: Seq<u8>)
    requires
        valid_first_scalar(bytes),
    ensures
        1 <= length_of_first_scalar(bytes) <= bytes.len(),
        encode_utf8(seq![decode_first_scalar(bytes) as char]) == take_first_scalar(bytes),
        take_first_scalar(bytes) + pop_first_scalar(bytes) == bytes,
{
    let first = take_first_scalar(bytes);
    assert(valid_first_scalar(first));
    assert(pop_first_scalar(first) =~= Seq::<u8>::empty());
    assert(valid_utf8(pop_first_scalar(first)));
    assert(valid_utf8(first));
    decode_utf8_first_scalar(first);
    assert(take_first_scalar(first) =~= first);
    assert(decode_first_scalar(first) == decode_first_scalar(bytes));
    lemma_encode_one(decode_first_scalar(bytes) as char);
    assert(take_first_scalar(bytes) + pop_first_scalar(bytes) =~= bytes);
}

/// No byte is lost: the text of what a file system holds stands for just that.
pub proof fn lemma_bytes_round_trip(bytes: Seq<u8>)
    ensures
        bytes_of(text_of(bytes)) == bytes,
    decreases bytes.len(),
{
    if bytes.len() == 0 {
        assert(bytes_of(text_of(bytes)) =~= bytes);
    } else if valid_first_scalar(bytes) {
        let c = decode_first_scalar(bytes) as char;
        lemma_first_scalar(bytes);
        lemma_bytes_round_trip(pop_first_scalar(bytes));
        lemma_bytes_of_kept_char(c);
        lemma_bytes_of_concat(kept_char(c), text_of(pop_first_scalar(bytes)));
    } else {
        lemma_stray_byte(bytes);
        lemma_keeper(bytes[0]);
        lemma_bytes_of_one(keeper(bytes[0]));
        lemma_bytes_round_trip(bytes.drop_first());
        lemma_bytes_of_concat(seq![keeper(bytes[0])], text_of(bytes.drop_first()));
        assert(seq![bytes[0]] + bytes.drop_first() =~= bytes);
    }
}

/// The text of what a file system holds has a Unicode form if and only if the bytes are
/// UTF-8, and it is what they decode to.
pub proof fn lemma_unicode_of_text_of(bytes: Seq<u8>)
    ensures
        unicode_of(text_of(bytes)) == if valid_utf8(bytes) {
            Some(decode_utf8(bytes))
        } else {
            None
        },
{
    lemma_bytes_round_trip(bytes);
    if is_plain(text_of(bytes)) {
        lemma_plain_text_is_unicode(text_of(bytes));
    }
}

/// Text that keeps no byte is how its bytes are written.
pub proof fn lemma_plain_text_is_text(text: Seq<char>)
    requires
        is_plain(text),
    ensures
        is_text(text),
    decreases text.len(),
{
    lemma_plain_text_is_unicode(text);
    if text.len() == 0 {
        assert(text_of(bytes_of(text)) =~= text);
    } else {
        let rest = text.drop_first();
        let bytes = encode_utf8(text);
        assert forall|i: int| 0 <= i < rest.len() implies kept_byte(#[trigger] rest[i]) is None by {
            assert(rest[i] == text[i + 1]);
        }
        lemma_plain_text_is_text(rest);
        lemma_plain_text_is_unicode(rest);
        encode_utf8_first_scalar(text);
        char_u32_cast(text[0], decode_first_scalar(bytes));
        assert(pop_first_scalar(bytes) =~= encode_utf8(rest));
        assert(kept_byte(text[0]) is None);
        assert(text_of(bytes) =~= seq![text[0]] + rest);
        assert(seq![text[0]] + rest =~= text);
    }
}

/// Two texts of the same characters are one text.
pub proof fn lemma_one_text_for_characters(a: Seq<char>, b: Seq<char>)
    requires
        is_text(a),
        is_text(b),
        unicode_of(a) is Some,
        unicode_of(a) == unicode_of(b),
    ensures
        a == b,
{
    lemma_bytes_of_unicode(a);
    lemma_bytes_of_unicode(b);
}

proof fn lemma_bytes_of_unicode(text: Seq<char>)
    requires
        unicode_of(text) is Some,
    ensures
        bytes_of(text) == encode_utf8(unicode_of(text)->0),
{
    if is_plain(text) {
        lemma_plain_text_is_unicode(text);
    } else {
        decode_utf8_encode_utf8(bytes_of(text));
    }
}

/// The text of characters stands for just those characters.
pub proof fn lemma_unicode_of_kept(chars: Seq<char>)
    ensures
        unicode_of(kept(chars)) == Some(chars),
{
    if !is_plain(chars) {
        encode_utf8_valid_utf8(chars);
        encode_utf8_decode_utf8(chars);
        lemma_unicode_of_text_of(encode_utf8(chars));
    }
}

/// The byte that `c` keeps, if it keeps one.
fn byte_of(c: char) -> (r: Option<u8>)
    ensures
        r == kept_byte(c),
{
    let code: u32 = c as u32;
    if 0x10_0080 <= code && code <= 0x10_00ff {
        Some((code - KEPT) as u8)
    } else {
        None
    }
}

/// Whether no character of `text` keeps a byte.
pub fn keeps_nothing(text: &str) -> (r: bool)
    ensures
        r == is_plain(text@),
{
    for c in it: text.chars()
        invariant
            it.seq() == text@,
            forall|i: int| 0 <= i < it.index() ==> kept_byte(#[trigger] text@[i]) is None,
    {
        if byte_of(c).is_some() {
            assert(kept_byte(text@[it.index()]) is Some);
            return false;
        }
    }
    true
}

fn extend_bytes(out: &mut Vec<u8>, more: &[u8])
    ensures
        final(out)@ == old(out)@ + more@,
{
    let mut i: usize = 0;
    while i < more.len()
        invariant
            i <= more@.len(),
            out@ == old(out)@ + more@.take(i as int),
        decreases more@.len() - i,
    {
        out.push(more[i]);
        i = i + 1;
        assert(out@ =~= old(out)@ + more@.take(i as int));
    }
    assert(more@.take(more@.len() as int) =~= more@);
}

/// The bytes that the file system holds for `text`.
pub fn to_bytes(text: &str) -> (r: Vec<u8>)
    ensures
        r@ == bytes_of(text@),
{
    let mut out: Vec<u8> = Vec::new();
    assert(bytes_of(text@.take(0)) =~= out@);
    for c in it: text.chars()
        invariant
            it.seq() == text@,
            out@ == bytes_of(text@.take(it.index())),
    {
        proof {
            let i = it.index();
            assert(text@.take(i + 1).drop_last() =~= text@.take(i));
            assert(text@.take(i + 1).last() == c);
        }
        match byte_of(c) {
            Some(byte) => {
                let ghost before = out@;
                out.push(byte);
                assert(out@ =~= before + seq![byte]);
            },
            None => {
                let mut one: String = String::new();
                one.push(c);
                assert(one@ =~= seq![c]);
                extend_bytes(&mut out, one.as_str().as_bytes());
            },
        }
    }
    assert(text@.take(text@.len() as int) =~= text@);
    out
}

/// Whether the byte at `at` goes on with a character that has started before it.
fn continues(bytes: &[u8], at: usize) -> (r: bool)
    requires
        at < bytes@.len(),
    ensures
        r == is_continuation_byte(bytes@[at as int]),
{
    0x80 <= bytes[at] && bytes[at] <= 0xbf
}

/// The character that `bytes` hold from `at` on, and its length in bytes, or `None` where no
/// character starts there.
fn char_at(bytes: &[u8], at: usize) -> (r: Option<(char, usize)>)
    requires
        at < bytes@.len(),
    ensures
        ({
            let rest = bytes@.skip(at as int);
            match r {
                Some((c, length)) => {
                    &&& valid_first_scalar(rest)
                    &&& c == decode_first_scalar(rest) as char
                    &&& length == length_of_first_scalar(rest)
                },
                None => !valid_first_scalar(rest),
            }
        }),
{
    let left: usize = bytes.len() - at;
    let ghost rest = bytes@.skip(at as int);
    let a: u8 = bytes[at];
    assert(rest[0] == a);
    let (code, length): (u32, usize) = if a <= 0x7f {
        assert((a & 0x7f) as u32 <= 0x7f) by (bit_vector);
        ((a & 0x7f) as u32, 1)
    } else if 0xc0 <= a && a <= 0xdf && left >= 2 && continues(bytes, at + 1) {
        let b: u8 = bytes[at + 1];
        assert(rest[1] == b);
        assert((((a & 0x1f) as u32) << 6) | ((b & 0x3f) as u32) <= 0x7ff) by (bit_vector);
        ((((a & 0x1f) as u32) << 6) | ((b & 0x3f) as u32), 2)
    } else if 0xe0 <= a && a <= 0xef && left >= 3 && continues(bytes, at + 1) && continues(
        bytes,
        at + 2,
    ) {
        let b: u8 = bytes[at + 1];
        let c: u8 = bytes[at + 2];
        assert(rest[1] == b && rest[2] == c);
        assert((((a & 0x0f) as u32) << 12) | (((b & 0x3f) as u32) << 6) | ((c & 0x3f) as u32)
            <= 0xffff) by (bit_vector);
        ((((a & 0x0f) as u32) << 12) | (((b & 0x3f) as u32) << 6) | ((c & 0x3f) as u32), 3)
    } else if 0xf0 <= a && a <= 0xf7 && left >= 4 && continues(bytes, at + 1) && continues(
        bytes,
        at + 2,
    ) && continues(bytes, at + 3) {
        let b: u8 = bytes[at + 1];
        let c: u8 = bytes[at + 2];
        let d: u8 = bytes[at + 3];
        assert(rest[1] == b && rest[2] == c && rest[3] == d);
        (
            (((a & 0x07) as u32) << 18) | (((b & 0x3f) as u32) << 12) | (((c & 0x3f) as u32) << 6)
                | ((d & 0x3f) as u32),
            4,
        )
    } else {
        return None;
    };
    assert(code == decode_first_codepoint(rest));
    assert(length == length_of_first_codepoint(rest));
    let is_short: bool = (length != 2 || 0x80 <= code) && (length != 3 || 0x800 <= code) && (length
        != 4 || (0x1_0000 <= code && code <= 0x10_ffff));
    if !is_short || (0xd800 <= code && code <= 0xdfff) {
        return None;
    }
    match char::from_u32(code) {
        Some(c) => {
            proof {
                char_u32_cast(c, code);
            }
            Some((c, length))
        },
        None => None,
    }
}

/// The character that keeps `byte`.
fn keeper_of(byte: u8) -> (r: char)
    requires
        byte >= 0x80,
    ensures
        r == keeper(byte),
{
    match char::from_u32(KEPT + byte as u32) {
        Some(c) => {
            proof {
                char_u32_cast(c, (KEPT + byte) as u32);
            }
            c
        },
        None => {
            assert(false);
            '?'
        },
    }
}

/// Appends the text of `c`.
fn push_kept(out: &mut String, c: char)
    ensures
        final(out)@ == old(out)@ + kept_char(c),
{
    if byte_of(c).is_none() {
        out.push(c);
        assert(out@ =~= old(out)@ + kept_char(c));
        return;
    }
    let mut one: String = String::new();
    one.push(c);
    assert(one@ =~= seq![c]);
    let bytes = one.as_str().as_bytes();
    let ghost all = kept_char(c);
    proof {
        lemma_kept_range_is_not_ascii(c);
    }
    let mut i: usize = 0;
    while i < bytes.len()
        invariant
            i <= bytes@.len(),
            bytes@.len() == all.len(),
            forall|j: int| 0 <= j < bytes@.len() ==> (#[trigger] bytes@[j]) >= 0x80,
            forall|j: int| 0 <= j < bytes@.len() ==> all[j] == keeper(#[trigger] bytes@[j]),
            out@ == old(out)@ + all.take(i as int),
        decreases bytes@.len() - i,
    {
        out.push(keeper_of(bytes[i]));
        i = i + 1;
        assert(out@ =~= old(out)@ + all.take(i as int));
    }
    assert(all.take(all.len() as int) =~= all);
}

/// The text of what the file system holds as `bytes`.
pub fn from_bytes(bytes: &[u8]) -> (r: String)
    ensures
        r@ == text_of(bytes@),
{
    let mut out: String = String::new();
    let mut at: usize = 0;
    assert(bytes@.skip(0) =~= bytes@);
    assert(out@ + text_of(bytes@) =~= text_of(bytes@));
    while at < bytes.len()
        invariant
            at <= bytes@.len(),
            out@ + text_of(bytes@.skip(at as int)) == text_of(bytes@),
        decreases bytes@.len() - at,
    {
        let ghost before = out@;
        let ghost rest = bytes@.skip(at as int);
        match char_at(bytes, at) {
            Some((c, length)) => {
                proof {
                    lemma_first_scalar(rest);
                    assert(pop_first_scalar(rest) =~= bytes@.skip(at + length));
                }
                push_kept(&mut out, c);
                at = at + length;
                assert(before + (kept_char(c) + text_of(bytes@.skip(at as int))) =~= out@ + text_of(
                    bytes@.skip(at as int),
                ));
            },
            None => {
                proof {
                    lemma_stray_byte(rest);
                    assert(rest.drop_first() =~= bytes@.skip(at + 1));
                }
                out.push(keeper_of(bytes[at]));
                at = at + 1;
                assert(before + (seq![keeper(rest[0])] + text_of(bytes@.skip(at as int))) =~= out@
                    + text_of(bytes@.skip(at as int)));
            },
        }
    }
    assert(out@ + text_of(bytes@.skip(at as int)) =~= out@);
    out
}

/// What `bytes` decode to, or `None` where they are not UTF-8.
fn decoded(bytes: &[u8]) -> (r: Option<String>)
    ensures
        match r {
            Some(chars) => valid_utf8(bytes@) && chars@ == decode_utf8(bytes@),
            None => !valid_utf8(bytes@),
        },
{
    let mut out: String = String::new();
    let mut at: usize = 0;
    assert(bytes@.skip(0) =~= bytes@);
    assert(out@ + decode_utf8(bytes@) =~= decode_utf8(bytes@));
    while at < bytes.len()
        invariant
            at <= bytes@.len(),
            valid_utf8(bytes@) == valid_utf8(bytes@.skip(at as int)),
            valid_utf8(bytes@) ==> out@ + decode_utf8(bytes@.skip(at as int)) == decode_utf8(bytes@),
        decreases bytes@.len() - at,
    {
        let ghost before = out@;
        let ghost rest = bytes@.skip(at as int);
        match char_at(bytes, at) {
            Some((c, length)) => {
                proof {
                    lemma_first_scalar(rest);
                    assert(pop_first_scalar(rest) =~= bytes@.skip(at + length));
                }
                out.push(c);
                at = at + length;
                proof {
                    let later = decode_utf8(bytes@.skip(at as int));
                    assert(before + (seq![c] + later) =~= out@ + later);
                }
            },
            None => {
                return None;
            },
        }
    }
    assert(out@ + decode_utf8(bytes@.skip(at as int)) =~= out@);
    Some(out)
}

/// The characters that the file system holds for `text`, or `None` where its bytes are no
/// Unicode.
pub fn to_unicode(text: &str) -> (r: Option<String>)
    ensures
        match r {
            Some(chars) => unicode_of(text@) == Some(chars@),
            None => unicode_of(text@) is None,
        },
{
    if keeps_nothing(text) {
        return Some(text.to_owned());
    }
    decoded(to_bytes(text).as_slice())
}

/// The text of what the file system holds as the characters `chars`.
pub fn keep(chars: &str) -> (r: String)
    ensures
        r@ == kept(chars@),
{
    if keeps_nothing(chars) {
        return chars.to_owned();
    }
    from_bytes(chars.as_bytes())
}

/// `text` for people and for archives: what is no Unicode in it is replaced.
pub fn shown(text: &str) -> (r: String)
    ensures
        r@ == shown_text(text@),
{
    match to_unicode(text) {
        Some(chars) => chars,
        None => to_lossy(to_bytes(text).as_slice()),
    }
}

} // verus!

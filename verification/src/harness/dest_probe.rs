use vstd::prelude::*;
use vstd::string::*;

use super::parse;
use crate::text;

verus! {

/// The device in a listing of free space: the first word of its second line.
pub open spec fn device_in(listing: Seq<char>) -> Option<Seq<char>> {
    let lines = parse::lines_of(listing);
    if lines.len() > 1 && parse::words_of(lines[1]).len() > 0 {
        Some(parse::words_of(lines[1])[0])
    } else {
        None
    }
}

/// The device in a listing of free space.
pub fn parse_device(listing: &str) -> (r: Option<String>)
    ensures
        match r {
            Some(device) => device_in(listing@) == Some(device@),
            None => device_in(listing@) is None,
        },
{
    let chars = text::to_chars(listing);
    let lines = parse::lines(&chars);
    assert(parse::views(lines@).len() == lines@.len());
    if lines.len() < 2 {
        return None;
    }
    let words = parse::words(&lines[1]);
    assert(parse::lines_of(listing@)[1] == lines@[1]@);
    assert(parse::views(words@).len() == words@.len());
    if words.len() == 0 {
        return None;
    }
    assert(parse::words_of(lines@[1]@)[0] == words@[0]@);
    Some(text::from_chars(&words[0]))
}

/// Whether a line names the kind of a file system.
pub open spec fn names_kind(line: Seq<char>) -> bool {
    parse::stands_at(parse::without_indent(line), "File System Personality:"@, 0)
}

/// What a line says behind that name.
pub open spec fn kind_in(line: Seq<char>) -> Seq<char> {
    text::lowered(
        parse::without_indent(line).skip("File System Personality:"@.len() as int),
    )
}

/// Whether the line at `i` is the first that names the kind of a file system.
pub open spec fn is_first_kind(info: Seq<char>, i: int) -> bool {
    let lines = parse::lines_of(info);
    &&& 0 <= i < lines.len()
    &&& names_kind(lines[i])
    &&& forall|j: int| 0 <= j < i ==> !names_kind(#[trigger] lines[j])
}

/// Whether a kind of file system belongs to Windows.
pub open spec fn is_windows_kind(kind: Seq<char>) -> bool {
    parse::holds(kind, "fat"@) || parse::holds(kind, "ntfs"@)
}

/// Whether the kind that a description of a volume names belongs to Windows.
pub open spec fn tells_of_windows(info: Seq<char>) -> bool {
    exists|i: int| #[trigger]
        is_first_kind(info, i) && is_windows_kind(kind_in(parse::lines_of(info)[i]))
}

/// Whether a volume holds to the naming rules of Windows, by what is known of it: the kind of
/// its file system decides, and where that is not known, it does not.
pub fn has_windows_naming_rules(info: Option<&str>) -> (r: bool)
    ensures
        match info {
            Some(info) => r == tells_of_windows(info@),
            None => !r,
        },
{
    let known = match info {
        Some(known) => known,
        None => {
            return false;
        },
    };
    let chars = text::to_chars(known);
    let lines = parse::lines(&chars);
    let label = text::to_chars("File System Personality:");
    let fat = text::to_chars("fat");
    let ntfs = text::to_chars("ntfs");
    let ghost all = parse::lines_of(known@);
    let mut i: usize = 0;
    while i < lines.len()
        invariant
            i <= lines@.len(),
            info == Some(known),
            all == parse::lines_of(known@),
            parse::views(lines@) == all,
            label@ == "File System Personality:"@,
            fat@ == "fat"@,
            ntfs@ == "ntfs"@,
            forall|j: int| 0 <= j < i ==> !names_kind(#[trigger] all[j]),
        decreases lines@.len() - i,
    {
        let line = &lines[i];
        assert(all[i as int] == line@);
        let start = parse::indent(line);
        assert(line@.skip(start as int) == parse::without_indent(line@));
        let named = parse::is_at(line, &label, start);
        proof {
            let rest = line@.skip(start as int);
            if parse::stands_at(line@, label@, start as int) {
                assert(rest.subrange(0, label@.len() as int) =~= line@.subrange(
                    start as int,
                    start + label@.len(),
                ));
            }
            if parse::stands_at(rest, label@, 0) {
                assert(rest.subrange(0, label@.len() as int) =~= line@.subrange(
                    start as int,
                    start + label@.len(),
                ));
            }
            assert(named == names_kind(line@));
        }
        if named {
            let mut kind: Vec<char> = Vec::new();
            assert(parse::stands_at(line@, label@, start as int));
            assert(line@.len() == line.len());
            let from: usize = start + label.len();
            let mut k: usize = from;
            let ghost rest = line@.skip(from as int);
            assert(kind@ =~= text::lowered(rest.take(0)));
            while k < line.len()
                invariant
                    from <= k <= line@.len(),
                    rest == line@.skip(from as int),
                    kind@ == text::lowered(rest.take(k - from)),
                decreases line@.len() - k,
            {
                kind.push(text::to_lower_char(line[k]));
                assert(rest[k - from] == line@[k as int]);
                assert(kind@ =~= text::lowered(rest.take(k - from + 1)));
                k = k + 1;
            }
            assert(rest.take(rest.len() as int) =~= rest);
            assert(rest =~= line@.skip(start as int).skip(label@.len() as int));
            assert(is_first_kind(known@, i as int));
            let windows = parse::contains(&kind, &fat) || parse::contains(&kind, &ntfs);
            assert(kind@ == kind_in(line@));
            assert(windows == is_windows_kind(kind_in(all[i as int])));
            assert forall|j: int| #[trigger] is_first_kind(known@, j) implies j == i by {
                if j < i {
                    assert(!names_kind(all[j]));
                }
                if i < j {
                    assert(!names_kind(all[i as int]));
                }
            }
            assert(windows == tells_of_windows(known@));
            return windows;
        }
        i = i + 1;
    }
    false
}

/// The device is the first word of the second line, whatever stands elsewhere.
pub proof fn lemma_device_is_the_first_word_of_the_second_line(
    header: Seq<char>,
    device: Seq<char>,
    space: char,
    rest: Seq<char>,
)
    requires
        !header.contains('\n'),
        device.len() > 0,
        !device.contains('\n'),
        forall|i: int| 0 <= i < device.len() ==> !parse::is_space(#[trigger] device[i]),
        parse::is_space(space),
        space != '\n',
        !rest.contains('\n'),
        rest.len() > 0,
        rest.last() != '\r',
    ensures
        device_in(header.push('\n') + (device.push(space) + rest)) == Some(device),
        device_in(header) is None,
{
    let line = device.push(space) + rest;
    assert(!line.contains('\n')) by {
        assert forall|i: int| 0 <= i < line.len() implies line[i] != '\n' by {
            if i < device.len() {
                assert(device.contains(device[i]));
            } else if i > device.len() {
                assert(line[i] == rest[i - device.len() - 1]);
                assert(rest.contains(rest[i - device.len() - 1]));
            }
        }
    }
    parse::lemma_lines_are_parted_by_line_feeds(header, line);
    parse::lemma_lines_are_parted_by_line_feeds(line, Seq::empty());
    parse::lemma_words_are_parted_by_space(device, space, rest);
    let lines = parse::lines_of(header.push('\n') + line);
    assert(lines[1] == line);
    assert(parse::words_of(line)[0] == device);
    if header.len() == 0 {
        assert(header =~= Seq::<char>::empty());
    }
}

/// The first line that names a kind decides, whatever the later ones say.
pub proof fn lemma_first_kind_decides(info: Seq<char>, i: int)
    requires
        is_first_kind(info, i),
    ensures
        tells_of_windows(info) <==> is_windows_kind(kind_in(parse::lines_of(info)[i])),
{
    let all = parse::lines_of(info);
    if tells_of_windows(info) {
        let k = choose|k: int| #[trigger]
            is_first_kind(info, k) && is_windows_kind(kind_in(all[k]));
        if k < i {
            assert(!names_kind(all[k]));
        }
        if i < k {
            assert(!names_kind(all[i]));
        }
    }
}

/// Every kind of FAT and of NTFS belongs to Windows, whatever else its name says, and no other
/// kind does.
pub proof fn lemma_fat_and_ntfs_belong_to_windows(before: Seq<char>, after: Seq<char>)
    ensures
        is_windows_kind(before + "fat"@ + after),
        is_windows_kind(before + "ntfs"@ + after),
        !parse::holds(before, "fat"@) && !parse::holds(before, "ntfs"@) ==> !is_windows_kind(
            before,
        ),
{
    parse::lemma_part_is_held_between_others(before, before, "fat"@, after);
    parse::lemma_part_is_held_between_others(before, before, "ntfs"@, after);
}

/// Without a second line, or where that holds no word, there is no device.
pub proof fn lemma_no_word_is_no_device(listing: Seq<char>)
    ensures
        parse::lines_of(listing).len() < 2 ==> device_in(listing) is None,
        parse::lines_of(listing).len() >= 2 ==> (device_in(listing) is None <==> parse::words_of(
            parse::lines_of(listing)[1],
        ).len() == 0),
        device_in(listing) matches Some(device) ==> device == parse::words_of(
            parse::lines_of(listing)[1],
        )[0],
{
}

} // verus!

use vstd::prelude::*;
use vstd::string::*;

use super::parse;
use crate::os_text;
use crate::paths::FilePath;
use crate::text;

verus! {

/// A disk image that is mounted for one run.
#[derive(Debug)]
pub struct MountedImage {
    pub mount_point: FilePath,
    pub device: String,
    pub image_path: FilePath,
}

impl MountedImage {
    /// Where the image is mounted.
    pub fn path(&self) -> (r: &FilePath)
        ensures
            *r == self.mount_point,
    {
        &self.mount_point
    }
}

/// Whether a line tells of a mounted volume: it begins with a device and ends with a mount
/// point.
pub open spec fn is_mount(line: Seq<char>) -> bool {
    let words = parse::words_of(line);
    &&& words.len() > 0
    &&& parse::stands_at(words[0], "/dev/"@, 0)
    &&& parse::holds(words.last(), "/Volumes/"@)
}

/// Whether `line` is the first line of `output` that tells of a mounted volume.
pub open spec fn is_first_mount(output: Seq<char>, line: int) -> bool {
    let lines = parse::lines_of(output);
    &&& 0 <= line < lines.len()
    &&& is_mount(lines[line])
    &&& forall|i: int| 0 <= i < line ==> !is_mount(#[trigger] lines[i])
}

/// What is said where no line tells of a mounted volume.
pub open spec fn no_mount_text(output: Seq<char>) -> Seq<char> {
    "could not find a mounted volume in hdiutil attach output:\n"@ + output
}

/// The device and the mount point of the volume that `output` tells of. One line of it
/// stands for each partition, and only that of a file system has a mount point.
pub fn parse_attach_output(output: &str) -> (r: Result<(String, FilePath), String>)
    ensures
        match r {
            Ok((device, mount)) => exists|line: int| #[trigger]
                is_first_mount(output@, line) && device@ == parse::words_of(
                    parse::lines_of(output@)[line],
                )[0] && mount.text@ == os_text::kept(
                    parse::words_of(parse::lines_of(output@)[line]).last(),
                ),
            Err(message) => {
                &&& forall|line: int| !is_first_mount(output@, line)
                &&& message@ == no_mount_text(output@)
            },
        },
{
    let chars = text::to_chars(output);
    let lines = parse::lines(&chars);
    let dev = text::to_chars("/dev/");
    let volumes = text::to_chars("/Volumes/");
    let ghost all = parse::lines_of(output@);
    let mut i: usize = 0;
    while i < lines.len()
        invariant
            i <= lines@.len(),
            all == parse::lines_of(output@),
            parse::views(lines@) == all,
            dev@ == "/dev/"@,
            volumes@ == "/Volumes/"@,
            forall|j: int| 0 <= j < i ==> !is_mount(#[trigger] all[j]),
        decreases lines@.len() - i,
    {
        let words = parse::words(&lines[i]);
        assert(all[i as int] == lines@[i as int]@);
        let ghost list = parse::words_of(all[i as int]);
        if words.len() > 0 {
            let last: usize = words.len() - 1;
            assert(list[0] == words@[0]@);
            assert(list.last() == words@[last as int]@);
            if parse::is_at(&words[0], &dev, 0) && parse::contains(&words[last], &volumes) {
                assert(is_first_mount(output@, i as int));
                return Ok(
                    (
                        text::from_chars(&words[0]),
                        FilePath::new(text::from_chars(&words[last]).as_str()),
                    ),
                );
            }
        }
        i = i + 1;
    }
    Err(text::concat2("could not find a mounted volume in hdiutil attach output:\n", output))
}

/// Of several lines that tell of a mounted volume the first counts, and only one is the first.
pub proof fn lemma_first_mount_counts(output: Seq<char>, line: int, other: int)
    requires
        is_first_mount(output, line),
        0 <= other < parse::lines_of(output).len(),
        is_mount(parse::lines_of(output)[other]),
    ensures
        line <= other,
        is_first_mount(output, other) ==> other == line,
{
    let lines = parse::lines_of(output);
    if other < line {
        assert(!is_mount(lines[other]));
    }
    if line < other && is_first_mount(output, other) {
        assert(!is_mount(lines[line]));
    }
}

} // verus!

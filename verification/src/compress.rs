use vstd::prelude::*;
use vstd::string::*;

use crate::error;
use crate::error::{classify_io_error, Error, IoFailure, IoKind};
use crate::operations::compress;
use crate::operations::compress::{resolve_format, CompressFormat};
use crate::os_text;
use crate::paths;
use crate::paths::FilePath;
use crate::text;

verus! {

/// How far the copying of one file has come.
#[derive(Debug)]
pub struct StreamProgress {
    pub bytes_done: u64,
    /// 0: the sizes of the files are not known beforehand.
    pub bytes_total: u64,
    pub files_done: u64,
    pub files_total: u64,
    pub current_file: Option<FilePath>,
}

/// The copying of one file, chunk by chunk.
#[derive(Debug)]
pub struct CopyMeter {
    /// How many bytes a chunk has at most.
    pub buffer_size: usize,
    pub current_file: FilePath,
    pub files_done: u64,
    pub files_total: u64,
    pub bytes_done: u64,
}

impl CopyMeter {
    /// Whether the two differ in nothing but the bytes that are done.
    pub open spec fn same_file(self, other: CopyMeter) -> bool {
        self == (CopyMeter { bytes_done: self.bytes_done, ..other })
    }

    /// What a read comes to.
    pub open spec fn read(self, result: Result<usize, IoFailure>) -> Result<Option<usize>, Error> {
        match result {
            Ok(n) => Ok::<Option<usize>, Error>(
                if n == 0 {
                    None
                } else {
                    Some(n)
                },
            ),
            Err(failure) => Err(error::io_error(failure, self.current_file, 0)),
        }
    }

    /// Whether `after` is the state behind the report that the writing of a chunk of `n` bytes
    /// came to `result`, and `r` what is told of it.
    pub open spec fn takes_in(
        self,
        after: CopyMeter,
        n: usize,
        result: Result<(), IoFailure>,
        r: Result<StreamProgress, Error>,
    ) -> bool {
        &&& after.same_file(self)
        &&& match result {
            Ok(_) => {
                &&& after.bytes_done == self.bytes_done + n
                &&& r == Ok::<StreamProgress, Error>(
                    StreamProgress {
                        bytes_done: after.bytes_done,
                        bytes_total: 0,
                        files_done: self.files_done,
                        files_total: self.files_total,
                        current_file: Some(self.current_file),
                    },
                )
            },
            Err(failure) => {
                &&& after.bytes_done == self.bytes_done
                &&& r == Err::<StreamProgress, Error>(
                    error::io_error(failure, self.current_file, 0),
                )
            },
        }
    }

    /// A copy that has not begun. A chunk has one byte at least.
    pub fn new(
        buffer_size: usize,
        current_file: FilePath,
        files_done: u64,
        files_total: u64,
    ) -> (r: CopyMeter)
        ensures
            r.buffer_size == if buffer_size == 0 {
                1
            } else {
                buffer_size
            },
            r.current_file == current_file,
            r.files_done == files_done,
            r.files_total == files_total,
            r.bytes_done == 0,
    {
        let buffer_size: usize = if buffer_size == 0 {
            1
        } else {
            buffer_size
        };
        CopyMeter { buffer_size, current_file, files_done, files_total, bytes_done: 0 }
    }

    /// Whether the next chunk is read: not once the copy was cancelled.
    pub fn before_read(&self, cancelled: bool) -> (r: Result<(), Error>)
        ensures
            r == if cancelled {
                Err::<(), Error>(Error::Cancelled)
            } else {
                Ok(())
            },
            r is Err <==> cancelled,
    {
        if cancelled {
            Err(Error::Cancelled)
        } else {
            Ok(())
        }
    }

    /// How many bytes are to be written after a read: `None` at the end of the file.
    pub fn after_read(&self, result: Result<usize, IoFailure>) -> (r: Result<Option<usize>, Error>)
        ensures
            r == self.read(result),
    {
        match result {
            Ok(n) => if n == 0 {
                Ok(None)
            } else {
                Ok(Some(n))
            },
            Err(failure) => Err(classify_io_error(failure, self.current_file.clone(), 0)),
        }
    }

    /// Takes in that a chunk of `n` bytes was written, and gives the event that tells of it.
    pub fn after_write(&mut self, n: usize, result: Result<(), IoFailure>) -> (r: Result<
        StreamProgress,
        Error,
    >)
        requires
            old(self).bytes_done + n <= u64::MAX,
        ensures
            old(self).takes_in(*final(self), n, result, r),
    {
        match result {
            Ok(_) => {
                self.bytes_done = self.bytes_done + n as u64;
                Ok(
                    StreamProgress {
                        bytes_done: self.bytes_done,
                        bytes_total: 0,
                        files_done: self.files_done,
                        files_total: self.files_total,
                        current_file: Some(self.current_file.clone()),
                    },
                )
            },
            Err(failure) => Err(classify_io_error(failure, self.current_file.clone(), 0)),
        }
    }
}

/// What a walk found below a directory.
#[derive(Debug)]
pub struct FoundPath {
    pub path: FilePath,
    pub is_dir: bool,
}

/// What goes into a zip archive.
#[derive(Debug)]
pub struct ZipItem {
    /// The name in the archive; that of a directory ends with `/`.
    pub name: String,
    pub path: FilePath,
    pub is_dir: bool,
    pub files_done: u64,
    pub files_total: u64,
}

/// The name in the archive of what was found below `src`. What is no Unicode in it is
/// replaced.
pub open spec fn item_name(found: FoundPath, src: FilePath) -> Seq<char> {
    let name = text::replaced(
        os_text::shown_text(paths::relative_text(found.path, src)),
        '\\',
        '/',
    );
    if found.is_dir {
        name + "/"@
    } else {
        name
    }
}

/// What was found, without the root of the walk itself.
pub open spec fn below(found: Seq<FoundPath>, src: FilePath) -> Seq<FoundPath> {
    found.filter(|f: FoundPath| f.path@ != src@)
}

/// Whether `item` stands for `found`, as number `index` of `total`.
pub open spec fn is_item(
    item: ZipItem,
    found: FoundPath,
    src: FilePath,
    index: int,
    total: int,
) -> bool {
    &&& item.name@ == item_name(found, src)
    &&& item.path == found.path
    &&& item.is_dir == found.is_dir
    &&& item.files_done == index
    &&& item.files_total == total
}

/// The items of a directory's archive: everything below the directory, in the order it was
/// found, each under its path from the directory on.
pub fn zip_items(found: Vec<FoundPath>, src: &FilePath) -> (r: Vec<ZipItem>)
    ensures
        r@.len() == below(found@, *src).len(),
        forall|i: int|
            0 <= i < r@.len() ==> is_item(
                #[trigger] r@[i],
                below(found@, *src)[i],
                *src,
                i,
                r@.len() as int,
            ),
{
    let mut inner: Vec<FoundPath> = Vec::new();
    let ghost all = found@;
    proof {
        reveal(Seq::filter);
        assert(all.take(0) =~= Seq::<FoundPath>::empty());
    }
    for f in it: found
        invariant
            it.seq() == all,
            inner@ == below(all.take(it.index()), *src),
    {
        proof {
            reveal(Seq::filter);
            let i = it.index();
            assert(all.take(i + 1).drop_last() =~= all.take(i));
            assert(all.take(i + 1).last() == f);
        }
        if !f.path.same_path(src) {
            inner.push(f);
        }
    }
    assert(all.take(all.len() as int) =~= all);
    let total: u64 = inner.len() as u64;
    let mut items: Vec<ZipItem> = Vec::with_capacity(inner.len());
    let mut i: usize = 0;
    while i < inner.len()
        invariant
            i <= inner@.len(),
            total == inner@.len(),
            items@.len() == i,
            forall|j: int|
                0 <= j < i ==> is_item(#[trigger] items@[j], inner@[j], *src, j, total as int),
        decreases inner@.len() - i,
    {
        let relative = inner[i].path.relative_to(src);
        let mut name = text::replace_char(relative.shown().as_str(), '\\', '/');
        if inner[i].is_dir {
            name = text::extend(name, "/");
        }
        items.push(
            ZipItem {
                name,
                path: inner[i].path.clone(),
                is_dir: inner[i].is_dir,
                files_done: i as u64,
                files_total: total,
            },
        );
        assert(is_item(items@[i as int], inner@[i as int], *src, i as int, total as int));
        i = i + 1;
    }
    items
}

/// The one item of a file's archive, under the last name of the file.
pub fn zip_single(src: &FilePath) -> (r: ZipItem)
    ensures
        r.name@ == match paths::last_name(src@) {
            Some(name) => os_text::shown_text(name),
            None => "file"@,
        },
        r.path == *src,
        !r.is_dir,
        r.files_done == 0,
        r.files_total == 1,
{
    let name = match src.file_name() {
        Some(name) => os_text::shown(name.as_str()),
        None => "file".to_owned(),
    };
    ZipItem { name, path: src.clone(), is_dir: false, files_done: 0, files_total: 1 }
}

/// The items of an archive, one after another.
#[derive(Debug)]
pub struct ZipRun {
    pub items: Vec<ZipItem>,
    pub next: usize,
}

impl Clone for ZipItem {
    fn clone(&self) -> (r: Self)
        ensures
            r == *self,
    {
        ZipItem {
            name: self.name.clone(),
            path: self.path.clone(),
            is_dir: self.is_dir,
            files_done: self.files_done,
            files_total: self.files_total,
        }
    }
}

impl ZipRun {
    pub open spec fn wf(self) -> bool {
        self.next <= self.items@.len()
    }

    /// Whether `r` is what is written next, and `after` the state behind it.
    pub open spec fn hands_out(
        self,
        after: ZipRun,
        cancelled: bool,
        r: Result<Option<ZipItem>, Error>,
    ) -> bool {
        &&& after.items == self.items
        &&& if self.next == self.items@.len() {
            r == Ok::<Option<ZipItem>, Error>(None) && after.next == self.next
        } else if cancelled {
            r == Err::<Option<ZipItem>, Error>(Error::Cancelled) && after.next == self.next
        } else {
            r == Ok::<Option<ZipItem>, Error>(Some(self.items@[self.next as int])) && after.next
                == self.next + 1
        }
    }

    /// An archive of which nothing is written.
    pub fn new(items: Vec<ZipItem>) -> (r: ZipRun)
        ensures
            r.wf(),
            r.items == items,
            r.next == 0,
    {
        ZipRun { items, next: 0 }
    }

    /// The item to be written next, or `None` where all are written. Nothing more is written
    /// once the compression was cancelled.
    pub fn next_item(&mut self, cancelled: bool) -> (r: Result<Option<ZipItem>, Error>)
        requires
            old(self).wf(),
        ensures
            final(self).wf(),
            old(self).hands_out(*final(self), cancelled, r),
    {
        if self.next == self.items.len() {
            return Ok(None);
        }
        if cancelled {
            return Err(Error::Cancelled);
        }
        let item = self.items[self.next].clone();
        assert(self.items@.len() == self.items.len());
        self.next = self.next + 1;
        Ok(Some(item))
    }
}

/// Maps a failure to list the source to the engine's error.
pub fn classify_listing_error(failure: Option<IoFailure>, path: Option<FilePath>) -> (r: Error)
    ensures
        error::is_walk_error(r, failure, path, "walk error with no underlying io::Error"@),
{
    error::classify_walk_failure(failure, path, "walk error with no underlying io::Error")
}

/// Settings of a compression in one stream.
#[derive(Debug)]
pub struct CompressBuilder {
    pub src: FilePath,
    pub dst: FilePath,
    pub format: Option<CompressFormat>,
    pub buffer_size: usize,
}

impl CompressBuilder {
    pub fn new(src: FilePath, dst: FilePath, buffer_size: usize) -> (r: CompressBuilder)
        ensures
            r == (CompressBuilder { src, dst, format: None, buffer_size }),
    {
        CompressBuilder { src, dst, format: None, buffer_size }
    }

    /// The format, whatever the destination's extension is.
    pub fn format(self, format: CompressFormat) -> (r: CompressBuilder)
        ensures
            r == (CompressBuilder { format: Some(format), ..self }),
    {
        CompressBuilder { format: Some(format), ..self }
    }

    /// The format to be used.
    pub open spec fn chosen(self, src_is_dir: bool) -> Result<CompressFormat, Error> {
        let format = match self.format {
            Some(format) => Some(format),
            None => compress::format_of(paths::extension_of(self.dst@)),
        };
        match format {
            None => Err::<CompressFormat, Error>(Error::UnknownCompressFormat { path: self.dst }),
            Some(format) => if format == CompressFormat::Gzip && src_is_dir {
                Err(Error::GzipRequiresFile { path: self.src })
            } else {
                Ok(format)
            },
        }
    }

    /// The format to be used, where `src_is_dir` says whether the source is a directory: the
    /// one that was asked for, or else the one that the destination's extension stands for.
    pub fn chosen_format(&self, src_is_dir: bool) -> (r: Result<CompressFormat, Error>)
        ensures
            r == self.chosen(src_is_dir),
    {
        match resolve_format(self.format, &self.dst) {
            Err(error) => Err(error),
            Ok(format) => match format {
                CompressFormat::Gzip if src_is_dir => Err(
                    Error::GzipRequiresFile { path: self.src.clone() },
                ),
                _ => Ok(format),
            },
        }
    }
}

/// Settings of a decompression.
#[derive(Debug)]
pub struct DecompressBuilder {
    pub src: FilePath,
    pub dst: FilePath,
    pub format: Option<CompressFormat>,
    pub buffer_size: usize,
}

impl DecompressBuilder {
    pub fn new(src: FilePath, dst: FilePath, buffer_size: usize) -> (r: DecompressBuilder)
        ensures
            r == (DecompressBuilder { src, dst, format: None, buffer_size }),
    {
        DecompressBuilder { src, dst, format: None, buffer_size }
    }

    /// The format, whatever the source's extension is.
    pub fn format(self, format: CompressFormat) -> (r: DecompressBuilder)
        ensures
            r == (DecompressBuilder { format: Some(format), ..self }),
    {
        DecompressBuilder { format: Some(format), ..self }
    }

    /// The format to be used.
    pub open spec fn chosen(self) -> Result<CompressFormat, Error> {
        match self.format {
            Some(format) => Ok::<CompressFormat, Error>(format),
            None => match compress::format_of(paths::extension_of(self.src@)) {
                Some(format) => Ok(format),
                None => Err(Error::UnknownCompressFormat { path: self.src }),
            },
        }
    }

    /// The format to be used: the one that was asked for, or else the one that the source's
    /// extension stands for.
    pub fn chosen_format(&self) -> (r: Result<CompressFormat, Error>)
        ensures
            r == self.chosen(),
    {
        resolve_format(self.format, &self.src)
    }
}

/// Two files that stand under one name in an archive are the same file, unless a name holds
/// a backslash or is no Unicode.
pub proof fn lemma_one_name_is_one_file(a: FoundPath, b: FoundPath, src: FilePath)
    requires
        src.text@.len() > 0,
        paths::stripped(a.path@, src@) is Some,
        paths::stripped(b.path@, src@) is Some,
        !a.is_dir,
        !b.is_dir,
        os_text::is_text(paths::relative_text(a.path, src)),
        os_text::is_text(paths::relative_text(b.path, src)),
        os_text::unicode_of(paths::relative_text(a.path, src)) matches Some(name)
            && !name.contains('\\'),
        os_text::unicode_of(paths::relative_text(b.path, src)) matches Some(name)
            && !name.contains('\\'),
        item_name(a, src) == item_name(b, src),
    ensures
        a.path@ == b.path@,
{
    let x = paths::relative_text(a.path, src);
    let y = paths::relative_text(b.path, src);
    lemma_nothing_replaced(os_text::unicode_of(x)->0);
    lemma_nothing_replaced(os_text::unicode_of(y)->0);
    os_text::lemma_one_text_for_characters(x, y);
    paths::lemma_stripped_injective(a.path, b.path, src);
}

proof fn lemma_nothing_replaced(name: Seq<char>)
    requires
        !name.contains('\\'),
    ensures
        text::replaced(name, '\\', '/') == name,
{
    assert forall|i: int| 0 <= i < name.len() implies text::replaced(name, '\\', '/')[i]
        == name[i] by {
        assert(name.contains(name[i]));
    }
    assert(text::replaced(name, '\\', '/') =~= name);
}

/// A file ends where a read gives no byte and nowhere else; any other count is written in
/// full, and a failure is told at the file, or as one of a full disk.
pub proof fn lemma_every_byte_read_is_written(meter: CopyMeter, result: Result<usize, IoFailure>)
    ensures
        meter.read(result) is Ok <==> result is Ok,
        meter.read(result) matches Ok(None) ==> result == Ok::<usize, IoFailure>(0),
        meter.read(result) matches Ok(Some(n)) ==> n > 0 && result == Ok::<usize, IoFailure>(n),
        meter.read(result) matches Err(error) ==> (result->Err_0.kind == IoKind::StorageFull
            <==> error is NoSpace) && (error is NoSpace || error::error_path(error)
            == meter.current_file.text@),
{
}

/// What is reported as done grows by exactly the bytes that were written; a failure adds
/// nothing and is told at the file, or as one of a full disk.
pub proof fn lemma_bytes_done_are_those_written(
    before: CopyMeter,
    after: CopyMeter,
    n: usize,
    result: Result<(), IoFailure>,
    r: Result<StreamProgress, Error>,
)
    requires
        before.takes_in(after, n, result, r),
    ensures
        r is Ok <==> result is Ok,
        r is Ok ==> after.bytes_done - before.bytes_done == n && r->Ok_0.bytes_done
            == after.bytes_done && r->Ok_0.files_done == before.files_done && r->Ok_0.files_total
            == before.files_total && r->Ok_0.current_file == Some(before.current_file),
        r is Err ==> after.bytes_done == before.bytes_done && (result->Err_0.kind
            == IoKind::StorageFull <==> r->Err_0 is NoSpace) && (r->Err_0 is NoSpace
            || error::error_path(r->Err_0) == before.current_file.text@),
        after.current_file == before.current_file,
        after.buffer_size == before.buffer_size,
{
}

/// The items are written in order, each once; a cancelled run fails only where one was still
/// to come.
pub proof fn lemma_items_are_written_in_order(
    before: ZipRun,
    after: ZipRun,
    cancelled: bool,
    r: Result<Option<ZipItem>, Error>,
)
    requires
        before.wf(),
        before.hands_out(after, cancelled, r),
    ensures
        r is Err <==> cancelled && before.next < before.items@.len(),
        r is Err ==> r->Err_0 is Cancelled,
        r matches Ok(None) ==> before.next == before.items@.len(),
        r matches Ok(Some(item)) ==> !cancelled && item == before.items@[before.next as int]
            && after.next == before.next + 1,
        !(r matches Ok(Some(_))) ==> after.next == before.next,
        after.items == before.items,
{
}

/// No name in an archive holds a backslash, and that of a directory is that of a file at the
/// same path with `/` behind it.
pub proof fn lemma_names_are_separated_by_slashes(dir: FoundPath, file: FoundPath, src: FilePath)
    requires
        dir.is_dir,
        !file.is_dir,
        dir.path == file.path,
    ensures
        item_name(dir, src) == item_name(file, src).push('/'),
        !item_name(dir, src).contains('\\'),
        !item_name(file, src).contains('\\'),
{
    reveal_strlit("/");
    assert("/"@ =~= seq!['/']);
    let name = item_name(file, src);
    assert(name + "/"@ =~= name.push('/'));
    assert forall|i: int| 0 <= i < name.len() implies name[i] != '\\' by {}
    assert forall|i: int| 0 <= i < item_name(dir, src).len() implies item_name(dir, src)[i]
        != '\\' by {
        if i < name.len() {
            assert(item_name(dir, src)[i] == name[i]);
        }
    }
}

/// Everything that was found goes into the archive but the root of the walk.
pub proof fn lemma_only_the_root_is_left_out(found: Seq<FoundPath>, src: FilePath, f: FoundPath)
    ensures
        below(found, src).contains(f) <==> found.contains(f) && f.path@ != src@,
        below(found, src).len() <= found.len(),
{
    let keep = |f: FoundPath| f.path@ != src@;
    found.lemma_filter_len(keep);
    if found.contains(f) && keep(f) {
        let i = choose|i: int| 0 <= i < found.len() && found[i] == f;
        found.lemma_filter_contains(keep, i);
    }
    if below(found, src).contains(f) {
        found.lemma_filter_contains_rev(keep, f);
        let i = choose|i: int| 0 <= i < found.filter(keep).len() && found.filter(keep)[i] == f;
        found.lemma_filter_pred(keep, i);
    }
}

/// The format that was asked for is used whatever the extension is. A directory is never
/// compressed as gzip, which holds one file, but everything else that has a format is.
pub proof fn lemma_chosen_format_wins(builder: CompressBuilder, src_is_dir: bool)
    ensures
        builder.chosen(src_is_dir) matches Ok(format) ==> !(format == CompressFormat::Gzip
            && src_is_dir),
        builder.format is Some && !src_is_dir ==> builder.chosen(src_is_dir) == Ok::<
            CompressFormat,
            Error,
        >(builder.format->0),
        builder.format == Some(CompressFormat::Zip) ==> builder.chosen(src_is_dir) == Ok::<
            CompressFormat,
            Error,
        >(CompressFormat::Zip),
        builder.format == Some(CompressFormat::Gzip) && src_is_dir ==> builder.chosen(src_is_dir)
            == Err::<CompressFormat, Error>(Error::GzipRequiresFile { path: builder.src }),
        builder.format is None && compress::format_of(paths::extension_of(builder.dst@)) is None
            ==> builder.chosen(src_is_dir) == Err::<CompressFormat, Error>(
            Error::UnknownCompressFormat { path: builder.dst },
        ),
        builder.format is None && !src_is_dir ==> (builder.chosen(src_is_dir) is Ok
            <==> compress::format_of(paths::extension_of(builder.dst@)) is Some),
{
}

/// An archive is read back in the format that it was written in, where that was chosen by the
/// extension.
pub proof fn lemma_archive_is_read_as_it_was_written(
    writing: CompressBuilder,
    src_is_dir: bool,
    reading: DecompressBuilder,
)
    requires
        writing.chosen(src_is_dir) is Ok,
        writing.format == reading.format,
        writing.dst == reading.src,
    ensures
        reading.chosen() == writing.chosen(src_is_dir),
{
}

/// An item is what was found, under its name in the archive, with its place among all of them.
pub proof fn lemma_item_is_what_was_found(
    item: ZipItem,
    found: FoundPath,
    src: FilePath,
    index: int,
    total: int,
)
    requires
        is_item(item, found, src, index, total),
        index < total,
    ensures
        item.path == found.path,
        item.is_dir == found.is_dir,
        item.files_done == index,
        item.files_done < item.files_total,
        item.is_dir ==> item.name@.len() > 0 && item.name@.last() == '/',
        item.name@ == item_name(found, src),
{
    reveal_strlit("/");
}

} // verus!

//! The files of a torrent, laid end to end, and the ranges of bytes in them.
use crate::metainfo::File;
use crate::wire::{copy_range, push_bytes};
use vstd::prelude::*;

verus! {

/// A file of a torrent.
#[derive(Debug)]
pub struct FileInfo {
    /// Directories and name, the outermost directory first.
    pub path: Vec<String>,
    pub length: u32,
    /// Offset from the start of the first file, in bytes.
    pub offset: u32,
}

/// A range of bytes inside one file.
#[derive(Debug, Clone, Copy, PartialEq, Eq, Structural)]
pub struct FileSection {
    /// Which file.
    pub file: usize,
    /// Offset from the start of that file.
    pub offset: u32,
    pub length: u32,
}

/// Bytes to be put into one file.
#[derive(Debug)]
pub struct FileWrite {
    /// Which file.
    pub file: usize,
    /// Offset from the start of that file.
    pub offset: u32,
    pub bytes: Vec<u8>,
}

/// What a `FileWrite` says.
pub struct WriteView {
    pub file: int,
    pub offset: u32,
    pub bytes: Seq<u8>,
}

impl View for FileWrite {
    type V = WriteView;

    open spec fn view(&self) -> WriteView {
        WriteView { file: self.file as int, offset: self.offset, bytes: self.bytes@ }
    }
}

/// What each write says.
pub open spec fn writes_of(writes: Seq<FileWrite>) -> Seq<WriteView> {
    Seq::new(writes.len(), |i: int| writes[i]@)
}

/// Offset of the first byte behind a file.
pub open spec fn file_end(file: FileInfo) -> int {
    file.offset + file.length
}

/// Number of bytes in all files together.
pub open spec fn total_length(files: Seq<FileInfo>) -> int
    decreases files.len(),
{
    if files.len() == 0 {
        0
    } else {
        total_length(files.drop_last()) + files.last().length
    }
}

/// Whether each file starts where the one before it ends, and offsets fit a `u32`.
pub open spec fn end_to_end(files: Seq<FileInfo>) -> bool {
    &&& total_length(files) <= u32::MAX
    &&& forall|i: int|
        0 <= i < files.len() ==> (#[trigger] files[i]).offset == total_length(files.take(i))
}

/// Whether a range of bytes reaches into a file. A range that ends where the file starts does
/// not, nor does one that starts where it ends.
pub open spec fn reaches_into(file: FileInfo, start: int, end: int) -> bool {
    start < file_end(file) && file.offset < end
}

/// The common part of a range of bytes and the file with index `index`.
pub open spec fn common_part(file: FileInfo, index: int, start: int, end: int) -> FileSection {
    let from = if file.offset > start {
        file.offset as int
    } else {
        start
    };
    let to = if file_end(file) < end {
        file_end(file)
    } else {
        end
    };
    FileSection {
        file: index as usize,
        offset: (from - file.offset) as u32,
        length: (to - from) as u32,
    }
}

/// The parts of the range from `start` to `end` that lie in the files, file by file.
pub open spec fn sections(files: Seq<FileInfo>, start: int, end: int) -> Seq<FileSection>
    decreases files.len(),
{
    if files.len() == 0 {
        Seq::empty()
    } else {
        let before = sections(files.drop_last(), start, end);
        if reaches_into(files.last(), start, end) {
            before.push(common_part(files.last(), files.len() - 1, start, end))
        } else {
            before
        }
    }
}

/// Number of bytes in some sections together.
pub open spec fn covered(parts: Seq<FileSection>) -> int
    decreases parts.len(),
{
    if parts.len() == 0 {
        0
    } else {
        covered(parts.drop_last()) + parts.last().length
    }
}

/// The writes that put `bytes`, from its start on, into one section after the other.
pub open spec fn spread(parts: Seq<FileSection>, bytes: Seq<u8>) -> Seq<WriteView>
    decreases parts.len(),
{
    if parts.len() == 0 {
        Seq::empty()
    } else {
        spread(parts.drop_last(), bytes).push(
            WriteView {
                file: parts.last().file as int,
                offset: parts.last().offset,
                bytes: bytes.subrange(covered(parts.drop_last()), covered(parts)),
            },
        )
    }
}

/// The files of a torrent laid end to end.
pub open spec fn laid_out(files: Seq<File>, infos: Seq<FileInfo>) -> bool {
    &&& infos.len() == files.len()
    &&& end_to_end(infos)
    &&& forall|i: int|
        0 <= i < infos.len() ==> (#[trigger] infos[i]).length == files[i].length
            && crate::metainfo::texts_of(infos[i].path@) == crate::metainfo::texts_of(
            files[i].path@,
        )
}

/// Number of bytes in all files of a torrent file together.
pub open spec fn sum_of_lengths(files: Seq<File>) -> int
    decreases files.len(),
{
    if files.len() == 0 {
        0
    } else {
        sum_of_lengths(files.drop_last()) + files.last().length
    }
}

pub proof fn lemma_sum_of_lengths_grows(files: Seq<File>, k: int)
    requires
        0 <= k <= files.len(),
    ensures
        0 <= sum_of_lengths(files.take(k)) <= sum_of_lengths(files),
    decreases files.len() - k, k,
{
    lemma_sum_nonnegative(files.take(k));
    if k < files.len() {
        assert(files.take(k + 1).drop_last() =~= files.take(k));
        lemma_sum_of_lengths_grows(files, k + 1);
    } else {
        assert(files.take(k) =~= files);
    }
}

proof fn lemma_sum_nonnegative(files: Seq<File>)
    ensures
        0 <= sum_of_lengths(files),
    decreases files.len(),
{
    if files.len() > 0 {
        lemma_sum_nonnegative(files.drop_last());
    }
}

/// The texts of `texts`, copied.
fn copy_texts(texts: &Vec<String>) -> (out: Vec<String>)
    ensures
        crate::metainfo::texts_of(out@) == crate::metainfo::texts_of(texts@),
{
    let n: usize = texts.len();
    let mut out: Vec<String> = Vec::new();
    let mut i: usize = 0;
    while i < n
        invariant
            i <= n == texts@.len(),
            out@.len() == i,
            forall|j: int| 0 <= j < i ==> out@[j]@ == (#[trigger] texts@[j])@,
        decreases n - i,
    {
        out.push(texts[i].clone());
        i = i + 1;
    }
    assert(crate::metainfo::texts_of(out@) =~= crate::metainfo::texts_of(texts@));
    out
}

/// Lays the files of a torrent end to end.
pub fn lay_out(files: &Vec<File>) -> (infos: Vec<FileInfo>)
    requires
        sum_of_lengths(files@) <= u32::MAX,
    ensures
        laid_out(files@, infos@),
        total_length(infos@) == sum_of_lengths(files@),
{
    let n: usize = files.len();
    let mut infos: Vec<FileInfo> = Vec::new();
    let mut total: u32 = 0;
    let mut i: usize = 0;
    while i < n
        invariant
            i <= n == files@.len(),
            sum_of_lengths(files@) <= u32::MAX,
            total == sum_of_lengths(files@.take(i as int)),
            total == total_length(infos@),
            infos@.len() == i,
            laid_out(files@.take(i as int), infos@),
        decreases n - i,
    {
        proof {
            lemma_sum_of_lengths_grows(files@, i + 1);
            assert(files@.take(i + 1).drop_last() =~= files@.take(i as int));
        }
        let ghost before = infos@;
        let length: u32 = files[i].length;
        infos.push(FileInfo { path: copy_texts(&files[i].path), length, offset: total });
        total = total + length;
        i = i + 1;
        proof {
            assert(infos@.drop_last() =~= before);
            assert forall|j: int| 0 <= j < infos@.len() implies (#[trigger] infos@[j]).offset
                == total_length(infos@.take(j)) && infos@[j].length == files@.take(
                i as int,
            )[j].length && crate::metainfo::texts_of(infos@[j].path@)
                == crate::metainfo::texts_of(files@.take(i as int)[j].path@) by {
                assert(infos@.take(j) =~= before.take(j));
                if j < before.len() {
                    assert(infos@[j] == before[j]);
                    assert(files@.take(i - 1)[j] == files@.take(i as int)[j]);
                } else {
                    assert(before.take(j) =~= before);
                }
            }
        }
    }
    assert(files@.take(n as int) =~= files@);
    infos
}

/// The parts of the `length` bytes at `offset` that lie in the files, file by file.
pub fn get_file_sections(files: &Vec<FileInfo>, offset: u32, length: u32) -> (parts: Vec<
    FileSection,
>)
    requires
        offset + length <= u32::MAX,
        forall|i: int| 0 <= i < files@.len() ==> file_end(#[trigger] files@[i]) <= u32::MAX,
    ensures
        parts@ == sections(files@, offset as int, offset + length),
{
    let start: u32 = offset;
    let end: u32 = offset + length;
    let n: usize = files.len();
    let mut parts: Vec<FileSection> = Vec::new();
    let mut i: usize = 0;
    while i < n
        invariant
            i <= n == files@.len(),
            start == offset,
            end == offset + length,
            forall|i: int| 0 <= i < files@.len() ==> file_end(#[trigger] files@[i]) <= u32::MAX,
            parts@ == sections(files@.take(i as int), start as int, end as int),
        decreases n - i,
    {
        let ghost next = files@.take(i + 1);
        assert(next.drop_last() =~= files@.take(i as int));
        assert(next.last() == files@[i as int]);
        let file_start: u32 = files[i].offset;
        let file_stop: u32 = file_start + files[i].length;
        if !(start >= file_stop || end <= file_start) {
            let from: u32 = if file_start > start {
                file_start
            } else {
                start
            };
            let to: u32 = if file_stop < end {
                file_stop
            } else {
                end
            };
            parts.push(FileSection { file: i, offset: from - file_start, length: to - from });
        }
        i = i + 1;
    }
    assert(files@.take(n as int) =~= files@);
    parts
}

/// The writes that put `bytes` into `parts`, one section after the other.
pub fn spread_bytes(parts: &Vec<FileSection>, bytes: &Vec<u8>) -> (writes: Vec<FileWrite>)
    requires
        covered(parts@) <= bytes@.len(),
    ensures
        writes_of(writes@) == spread(parts@, bytes@),
{
    let n: usize = parts.len();
    let mut writes: Vec<FileWrite> = Vec::new();
    let mut at: usize = 0;
    let mut i: usize = 0;
    assert(writes_of(writes@) =~= Seq::<WriteView>::empty());
    while i < n
        invariant
            i <= n == parts@.len(),
            covered(parts@) <= bytes@.len(),
            at == covered(parts@.take(i as int)),
            writes_of(writes@) == spread(parts@.take(i as int), bytes@),
        decreases n - i,
    {
        let ghost next = parts@.take(i + 1);
        proof {
            assert(next.drop_last() =~= parts@.take(i as int));
            assert(next.last() == parts@[i as int]);
            lemma_covered_grows(parts@, i + 1);
        }
        assert(bytes.len() == bytes@.len());
        let part: FileSection = parts[i];
        let chunk: Vec<u8> = copy_range(bytes.as_slice(), at, at + part.length as usize);
        let ghost before = writes_of(writes@);
        writes.push(FileWrite { file: part.file, offset: part.offset, bytes: chunk });
        at = at + part.length as usize;
        i = i + 1;
        assert(writes_of(writes@) =~= before.push(writes@.last()@));
    }
    assert(parts@.take(n as int) =~= parts@);
    writes
}

/// Byte strings one after the other.
pub open spec fn joined_parts(parts: Seq<Vec<u8>>) -> Seq<u8>
    decreases parts.len(),
{
    if parts.len() == 0 {
        Seq::empty()
    } else {
        joined_parts(parts.drop_last()) + parts.last()@
    }
}

/// Joins what was read from the sections of a range.
pub fn join_parts(parts: &Vec<Vec<u8>>) -> (bytes: Vec<u8>)
    ensures
        bytes@ == joined_parts(parts@),
{
    let n: usize = parts.len();
    let mut bytes: Vec<u8> = Vec::new();
    let mut i: usize = 0;
    while i < n
        invariant
            i <= n == parts@.len(),
            bytes@ == joined_parts(parts@.take(i as int)),
        decreases n - i,
    {
        assert(parts@.take(i + 1).drop_last() =~= parts@.take(i as int));
        push_bytes(&mut bytes, parts[i].as_slice());
        i = i + 1;
    }
    assert(parts@.take(n as int) =~= parts@);
    bytes
}

proof fn lemma_covered_grows(parts: Seq<FileSection>, k: int)
    requires
        0 <= k <= parts.len(),
    ensures
        0 <= covered(parts.take(k)) <= covered(parts),
    decreases parts.len() - k, k,
{
    lemma_covered_nonnegative(parts.take(k));
    if k < parts.len() {
        assert(parts.take(k + 1).drop_last() =~= parts.take(k));
        lemma_covered_grows(parts, k + 1);
    } else {
        assert(parts.take(k) =~= parts);
    }
}

proof fn lemma_covered_nonnegative(parts: Seq<FileSection>)
    ensures
        0 <= covered(parts),
    decreases parts.len(),
{
    if parts.len() > 0 {
        lemma_covered_nonnegative(parts.drop_last());
    }
}

/// The byte of a file at `i`. Where nothing has been written yet a file reads as zeros.
pub open spec fn byte_at(file: Seq<u8>, i: int) -> u8 {
    if 0 <= i < file.len() {
        file[i]
    } else {
        0
    }
}

/// What reading a section gives: as many bytes as it is long.
pub open spec fn read_section(disk: Seq<Seq<u8>>, part: FileSection) -> Seq<u8> {
    Seq::new(part.length as nat, |i: int| byte_at(disk[part.file as int], part.offset + i))
}

/// What reading some sections gives, one after the other.
pub open spec fn read_sections(disk: Seq<Seq<u8>>, parts: Seq<FileSection>) -> Seq<u8>
    decreases parts.len(),
{
    if parts.len() == 0 {
        Seq::empty()
    } else {
        read_sections(disk, parts.drop_last()) + read_section(disk, parts.last())
    }
}

/// A file after `bytes` have been written at `offset`; it grows as far as needed.
pub open spec fn written(file: Seq<u8>, offset: int, bytes: Seq<u8>) -> Seq<u8> {
    if bytes.len() == 0 {
        file
    } else {
        Seq::new(
            if file.len() >= offset + bytes.len() {
                file.len()
            } else {
                (offset + bytes.len()) as nat
            },
            |i: int|
                if offset <= i < offset + bytes.len() {
                    bytes[i - offset]
                } else {
                    byte_at(file, i)
                },
        )
    }
}

/// The files after some writes, done in order.
pub open spec fn after_writes(disk: Seq<Seq<u8>>, writes: Seq<WriteView>) -> Seq<Seq<u8>>
    decreases writes.len(),
{
    if writes.len() == 0 {
        disk
    } else {
        let before = after_writes(disk, writes.drop_last());
        let w = writes.last();
        before.update(w.file, written(before[w.file], w.offset as int, w.bytes))
    }
}

/// The contents of all files, one after the other.
pub open spec fn contents(files: Seq<FileInfo>, disk: Seq<Seq<u8>>) -> Seq<u8>
    decreases files.len(),
{
    if files.len() == 0 {
        Seq::empty()
    } else {
        contents(files.drop_last(), disk) + Seq::new(
            files.last().length as nat,
            |i: int| byte_at(disk[files.len() - 1], i),
        )
    }
}

/// `n`, but no more than `bound`.
pub open spec fn at_most(n: int, bound: int) -> int {
    if n < bound {
        n
    } else {
        bound
    }
}

proof fn lemma_total_nonnegative(files: Seq<FileInfo>)
    ensures
        0 <= total_length(files),
    decreases files.len(),
{
    if files.len() > 0 {
        lemma_total_nonnegative(files.drop_last());
    }
}

pub proof fn lemma_contents_length(files: Seq<FileInfo>, disk: Seq<Seq<u8>>)
    ensures
        contents(files, disk).len() == total_length(files),
    decreases files.len(),
{
    if files.len() > 0 {
        lemma_contents_length(files.drop_last(), disk);
    }
}

proof fn lemma_end_to_end_prefix(files: Seq<FileInfo>)
    requires
        end_to_end(files),
        files.len() > 0,
    ensures
        end_to_end(files.drop_last()),
        files.last().offset == total_length(files.drop_last()),
        file_end(files.last()) == total_length(files),
        0 <= total_length(files.drop_last()),
{
    lemma_total_nonnegative(files.drop_last());
    assert(files.take(files.len() - 1) =~= files.drop_last());
    assert forall|i: int| 0 <= i < files.drop_last().len() implies (
    #[trigger] files.drop_last()[i]).offset == total_length(files.drop_last().take(i)) by {
        assert(files.drop_last().take(i) =~= files.take(i));
        assert(files.drop_last()[i] == files[i]);
    }
}

/// No file of a torrent ends past the range of offsets.
pub proof fn lemma_file_ends_fit(files: Seq<FileInfo>)
    requires
        end_to_end(files),
    ensures
        forall|i: int| 0 <= i < files.len() ==> file_end(#[trigger] files[i]) <= total_length(files),
        0 <= total_length(files),
    decreases files.len(),
{
    if files.len() > 0 {
        lemma_end_to_end_prefix(files);
        lemma_file_ends_fit(files.drop_last());
        assert forall|i: int| 0 <= i < files.len() implies file_end(#[trigger] files[i])
            <= total_length(files) by {
            if i < files.len() - 1 {
                assert(files[i] == files.drop_last()[i]);
            }
        }
    }
}

/// The sections of a range name existing files, in order, and cover exactly the bytes of the
/// range that the files have.
pub proof fn law_sections_cover_range(files: Seq<FileInfo>, start: int, end: int)
    requires
        end_to_end(files),
        files.len() <= usize::MAX,
        0 <= start <= end,
    ensures
        covered(sections(files, start, end)) == at_most(end, total_length(files)) - at_most(
            start,
            total_length(files),
        ),
        forall|i: int|
            0 <= i < sections(files, start, end).len() ==> (#[trigger] sections(
                files,
                start,
                end,
            )[i]).file < files.len(),
        forall|i: int, j: int|
            0 <= i < j < sections(files, start, end).len() ==> (#[trigger] sections(
                files,
                start,
                end,
            )[i]).file < (#[trigger] sections(files, start, end)[j]).file,
    decreases files.len(),
{
    if files.len() > 0 {
        let shorter = files.drop_last();
        lemma_end_to_end_prefix(files);
        law_sections_cover_range(shorter, start, end);
        let before = sections(shorter, start, end);
        let parts = sections(files, start, end);
        if reaches_into(files.last(), start, end) {
            assert(parts.drop_last() =~= before);
            assert forall|i: int| 0 <= i < parts.len() implies (#[trigger] parts[i]).file
                < files.len() by {
                if i < before.len() {
                    assert(parts[i] == before[i]);
                }
            }
            assert forall|i: int, j: int| 0 <= i < j < parts.len() implies (
            #[trigger] parts[i]).file < (#[trigger] parts[j]).file by {
                assert(parts[i] == before[i]);
                if j < before.len() {
                    assert(parts[j] == before[j]);
                }
            }
        }
    }
}

/// Where each section was read, what was read is joined to what the sections hold.
pub proof fn law_joined_parts_are_what_was_read(
    disk: Seq<Seq<u8>>,
    parts: Seq<FileSection>,
    held: Seq<Vec<u8>>,
)
    requires
        held.len() == parts.len(),
        forall|i: int|
            0 <= i < parts.len() ==> (#[trigger] held[i])@ == read_section(disk, parts[i]),
    ensures
        joined_parts(held) == read_sections(disk, parts),
    decreases parts.len(),
{
    if parts.len() > 0 {
        assert forall|i: int| 0 <= i < parts.len() - 1 implies (
        #[trigger] held.drop_last()[i])@ == read_section(disk, parts.drop_last()[i]) by {
            assert(held[i]@ == read_section(disk, parts[i]));
        }
        law_joined_parts_are_what_was_read(disk, parts.drop_last(), held.drop_last());
        assert(held.last()@ == read_section(disk, parts.last()));
    }
}

/// Reading the sections of a range gives the bytes that the files, laid end to end, have there.
pub proof fn law_sections_read_contents(
    files: Seq<FileInfo>,
    disk: Seq<Seq<u8>>,
    start: int,
    end: int,
)
    requires
        end_to_end(files),
        files.len() <= usize::MAX,
        0 <= start <= end,
    ensures
        read_sections(disk, sections(files, start, end)) == contents(files, disk).subrange(
            at_most(start, total_length(files)),
            at_most(end, total_length(files)),
        ),
    decreases files.len(),
{
    lemma_contents_length(files, disk);
    let total = total_length(files);
    let whole = contents(files, disk);
    let wanted = whole.subrange(at_most(start, total), at_most(end, total));
    if files.len() == 0 {
        assert(read_sections(disk, sections(files, start, end)) =~= wanted);
    } else {
        let shorter = files.drop_last();
        let file = files.last();
        lemma_end_to_end_prefix(files);
        lemma_contents_length(shorter, disk);
        law_sections_read_contents(shorter, disk, start, end);
        let before = sections(shorter, start, end);
        let parts = sections(files, start, end);
        if reaches_into(file, start, end) {
            let part = common_part(file, files.len() - 1, start, end);
            assert(parts.drop_last() =~= before);
            assert(read_sections(disk, parts) == read_sections(disk, before) + read_section(
                disk,
                part,
            ));
        }
        assert(read_sections(disk, parts) =~= wanted);
    }
}

#[verifier::rlimit(60)]
#[verifier::spinoff_prover]
proof fn lemma_writes_of_sections(
    files: Seq<FileInfo>,
    disk: Seq<Seq<u8>>,
    start: int,
    bytes: Seq<u8>,
)
    requires
        end_to_end(files),
        files.len() <= usize::MAX,
        files.len() <= disk.len(),
        0 <= start,
    ensures
        ({
            let parts = sections(files, start, start + bytes.len());
            let after = after_writes(disk, spread(parts, bytes));
            &&& after.len() == disk.len()
            &&& forall|j: int| files.len() <= j < disk.len() ==> after[j] == disk[j]
            &&& contents(files, after).len() == total_length(files)
            &&& contents(files, disk).len() == total_length(files)
            &&& forall|p: int|
                0 <= p < total_length(files) ==> #[trigger] contents(files, after)[p] == if start
                    <= p < start + bytes.len() {
                    bytes[p - start]
                } else {
                    contents(files, disk)[p]
                }
        }),
    decreases files.len(),
{
    let end = start + bytes.len();
    let parts = sections(files, start, end);
    let after = after_writes(disk, spread(parts, bytes));
    lemma_contents_length(files, disk);
    lemma_contents_length(files, after);
    if files.len() > 0 {
        let shorter = files.drop_last();
        let file = files.last();
        let k = files.len() - 1;
        let before_parts = sections(shorter, start, end);
        let before = after_writes(disk, spread(before_parts, bytes));
        lemma_end_to_end_prefix(files);
        lemma_writes_of_sections(shorter, disk, start, bytes);
        law_sections_cover_range(shorter, start, end);
        law_sections_cover_range(files, start, end);
        lemma_contents_length(shorter, disk);
        lemma_contents_length(shorter, before);
        lemma_contents_length(shorter, after);
        if reaches_into(file, start, end) {
            let part = common_part(file, k, start, end);
            let chunk = bytes.subrange(covered(before_parts), covered(parts));
            let w = WriteView { file: part.file as int, offset: part.offset, bytes: chunk };
            assert(parts.drop_last() =~= before_parts);
            assert(spread(parts, bytes) == spread(before_parts, bytes).push(w));
            assert(spread(parts, bytes).drop_last() =~= spread(before_parts, bytes));
            assert(after == before.update(k, written(before[k], part.offset as int, chunk)));
            lemma_contents_depend_on_files(shorter, before, after);
            assert forall|p: int| 0 <= p < total_length(files) implies #[trigger] contents(
                files,
                after,
            )[p] == if start <= p < end {
                bytes[p - start]
            } else {
                contents(files, disk)[p]
            } by {
                if p < total_length(shorter) {
                    assert(contents(files, after)[p] == contents(shorter, after)[p]);
                    assert(contents(files, disk)[p] == contents(shorter, disk)[p]);
                    assert(contents(shorter, before)[p] == if start <= p < end {
                        bytes[p - start]
                    } else {
                        contents(shorter, disk)[p]
                    });
                } else {
                    let i = p - total_length(shorter);
                    assert(contents(files, after)[p] == byte_at(after[k], i));
                    assert(contents(files, disk)[p] == byte_at(disk[k], i));
                    assert(before[k] == disk[k]);
                    assert(start <= p < end <==> part.offset <= i < part.offset + chunk.len());
                    if start <= p < end {
                        assert(chunk[i - part.offset] == bytes[p - start]);
                    }
                }
            }
        } else {
            lemma_contents_depend_on_files(shorter, before, after);
            assert forall|p: int| 0 <= p < total_length(files) implies #[trigger] contents(
                files,
                after,
            )[p] == if start <= p < end {
                bytes[p - start]
            } else {
                contents(files, disk)[p]
            } by {
                if p < total_length(shorter) {
                    assert(contents(files, after)[p] == contents(shorter, after)[p]);
                    assert(contents(files, disk)[p] == contents(shorter, disk)[p]);
                    assert(contents(shorter, before)[p] == if start <= p < end {
                        bytes[p - start]
                    } else {
                        contents(shorter, disk)[p]
                    });
                } else {
                    let i = p - total_length(shorter);
                    assert(contents(files, after)[p] == byte_at(after[k], i));
                    assert(contents(files, disk)[p] == byte_at(disk[k], i));
                }
            }
        }
    }
}

proof fn lemma_contents_depend_on_files(
    files: Seq<FileInfo>,
    a: Seq<Seq<u8>>,
    b: Seq<Seq<u8>>,
)
    requires
        forall|j: int| 0 <= j < files.len() ==> a[j] == b[j],
    ensures
        contents(files, a) == contents(files, b),
    decreases files.len(),
{
    if files.len() > 0 {
        lemma_contents_depend_on_files(files.drop_last(), a, b);
        assert(contents(files, a) =~= contents(files, b));
    }
}

/// Writing `bytes` at `start` puts them there and leaves every other byte of the torrent as it
/// was.
pub proof fn law_writes_replace_range(
    files: Seq<FileInfo>,
    disk: Seq<Seq<u8>>,
    start: int,
    bytes: Seq<u8>,
)
    requires
        end_to_end(files),
        files.len() <= usize::MAX,
        files.len() <= disk.len(),
        0 <= start,
        start + bytes.len() <= total_length(files),
    ensures
        contents(
            files,
            after_writes(disk, spread(sections(files, start, start + bytes.len()), bytes)),
        ) == contents(files, disk).take(start) + bytes + contents(files, disk).skip(
            start + bytes.len(),
        ),
{
    lemma_writes_of_sections(files, disk, start, bytes);
    let after = after_writes(disk, spread(sections(files, start, start + bytes.len()), bytes));
    let old_contents = contents(files, disk);
    assert(contents(files, after) =~= old_contents.take(start) + bytes + old_contents.skip(
        start + bytes.len(),
    ));
}

/// A read gives back what was written: after `bytes` have been written at `start`, reading
/// `length` of them from `from` on gives those bytes.
pub proof fn law_read_gives_back_write(
    files: Seq<FileInfo>,
    disk: Seq<Seq<u8>>,
    start: int,
    bytes: Seq<u8>,
    from: int,
    length: int,
)
    requires
        end_to_end(files),
        files.len() <= usize::MAX,
        files.len() <= disk.len(),
        0 <= start,
        start + bytes.len() <= total_length(files),
        0 <= from,
        0 <= length,
        from + length <= bytes.len(),
    ensures
        read_sections(
            after_writes(disk, spread(sections(files, start, start + bytes.len()), bytes)),
            sections(files, start + from, start + from + length),
        ) == bytes.subrange(from, from + length),
{
    let after = after_writes(disk, spread(sections(files, start, start + bytes.len()), bytes));
    lemma_contents_length(files, disk);
    law_writes_replace_range(files, disk, start, bytes);
    law_sections_read_contents(files, after, start + from, start + from + length);
    assert(read_sections(after, sections(files, start + from, start + from + length))
        =~= bytes.subrange(from, from + length));
}

} // verus!

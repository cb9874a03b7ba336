//! Where the bytes of a torrent lie in its files, said of one file or one byte at a time.
use crate::files::{
    covered, end_to_end, joined_parts, laid_out, law_sections_cover_range, lemma_file_ends_fit,
    sections, spread, sum_of_lengths, total_length, writes_of, FileInfo, FileSection, FileWrite,
};
use crate::metainfo::{texts_of, File, FileView, MetaInfo};
use crate::peer_message::BlockInfo;
use crate::pieces::{bytes_in, missing_count};
use crate::torrent::{files_are_named, size_fits, sum_of_listed};
use vstd::prelude::*;

verus! {

/// The files of a torrent have, taken together, as many bytes as their parts have.
pub proof fn law_lengths_add_up(a: Seq<FileInfo>, b: Seq<FileInfo>, file: FileInfo)
    ensures
        total_length(a + b) == total_length(a) + total_length(b),
        total_length(seq![file]) == file.length,
    decreases b.len(),
{
    let one = seq![file];
    assert(one.drop_last() =~= Seq::<FileInfo>::empty());
    assert(total_length(one.drop_last()) == 0);
    if b.len() == 0 {
        assert(a + b =~= a);
    } else {
        assert((a + b).drop_last() =~= a + b.drop_last());
        law_lengths_add_up(a, b.drop_last(), file);
    }
}

/// So have the files that a torrent file lists.
pub proof fn law_listed_lengths_add_up(a: Seq<File>, b: Seq<File>, file: File)
    ensures
        sum_of_lengths(a + b) == sum_of_lengths(a) + sum_of_lengths(b),
        sum_of_lengths(seq![file]) == file.length,
    decreases b.len(),
{
    let one = seq![file];
    assert(one.drop_last() =~= Seq::<File>::empty());
    assert(sum_of_lengths(one.drop_last()) == 0);
    if b.len() == 0 {
        assert(a + b =~= a);
    } else {
        assert((a + b).drop_last() =~= a + b.drop_last());
        law_listed_lengths_add_up(a, b.drop_last(), file);
    }
}

/// So have what these files stand for.
pub proof fn law_described_lengths_add_up(a: Seq<FileView>, b: Seq<FileView>, file: FileView)
    ensures
        sum_of_listed(a + b) == sum_of_listed(a) + sum_of_listed(b),
        sum_of_listed(seq![file]) == file.length,
    decreases b.len(),
{
    let one = seq![file];
    assert(one.drop_last() =~= Seq::<FileView>::empty());
    assert(sum_of_listed(one.drop_last()) == 0);
    if b.len() == 0 {
        assert(a + b =~= a);
    } else {
        assert((a + b).drop_last() =~= a + b.drop_last());
        law_described_lengths_add_up(a, b.drop_last(), file);
    }
}

/// Sections cover, taken together, as many bytes as their parts do.
pub proof fn law_sections_add_up(a: Seq<FileSection>, b: Seq<FileSection>, part: FileSection)
    ensures
        covered(a + b) == covered(a) + covered(b),
        covered(seq![part]) == part.length,
    decreases b.len(),
{
    let one = seq![part];
    assert(one.drop_last() =~= Seq::<FileSection>::empty());
    assert(covered(one.drop_last()) == 0);
    if b.len() == 0 {
        assert(a + b =~= a);
    } else {
        assert((a + b).drop_last() =~= a + b.drop_last());
        law_sections_add_up(a, b.drop_last(), part);
    }
}

/// What was read from one section after the other is joined in that order.
pub proof fn law_parts_are_joined_in_order(a: Seq<Vec<u8>>, b: Seq<Vec<u8>>, part: Vec<u8>)
    ensures
        joined_parts(a + b) == joined_parts(a) + joined_parts(b),
        joined_parts(seq![part]) == part@,
    decreases b.len(),
{
    let one = seq![part];
    assert(one.drop_last() =~= Seq::<Vec<u8>>::empty());
    assert(joined_parts(one.drop_last()) + part@ =~= part@);
    if b.len() == 0 {
        assert(a + b =~= a);
        assert(joined_parts(a) + Seq::<u8>::empty() =~= joined_parts(a));
    } else {
        assert((a + b).drop_last() =~= a + b.drop_last());
        law_parts_are_joined_in_order(a, b.drop_last(), part);
        assert(joined_parts(a) + joined_parts(b.drop_last()) + b.last()@ =~= joined_parts(a) + (
        joined_parts(b.drop_last()) + b.last()@));
    }
}

/// The first file starts at the first byte, and each other file where the one before it ends. The
/// last one ends behind the last byte.
pub proof fn law_files_lie_end_to_end(files: Seq<FileInfo>, i: int)
    requires
        end_to_end(files),
        0 <= i < files.len(),
    ensures
        i == 0 ==> files[i].offset == 0,
        i > 0 ==> files[i].offset == files[i - 1].offset + files[i - 1].length,
        i == files.len() - 1 ==> files[i].offset + files[i].length == total_length(files),
        total_length(files) <= 4294967295,
{
    assert(files.take(0) =~= Seq::<FileInfo>::empty());
    assert(files[i].offset == total_length(files.take(i)));
    if i > 0 {
        assert(files.take(i).drop_last() =~= files.take(i - 1));
        assert(files[i - 1].offset == total_length(files.take(i - 1)));
    }
    if i == files.len() - 1 {
        assert(files.drop_last() =~= files.take(i));
    }
}

/// The files of a torrent are those of its torrent file, in their order, each with its length and
/// its path.
pub proof fn law_files_are_those_listed(files: Seq<File>, infos: Seq<FileInfo>, i: int, k: int)
    requires
        laid_out(files, infos),
        0 <= i < files.len(),
    ensures
        infos.len() == files.len(),
        infos[i].length == files[i].length,
        infos[i].path@.len() == files[i].path@.len(),
        0 <= k < files[i].path@.len() ==> infos[i].path@[k]@ == files[i].path@[k]@,
        i == 0 ==> infos[i].offset == 0,
        i > 0 ==> infos[i].offset == infos[i - 1].offset + infos[i - 1].length,
{
    law_files_lie_end_to_end(infos, i);
    assert(texts_of(infos[i].path@).len() == texts_of(files[i].path@).len());
    if 0 <= k < files[i].path@.len() {
        assert(texts_of(infos[i].path@)[k] == texts_of(files[i].path@)[k]);
    }
}

/// A torrent file is taken where its files are named and have fewer than 2^32 bytes in all.
pub proof fn law_which_sizes_fit(metainfo: MetaInfo)
    ensures
        size_fits(metainfo) <==> sum_of_lengths(metainfo.files@) < 4294967296,
        files_are_named(metainfo) <==> (forall|i: int|
            0 <= i < metainfo.files@.len() ==> (#[trigger] metainfo.files@[i]).path@.len() > 0),
{
}

/// What is to be written says what it says.
pub proof fn law_writes_stand_for_themselves(writes: Seq<FileWrite>, i: int)
    requires
        0 <= i < writes.len(),
    ensures
        writes_of(writes).len() == writes.len(),
        writes_of(writes)[i].file == writes[i].file,
        writes_of(writes)[i].offset == writes[i].offset,
        writes_of(writes)[i].bytes == writes[i].bytes@,
{
}

/// Each section of a range is the common part of the range and one file: it starts where the later
/// of the two starts and ends where the earlier of the two ends. The sections stand in the order
/// of the files, one for a file.
pub proof fn law_sections_are_common_parts(
    files: Seq<FileInfo>,
    start: int,
    end: int,
    k: int,
    l: int,
)
    requires
        files.len() <= usize::MAX,
        0 <= start <= end,
        0 <= k < sections(files, start, end).len(),
    ensures
        ({
            let part = sections(files, start, end)[k];
            let file = files[part.file as int];
            &&& part.file < files.len()
            &&& start < file.offset + file.length
            &&& file.offset < end
            &&& file.offset >= start ==> part.offset == 0
            &&& file.offset < start ==> file.offset + part.offset == start
            &&& file.offset + file.length <= end ==> part.offset + part.length == file.length
            &&& file.offset + file.length > end ==> file.offset + part.offset + part.length == end
            &&& k < l < sections(files, start, end).len() ==> part.file < sections(
                files,
                start,
                end,
            )[l].file
        }),
    decreases files.len(),
{
    let before = sections(files.drop_last(), start, end);
    let all = sections(files, start, end);
    if k < before.len() {
        law_sections_are_common_parts(files.drop_last(), start, end, k, l);
        assert(all[k] == before[k]);
        assert(files[all[k].file as int] == files.drop_last()[all[k].file as int]);
        if k < l < before.len() {
            assert(all[l] == before[l]);
        }
    }
}

/// Every file that a range reaches into has a section.
pub proof fn law_every_file_in_range_has_a_section(
    files: Seq<FileInfo>,
    start: int,
    end: int,
    f: int,
)
    requires
        files.len() <= usize::MAX,
        0 <= start <= end,
        0 <= f < files.len(),
        start < files[f].offset + files[f].length,
        files[f].offset < end,
    ensures
        exists|k: int|
            0 <= k < sections(files, start, end).len() && (#[trigger] sections(
                files,
                start,
                end,
            )[k]).file == f,
    decreases files.len(),
{
    let before = sections(files.drop_last(), start, end);
    let all = sections(files, start, end);
    if f == files.len() - 1 {
        assert(all[before.len() as int].file == f);
    } else {
        law_every_file_in_range_has_a_section(files.drop_last(), start, end, f);
        let k = choose|k: int| 0 <= k < before.len() && (#[trigger] before[k]).file == f;
        assert(all[k] == before[k]);
    }
}

/// The writes are one for a section, at its place and of its length, and each takes up the bytes
/// where the one before it left off.
pub proof fn law_bytes_are_spread_in_order(parts: Seq<FileSection>, bytes: Seq<u8>, k: int)
    requires
        covered(parts) <= bytes.len(),
        0 <= k < parts.len(),
    ensures
        spread(parts, bytes).len() == parts.len(),
        spread(parts, bytes)[k].file == parts[k].file,
        spread(parts, bytes)[k].offset == parts[k].offset,
        0 <= covered(parts.take(k)),
        covered(parts.take(k)) + parts[k].length <= bytes.len(),
        spread(parts, bytes)[k].bytes == bytes.subrange(
            covered(parts.take(k)),
            covered(parts.take(k)) + parts[k].length,
        ),
    decreases parts.len(),
{
    let shorter = parts.drop_last();
    lemma_covered(shorter);
    lemma_spread_length(shorter, bytes);
    assert(parts.take(parts.len() - 1) =~= shorter);
    if k < parts.len() - 1 {
        law_bytes_are_spread_in_order(shorter, bytes, k);
        assert(shorter.take(k) =~= parts.take(k));
        assert(spread(parts, bytes)[k] == spread(shorter, bytes)[k]);
    }
}

proof fn lemma_spread_length(parts: Seq<FileSection>, bytes: Seq<u8>)
    ensures
        spread(parts, bytes).len() == parts.len(),
    decreases parts.len(),
{
    if parts.len() > 0 {
        lemma_spread_length(parts.drop_last(), bytes);
    }
}

proof fn lemma_covered(parts: Seq<FileSection>)
    ensures
        0 <= covered(parts),
    decreases parts.len(),
{
    if parts.len() > 0 {
        lemma_covered(parts.drop_last());
    }
}

/// The sections before a file cover the part of the range before it.
proof fn lemma_sections_before(files: Seq<FileInfo>, start: int, end: int, k: int)
    requires
        end_to_end(files),
        files.len() <= usize::MAX,
        0 <= start <= end,
        0 <= k < sections(files, start, end).len(),
    ensures
        ({
            let part = sections(files, start, end)[k];
            covered(sections(files, start, end).take(k)) == files[part.file as int].offset
                + part.offset - start
        }),
    decreases files.len(),
{
    let shorter = files.drop_last();
    let before = sections(shorter, start, end);
    let all = sections(files, start, end);
    assert forall|i: int| 0 <= i < shorter.len() implies (#[trigger] shorter[i]).offset
        == total_length(shorter.take(i)) by {
        assert(shorter.take(i) =~= files.take(i));
        assert(shorter[i] == files[i]);
    }
    law_files_lie_end_to_end(files, files.len() - 1);
    assert(end_to_end(shorter));
    if k < before.len() {
        lemma_sections_before(shorter, start, end, k);
        law_sections_are_common_parts(shorter, start, end, k, k);
        assert(all.take(k) =~= before.take(k));
        assert(all[k] == before[k]);
    } else {
        assert(all.take(k) =~= before);
        law_sections_cover_range(shorter, start, end);
        assert(files.take(files.len() - 1) =~= shorter);
    }
}

/// Every byte that is written goes where it belongs: the byte at a place of a file is the one that
/// stands at that place of the torrent. Nothing is written beyond the end of a file.
pub proof fn law_written_bytes_belong_where_they_go(
    files: Seq<FileInfo>,
    start: int,
    bytes: Seq<u8>,
    k: int,
    j: int,
)
    requires
        end_to_end(files),
        files.len() <= usize::MAX,
        0 <= start,
        0 <= k < spread(sections(files, start, start + bytes.len()), bytes).len(),
        0 <= j < spread(sections(files, start, start + bytes.len()), bytes)[k].bytes.len(),
    ensures
        ({
            let write = spread(sections(files, start, start + bytes.len()), bytes)[k];
            let place = files[write.file].offset + write.offset + j;
            &&& 0 <= write.file < files.len()
            &&& write.offset + write.bytes.len() <= files[write.file].length
            &&& start <= place < start + bytes.len()
            &&& write.bytes[j] == bytes[place - start]
        }),
{
    let end = start + bytes.len();
    let parts = sections(files, start, end);
    law_sections_cover_range(files, start, end);
    lemma_file_ends_fit(files);
    lemma_spread_length(parts, bytes);
    law_bytes_are_spread_in_order(parts, bytes, k);
    law_sections_are_common_parts(files, start, end, k, k);
    lemma_sections_before(files, start, end, k);
}

/// No byte is left out: each that belongs into a file is written there.
pub proof fn law_every_byte_is_written(
    files: Seq<FileInfo>,
    start: int,
    bytes: Seq<u8>,
    f: int,
    i: int,
) -> (at: (int, int))
    requires
        end_to_end(files),
        files.len() <= usize::MAX,
        0 <= start,
        0 <= i < bytes.len(),
        0 <= f < files.len(),
        files[f].offset <= start + i < files[f].offset + files[f].length,
    ensures
        ({
            let writes = spread(sections(files, start, start + bytes.len()), bytes);
            let write = writes[at.0];
            &&& 0 <= at.0 < writes.len()
            &&& 0 <= at.1 < write.bytes.len()
            &&& write.file == f
            &&& files[f].offset + write.offset + at.1 == start + i
            &&& write.bytes[at.1] == bytes[i]
        }),
{
    let end = start + bytes.len();
    let parts = sections(files, start, end);
    law_every_file_in_range_has_a_section(files, start, end, f);
    let k = choose|k: int| 0 <= k < parts.len() && (#[trigger] parts[k]).file == f;
    law_sections_cover_range(files, start, end);
    lemma_file_ends_fit(files);
    lemma_spread_length(parts, bytes);
    law_bytes_are_spread_in_order(parts, bytes, k);
    law_sections_are_common_parts(files, start, end, k, k);
    lemma_sections_before(files, start, end, k);
    (k, start + i - files[f].offset - parts[k].offset)
}

/// Blocks have, taken together, as many bytes as their parts have.
pub proof fn law_blocks_are_counted(
    a: Seq<BlockInfo>,
    b: Seq<BlockInfo>,
    block: BlockInfo,
)
    ensures
        bytes_in(a + b) == bytes_in(a) + bytes_in(b),
        bytes_in(seq![block]) == block.length,
    decreases b.len(),
{
    let one = seq![block];
    assert(one.drop_last() =~= Seq::<BlockInfo>::empty());
    assert(bytes_in(one.drop_last()) == 0);
    if b.len() == 0 {
        assert(a + b =~= a);
    } else {
        assert((a + b).drop_last() =~= a + b.drop_last());
        law_blocks_are_counted(a, b.drop_last(), block);
    }
}

/// As many pieces are missing as are marked as not there.
pub proof fn law_missing_pieces_are_counted(a: Seq<bool>, b: Seq<bool>)
    ensures
        missing_count(a + b) == missing_count(a) + missing_count(b),
        missing_count(seq![true]) == 0,
        missing_count(seq![false]) == 1,
        missing_count(a) <= a.len(),
    decreases a.len() + b.len(),
{
    assert(seq![true].drop_last() =~= Seq::<bool>::empty());
    assert(seq![false].drop_last() =~= Seq::<bool>::empty());
    assert(missing_count(Seq::<bool>::empty()) == 0);
    if b.len() == 0 {
        assert(a + b =~= a);
        if a.len() > 0 {
            law_missing_pieces_are_counted(a.drop_last(), b);
        }
    } else {
        assert((a + b).drop_last() =~= a + b.drop_last());
        law_missing_pieces_are_counted(a, b.drop_last());
    }
}

} // verus!

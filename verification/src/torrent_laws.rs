//! How the pieces of a torrent come, said of the blocks, marks and messages themselves.
use crate::address::{local_address, without, PeerAddress};
use crate::bencode::bencode_tree;
use crate::bytes::sha1_digest;
use crate::client_message::{broadcast_to, ClientMessage, Notice};
use crate::files::{laid_out, sections, spread, total_length, writes_of};
use crate::manager::is_added;
use crate::metainfo::{is_metainfo_result, parse_metainfo, MetaInfo, MetaInfoError};
use crate::peer_message::Block;
use crate::pieces::{block_count, blocks_fit, law_first_missing, piece_blocks};
use crate::torrent::{
    is_fresh, joined_blocks, listed_size_fits, piece_completed, piece_started, slots_checked,
    sum_of_listed, PieceStep, Torrent,
};
use vstd::prelude::*;

verus! {

/// A piece is cut into blocks of 2^14 bytes, one behind the other, of which the last has what is
/// left. Every byte of the piece is in one.
pub proof fn law_piece_is_cut_into_blocks(index: u32, size: int, i: int)
    requires
        1 <= size <= 4294950912,
    ensures
        ({
            let blocks = piece_blocks(index, size);
            &&& blocks.len() == block_count(size)
            &&& 16384 * (blocks.len() - 1) < size <= 16384 * blocks.len()
            &&& 0 <= i < blocks.len() ==> {
                &&& blocks[i].index == index
                &&& blocks[i].begin == 16384 * i
                &&& i < blocks.len() - 1 ==> blocks[i].length == 16384
                &&& i == blocks.len() - 1 ==> blocks[i].length == size - 16384 * i
            }
        }),
{
    assert(block_count(size) == (size - 1) / 16384 + 1);
}

/// The blocks of a piece can be numbered as long as their ends, all counted as full, are below
/// 2^32.
pub proof fn law_which_pieces_can_be_cut(size: int)
    ensures
        blocks_fit(size) <==> 1 <= size <= 4294950912,
{
    if size >= 1 {
        assert(block_count(size) == (size - 1) / 16384 + 1);
    }
}

/// Pieces lie one behind the other; each has the length that the torrent file gives, save that the
/// last one ends with the last file.
pub proof fn law_pieces_lie_end_to_end(t: Torrent, index: int)
    ensures
        t.piece_offset(0) == 0,
        t.piece_offset(index + 1) == t.piece_offset(index) + t.metainfo.piece_length,
        t.piece_offset(index + 1) <= total_length(t.files@) ==> t.piece_size(index)
            == t.metainfo.piece_length,
        t.piece_offset(index + 1) > total_length(t.files@) ==> t.piece_offset(index)
            + t.piece_size(index) == total_length(t.files@),
{
    let length = t.metainfo.piece_length as int;
    assert((index + 1) * length == index * length + length) by (nonlinear_arith);
    assert(0 * length == 0);
}

/// A piece can begin when it has a byte and every offset in it is below 2^32.
pub proof fn law_which_pieces_can_begin(t: Torrent, index: int)
    ensures
        t.can_start(index) <==> {
            &&& index < 4294967296
            &&& t.files@.len() > 0
            &&& t.piece_offset(index) + t.metainfo.piece_length < 4294967296
            &&& 1 <= t.piece_size(index) <= 4294950912
        },
{
    law_which_pieces_can_be_cut(t.piece_size(index));
}

/// The download can go on where no piece is missing or the first that is can begin.
pub proof fn law_when_the_download_can_go_on(t: Torrent, downloaded: Seq<bool>, i: int)
    ensures
        (forall|j: int| 0 <= j < downloaded.len() ==> #[trigger] downloaded[j]) ==> t.can_go_on(
            downloaded,
        ),
        0 <= i < downloaded.len() && !downloaded[i] && (forall|j: int|
            0 <= j < i ==> #[trigger] downloaded[j]) ==> (t.can_go_on(downloaded) <==> t.can_start(
            i,
        )),
{
    law_first_missing(downloaded);
}

/// The bytes of a piece have places where the offset behind the last of them is below 2^32, their
/// number counted modulo 2^32.
pub proof fn law_which_pieces_can_be_placed(t: Torrent, index: int, count: nat)
    ensures
        t.can_place(index, count) <==> t.piece_offset(index) + count % 4294967296 < 4294967296,
{
}

/// Blocks can be taken while one of them is missing or no piece is being downloaded. Where they
/// make up a piece, it has to be one of the torrent's and the queue has to be empty; and where the
/// piece is good, it needs places, and the next one has to be able to begin.
pub proof fn law_which_blocks_can_be_taken(t: Torrent, slots: Seq<Option<Block>>, i: int)
    ensures
        0 <= i < slots.len() && slots[i] is None ==> t.can_take(slots),
        t.downloading_piece_index is None ==> t.can_take(slots),
        t.downloading_piece_index matches Some(index) ==> ((forall|j: int|
            0 <= j < slots.len() ==> (#[trigger] slots[j]) is Some) ==> (t.can_take(slots) <==> {
            &&& t.blocks_to_download@.len() == 0
            &&& index < t.metainfo.pieces@.len()
            &&& sha1_digest(joined_blocks(slots)) != t.metainfo.pieces@[index as int]@ || {
                &&& t.can_place(index as int, joined_blocks(slots).len())
                &&& t.can_go_on(t.downloaded_pieces@.update(index as int, true))
            }
        })),
{
}

/// The bytes of a piece are those of its blocks, in their order.
pub proof fn law_blocks_are_joined_in_order(
    a: Seq<Option<Block>>,
    b: Seq<Option<Block>>,
    block: Block,
)
    ensures
        joined_blocks(a + b) == joined_blocks(a) + joined_blocks(b),
        joined_blocks(seq![Some(block)]) == block.bytes@,
        joined_blocks(seq![None]).len() == 0,
    decreases b.len(),
{
    let one = seq![Some(block)];
    let none = seq![None::<Block>];
    assert(one.drop_last() =~= Seq::<Option<Block>>::empty());
    assert(none.drop_last() =~= Seq::<Option<Block>>::empty());
    assert(joined_blocks(one.drop_last()) + block.bytes@ =~= block.bytes@);
    assert(joined_blocks(none.drop_last()).len() == 0);
    if b.len() == 0 {
        assert(a + b =~= a);
        assert(joined_blocks(a) + Seq::<u8>::empty() =~= joined_blocks(a));
    } else {
        assert((a + b).drop_last() =~= a + b.drop_last());
        law_blocks_are_joined_in_order(a, b.drop_last(), block);
        let last = match b.last() {
            Some(block) => block.bytes@,
            None => Seq::empty(),
        };
        assert(joined_blocks(a) + joined_blocks(b.drop_last()) + last =~= joined_blocks(a) + (
        joined_blocks(b.drop_last()) + last));
    }
}

/// A block is put where its offset says, at one place for 2^14 bytes, and nowhere else.
pub proof fn law_block_goes_to_its_place(t: Torrent, block: Block, i: int)
    requires
        block.info.begin / 16384 < t.downloading_piece@.len(),
    ensures
        t.slot_of(block.info) == block.info.begin / 16384,
        t.with_block(block).len() == t.downloading_piece@.len(),
        t.with_block(block)[block.info.begin as int / 16384] == Some(block),
        0 <= i < t.downloading_piece@.len() && i != block.info.begin as int / 16384
            ==> t.with_block(block)[i] == t.downloading_piece@[i],
{
}

/// While a block is missing, and while no piece is being downloaded, the blocks wait and nothing
/// else happens.
pub proof fn law_incomplete_piece_waits(
    before: Torrent,
    slots: Seq<Option<Block>>,
    after: Torrent,
    step: PieceStep,
    i: int,
)
    requires
        slots_checked(before, slots, after, step),
        (0 <= i < slots.len() && slots[i] is None) || before.downloading_piece_index is None,
    ensures
        step is Unfinished,
        after.downloading_piece@ == slots,
        after.downloading_piece_index == before.downloading_piece_index,
        after.downloaded_pieces@ == before.downloaded_pieces@,
        after.blocks_to_download@ == before.blocks_to_download@,
        after.peers@ == before.peers@,
{
}

/// A piece whose blocks are all there is judged by its digest alone.
pub proof fn law_complete_piece_is_judged(
    before: Torrent,
    slots: Seq<Option<Block>>,
    after: Torrent,
    step: PieceStep,
    index: u32,
)
    requires
        slots_checked(before, slots, after, step),
        forall|i: int| 0 <= i < slots.len() ==> (#[trigger] slots[i]) is Some,
        before.downloading_piece_index == Some(index),
    ensures
        piece_completed(
            before,
            slots,
            index,
            joined_blocks(slots),
            sha1_digest(joined_blocks(slots)) == before.metainfo.pieces@[index as int]@,
            after,
            step,
        ),
        sha1_digest(joined_blocks(slots)) == before.metainfo.pieces@[index as int]@ ==> step
            is Good,
        sha1_digest(joined_blocks(slots)) != before.metainfo.pieces@[index as int]@ ==> step
            == PieceStep::Bad(index),
{
}

/// Of a bad piece every block goes back to the end of the queue, in its order, and no block is
/// there any more. No piece is marked and none but it is begun.
pub proof fn law_bad_piece_goes_back(
    before: Torrent,
    slots: Seq<Option<Block>>,
    index: u32,
    bytes: Seq<u8>,
    after: Torrent,
    step: PieceStep,
    i: int,
)
    requires
        piece_completed(before, slots, index, bytes, false, after, step),
    ensures
        step == PieceStep::Bad(index),
        after.downloading_piece_index == before.downloading_piece_index,
        after.downloaded_pieces@ == before.downloaded_pieces@,
        after.peers@ == before.peers@,
        after.downloading_piece@.len() == slots.len(),
        after.blocks_to_download@.len() == before.blocks_to_download@.len() + slots.len(),
        0 <= i < slots.len() ==> after.downloading_piece@[i] is None,
        0 <= i < slots.len() && slots[i] is Some ==> after.blocks_to_download@[
            before.blocks_to_download@.len() + i] == slots[i]->0.info,
        0 <= i < before.blocks_to_download@.len() ==> after.blocks_to_download@[i]
            == before.blocks_to_download@[i],
{
}

/// A good piece is marked as there, and no other is. Every peer hears first that the piece is
/// there, and then that there may be blocks to ask for. The download is finished when no piece is
/// missing any more.
pub proof fn law_good_piece_is_marked_and_told(
    before: Torrent,
    slots: Seq<Option<Block>>,
    index: u32,
    bytes: Seq<u8>,
    after: Torrent,
    step: PieceStep,
    i: int,
)
    requires
        index < before.downloaded_pieces@.len(),
        piece_completed(before, slots, index, bytes, true, after, step),
    ensures
        after.downloaded_pieces@.len() == before.downloaded_pieces@.len(),
        after.downloaded_pieces@[index as int],
        0 <= i < before.downloaded_pieces@.len() && i != index ==> after.downloaded_pieces@[i]
            == before.downloaded_pieces@[i],
        after.peers@ == before.peers@,
        step matches PieceStep::Good { index: done, writes, notices, finished } && {
            let n = before.peers@.len();
            &&& done == index
            &&& finished == (forall|j: int|
                0 <= j < after.downloaded_pieces@.len() ==> #[trigger] after.downloaded_pieces@[j])
            &&& notices@.len() == n + n
            &&& 0 <= i < n ==> {
                &&& notices@[i] == (Notice {
                    peer: i as usize,
                    message: ClientMessage::PieceDownloaded(index),
                })
                &&& notices@[n + i] == (Notice {
                    peer: i as usize,
                    message: ClientMessage::UpdatedJobQueue,
                })
            }
        },
{
    law_first_missing(after.downloaded_pieces@);
}

/// A good piece is written at its place among the files.
pub proof fn law_good_piece_is_written(
    before: Torrent,
    slots: Seq<Option<Block>>,
    index: u32,
    bytes: Seq<u8>,
    after: Torrent,
    step: PieceStep,
)
    requires
        bytes.len() < 4294967296,
        piece_completed(before, slots, index, bytes, true, after, step),
    ensures
        step matches PieceStep::Good { writes, .. } && writes_of(writes@) == spread(
            sections(
                before.files@,
                index * before.metainfo.piece_length,
                index * before.metainfo.piece_length + bytes.len(),
            ),
            bytes,
        ),
{
}

/// After a good piece the first missing piece is begun. Where none is missing, none is, and of the
/// blocks of the last piece only their coordinates are kept.
pub proof fn law_good_piece_is_followed_by_the_next(
    before: Torrent,
    slots: Seq<Option<Block>>,
    index: u32,
    bytes: Seq<u8>,
    after: Torrent,
    step: PieceStep,
    i: int,
)
    requires
        before.downloaded_pieces@.len() <= 4294967296,
        piece_completed(before, slots, index, bytes, true, after, step),
    ensures
        (forall|j: int| 0 <= j < after.downloaded_pieces@.len() ==> #[trigger]
            after.downloaded_pieces@[j]) ==> {
            &&& after.downloading_piece_index is None
            &&& after.blocks_to_download@ == before.blocks_to_download@
            &&& after.downloading_piece@.len() == slots.len()
            &&& 0 <= i < slots.len() ==> (after.downloading_piece@[i] matches Some(block)
                && block.info == slots[i]->0.info && block.bytes@.len() == 0)
        },
        0 <= i < after.downloaded_pieces@.len() && !after.downloaded_pieces@[i] && (forall|j: int|
            0 <= j < i ==> #[trigger] after.downloaded_pieces@[j]) ==> {
            &&& after.downloading_piece_index == Some(i as u32)
            &&& piece_started(
                (Torrent { downloaded_pieces: after.downloaded_pieces, ..before }),
                after,
                i as u32,
            )
        },
{
    law_first_missing(after.downloaded_pieces@);
}

/// A piece that begins has no block yet, and all its blocks, one for 2^14 bytes, stand in the queue
/// behind what stood there. Nothing else changes.
pub proof fn law_piece_begins(before: Torrent, after: Torrent, index: u32, i: int)
    requires
        before.can_start(index as int),
        piece_started(before, after, index),
    ensures
        after.downloading_piece_index == Some(index),
        16384 * (after.downloading_piece@.len() - 1) < before.piece_size(index as int) <= 16384
            * after.downloading_piece@.len(),
        after.blocks_to_download@.len() == before.blocks_to_download@.len()
            + after.downloading_piece@.len(),
        0 <= i < after.downloading_piece@.len() ==> {
            let job = after.blocks_to_download@[before.blocks_to_download@.len() + i];
            &&& after.downloading_piece@[i] is None
            &&& job.index == index
            &&& job.begin == 16384 * i
            &&& i < after.downloading_piece@.len() - 1 ==> job.length == 16384
            &&& i == after.downloading_piece@.len() - 1 ==> job.begin + job.length
                == before.piece_size(index as int)
        },
        0 <= i < before.blocks_to_download@.len() ==> after.blocks_to_download@[i]
            == before.blocks_to_download@[i],
        after.downloaded_pieces@ == before.downloaded_pieces@,
        after.peers@ == before.peers@,
        after.optimistic_unchoke_peer == before.optimistic_unchoke_peer,
{
    let size = before.piece_size(index as int);
    law_which_pieces_can_be_cut(size);
    law_piece_is_cut_into_blocks(index, size, i);
}

/// A message for all is one for each peer, in their order.
pub proof fn law_everyone_is_told_once(peers: nat, message: ClientMessage, i: int)
    requires
        0 <= i < peers <= usize::MAX,
    ensures
        broadcast_to(peers, message).len() == peers,
        broadcast_to(peers, message)[i].peer == i,
        broadcast_to(peers, message)[i].message == message,
{
}

/// In a torrent that has just been added no piece is there, nothing is asked for and nobody is
/// known.
pub proof fn law_fresh_torrent_has_nothing(t: Torrent, metainfo: MetaInfo, port: u16, i: int)
    requires
        is_fresh(t, metainfo, port),
    ensures
        t.port == port,
        t.metainfo@ == metainfo@,
        laid_out(metainfo.files@, t.files@),
        t.downloaded_pieces@.len() == metainfo.pieces@.len(),
        0 <= i < t.downloaded_pieces@.len() ==> !t.downloaded_pieces@[i],
        t.peers@.len() == 0,
        t.blocks_to_download@.len() == 0,
        t.downloading_piece@.len() == 0,
        t.downloading_piece_index is None,
        t.optimistic_unchoke_peer is None,
        t.bytes_uploaded == 0,
        t.bytes_downloaded == 0,
{
}

/// A torrent file is too long exactly when it can be read and its files have 2^32 bytes or more.
pub proof fn law_which_torrent_files_are_too_long(bytes: Seq<u8>)
    ensures
        listed_size_fits(bytes) <==> !(bencode_tree(bytes) matches Ok(tree) && parse_metainfo(
            tree,
        ) matches Ok(metainfo) && sum_of_listed(metainfo.files) >= 4294967296),
{
}

/// This client listens at 127.0.0.1.
pub proof fn law_local_address(port: u16)
    ensures
        local_address(port).ip.a == 127,
        local_address(port).ip.b == 0,
        local_address(port).ip.c == 0,
        local_address(port).ip.d == 1,
        local_address(port).port == port,
{
}

/// An address is taken out wherever it stands; the other addresses stay in their order.
pub proof fn law_addresses_are_taken_out_one_by_one(
    a: Seq<PeerAddress>,
    b: Seq<PeerAddress>,
    one: PeerAddress,
    address: PeerAddress,
)
    ensures
        without(a + b, address) == without(a, address) + without(b, address),
        one != address ==> without(seq![one], address) == seq![one],
        without(seq![address], address).len() == 0,
{
    let other = |x: PeerAddress| x != address;
    Seq::filter_distributes_over_add(a, b, other);
    reveal(Seq::filter);
    assert(seq![one].drop_last() =~= Seq::<PeerAddress>::empty());
    assert(seq![address].drop_last() =~= Seq::<PeerAddress>::empty());
    assert(Seq::<PeerAddress>::empty().filter(other) =~= Seq::<PeerAddress>::empty());
    if one != address {
        assert(seq![one].filter(other) =~= seq![one]);
    }
    let gone = seq![address];
    assert(gone.last() == address && !other(gone.last()));
    assert(without(gone, address) == without(gone.drop_last(), address));
}

/// A torrent that is added stands behind those that were there, which stay as they are, and
/// listens at the port 6969. Where a torrent file is refused, nothing is added.
pub proof fn law_torrents_are_added_at_the_end(
    before: Seq<Torrent>,
    bytes: Seq<u8>,
    after: Seq<Torrent>,
    r: Result<(), MetaInfoError>,
    i: int,
)
    requires
        is_added(before, bytes, after, r),
    ensures
        r is Err ==> after == before,
        r is Ok ==> {
            let added = after[before.len() as int];
            &&& after.len() == before.len() + 1
            &&& 0 <= i < before.len() ==> after[i] == before[i]
            &&& added.port == 6969
            &&& is_fresh(added, added.metainfo, 6969)
            &&& bencode_tree(bytes) matches Ok(tree) && is_metainfo_result(
                Ok(added.metainfo),
                parse_metainfo(tree),
            )
            &&& 0 <= i < 20 ==> {
                let c = added.peer_id@[i];
                48 <= c <= 57 || 65 <= c <= 90 || 97 <= c <= 122
            }
        },
        r matches Err(e) ==> match bencode_tree(bytes) {
            Err(text) => e matches MetaInfoError::NotBencode(reason) && reason@ == text,
            Ok(tree) => is_metainfo_result(Err(e), parse_metainfo(tree)),
        },
{
    if r is Ok && 0 <= i < before.len() {
        assert(after.drop_last()[i] == before[i]);
    }
}

} // verus!

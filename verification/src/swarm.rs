//! What holds of a torrent and all its peers together: every block of the current piece is at any
//! time in exactly one place. It has come, or it is in the queue, or one peer has been asked for
//! it.
use crate::client_message::ClientMessage;
use crate::constants::BLOCK_SIZE;
use crate::jobs::{law_giving_back_loses_no_job, lemma_pieces_known, lemma_place_of, one_less};
use crate::peer::{
    can_receive, client_message_handled, interest_updated, is_asked, is_interesting,
    law_queue_is_bounded, messages_of, only_queue_differs, peer_message_handled, Peer, Reaction,
    QUEUE_SIZE,
};
use crate::peer_message::{Block, BlockInfo, MessageView, PeerMessage};
use crate::pieces::{
    block_count, blocks_fit, bytes_in, first_missing, law_blocks_make_up_piece, law_first_missing,
    nth_block, piece_blocks,
};
use crate::torrent::{
    all_here, infos_of, is_fresh, joined_blocks, piece_started, slots_checked, PieceStep, Torrent,
};
use vstd::multiset::Multiset;
use vstd::prelude::*;

verus! {

/// Whether `job` is a block of the piece `index` with `size` bytes.
pub open spec fn is_block_of(index: u32, size: int, job: BlockInfo) -> bool {
    let i = job.begin as int / BLOCK_SIZE as int;
    i < block_count(size) && job == nth_block(index, size, i)
}

/// Whether `job` is a block of the current piece that has not come yet.
pub open spec fn is_outstanding(t: Torrent, job: BlockInfo) -> bool {
    &&& t.downloading_piece_index matches Some(index)
    &&& is_block_of(index, t.piece_size(index as int), job)
    &&& t.downloading_piece@[t.slot_of(job)] is None
}

/// Whether the places of the current piece hold its blocks, each with as many bytes as it should
/// have.
pub open spec fn slots_in_order(t: Torrent) -> bool {
    match t.downloading_piece_index {
        Some(index) => {
            let size = t.piece_size(index as int);
            &&& index < t.metainfo.pieces@.len()
            &&& t.can_start(index as int)
            &&& t.downloading_piece@.len() == block_count(size)
            &&& forall|i: int|
                0 <= i < t.downloading_piece@.len() && (#[trigger] t.downloading_piece@[i]) is Some
                    ==> t.downloading_piece@[i]->0.info == nth_block(index, size, i)
                    && t.downloading_piece@[i]->0.bytes@.len()
                    == t.downloading_piece@[i]->0.info.length
        },
        None => true,
    }
}

/// Whether every block of the current piece is in exactly one place, where the peers have been
/// asked for the blocks `requested`. When there is no current piece, nothing is asked for.
pub open spec fn accounted(t: Torrent, requested: Multiset<BlockInfo>) -> bool {
    &&& slots_in_order(t)
    &&& forall|job: BlockInfo|
        t.blocks_to_download@.to_multiset().count(job) + #[trigger] requested.count(job)
            == if is_outstanding(t, job) {
            1nat
        } else {
            0nat
        }
}

/// Whether every piece has bytes and all offsets in it fit.
pub open spec fn every_piece_fits(t: Torrent) -> bool {
    forall|i: int| 0 <= i < t.metainfo.pieces@.len() ==> #[trigger] t.can_start(i)
}

proof fn lemma_nth_block(index: u32, size: int, i: int)
    requires
        blocks_fit(size),
        0 <= i < block_count(size),
    ensures
        nth_block(index, size, i).begin == i * BLOCK_SIZE,
        nth_block(index, size, i).begin / BLOCK_SIZE == i,
        is_block_of(index, size, nth_block(index, size, i)),
{
    let n = block_count(size);
    assert(0 <= i * BLOCK_SIZE <= n * BLOCK_SIZE) by (nonlinear_arith)
        requires
            0 <= i <= n,
    ;
}

/// The blocks of a piece, each once.
proof fn lemma_piece_blocks_count(index: u32, size: int, job: BlockInfo)
    requires
        blocks_fit(size),
    ensures
        piece_blocks(index, size).to_multiset().count(job) == if is_block_of(index, size, job) {
            1nat
        } else {
            0nat
        },
{
    broadcast use vstd::seq_lib::group_to_multiset_ensures;

    let blocks = piece_blocks(index, size);
    assert forall|i: int, j: int| 0 <= i < blocks.len() && 0 <= j < blocks.len() && i
        != j implies blocks[i] != blocks[j] by {
        lemma_nth_block(index, size, i);
        lemma_nth_block(index, size, j);
    }
    blocks.lemma_multiset_has_no_duplicates();
    if is_block_of(index, size, job) {
        assert(blocks[job.begin as int / BLOCK_SIZE as int] == job);
        assert(blocks.contains(job));
        assert(blocks.to_multiset().contains(job));
    } else {
        if blocks.contains(job) {
            let i = blocks.index_of(job);
            lemma_nth_block(index, size, i);
        }
    }
}

proof fn lemma_empty_count(queue: Seq<BlockInfo>, job: BlockInfo)
    requires
        queue.len() == 0,
    ensures
        queue.to_multiset().count(job) == 0,
{
    broadcast use vstd::seq_lib::group_to_multiset_ensures;

    assert(!queue.contains(job));
}

/// A torrent that has just been added has nothing to account for.
pub proof fn law_fresh_torrent_is_accounted(t: Torrent, port: u16)
    requires
        is_fresh(t, t.metainfo, port),
    ensures
        accounted(t, Multiset::empty()),
{
    assert forall|job: BlockInfo|
        t.blocks_to_download@.to_multiset().count(job) + #[trigger] Multiset::<
            BlockInfo,
        >::empty().count(job) == if is_outstanding(t, job) {
            1nat
        } else {
            0nat
        } by {
        lemma_empty_count(t.blocks_to_download@, job);
    }
}

/// When a piece begins while nothing is asked for, every block of it is in the queue.
pub proof fn law_begun_piece_is_accounted(before: Torrent, after: Torrent, index: u32)
    requires
        before.blocks_to_download@.len() == 0,
        index < before.metainfo.pieces@.len(),
        before.can_start(index as int),
        piece_started(before, after, index),
    ensures
        accounted(after, Multiset::empty()),
{
    let size = before.piece_size(index as int);
    assert(after.piece_size(index as int) == size);
    assert(after.blocks_to_download@ =~= piece_blocks(index, size));
    assert forall|job: BlockInfo|
        after.blocks_to_download@.to_multiset().count(job) + #[trigger] Multiset::<
            BlockInfo,
        >::empty().count(job) == if is_outstanding(after, job) {
            1nat
        } else {
            0nat
        } by {
        lemma_piece_blocks_count(index, size, job);
    }
}

/// Asking a peer for blocks keeps the account; `others` are the blocks that the other peers have
/// been asked for.
pub proof fn law_asking_keeps_account(
    t: Torrent,
    before: Peer,
    t_after: Torrent,
    after: Peer,
    ask: Seq<BlockInfo>,
    others: Multiset<BlockInfo>,
)
    requires
        accounted(t, others.add(before.requested_blocks@.to_multiset())),
        is_asked(before, t.blocks_to_download@, after, t_after.blocks_to_download@, ask),
        only_queue_differs(t, t_after),
    ensures
        accounted(t_after, others.add(after.requested_blocks@.to_multiset())),
{
    let had = others.add(before.requested_blocks@.to_multiset());
    let has = others.add(after.requested_blocks@.to_multiset());
    law_queue_is_bounded(before, t.blocks_to_download@, after, t_after.blocks_to_download@, ask);
    let sum = before.requested_blocks@.to_multiset().add(t.blocks_to_download@.to_multiset());
    let sum_after = after.requested_blocks@.to_multiset().add(
        t_after.blocks_to_download@.to_multiset(),
    );
    assert forall|job: BlockInfo|
        t_after.blocks_to_download@.to_multiset().count(job) + #[trigger] has.count(job)
            == if is_outstanding(t_after, job) {
            1nat
        } else {
            0nat
        } by {
        assert(sum.count(job) == sum_after.count(job));
        assert(t.blocks_to_download@.to_multiset().count(job) + had.count(job)
            == if is_outstanding(t, job) {
            1nat
        } else {
            0nat
        });
        assert(is_outstanding(t_after, job) == is_outstanding(t, job));
    }
}

/// Giving a block back to the queue keeps the account.
pub proof fn law_giving_back_keeps_account(
    t: Torrent,
    requested: Seq<BlockInfo>,
    job: BlockInfo,
    t_after: Torrent,
    others: Multiset<BlockInfo>,
)
    requires
        accounted(t, others.add(requested.to_multiset())),
        requested.contains(job),
        t_after.blocks_to_download@ == t.blocks_to_download@.push(job),
        only_queue_differs(t, t_after),
    ensures
        accounted(t_after, others.add(one_less(requested, job).to_multiset())),
{
    let had = others.add(requested.to_multiset());
    let has = others.add(one_less(requested, job).to_multiset());
    law_giving_back_loses_no_job(requested, t.blocks_to_download@, job);
    let sum = requested.to_multiset().add(t.blocks_to_download@.to_multiset());
    let sum_after = one_less(requested, job).to_multiset().add(
        t_after.blocks_to_download@.to_multiset(),
    );
    assert forall|any: BlockInfo|
        t_after.blocks_to_download@.to_multiset().count(any) + #[trigger] has.count(any)
            == if is_outstanding(t_after, any) {
            1nat
        } else {
            0nat
        } by {
        assert(sum.count(any) == sum_after.count(any));
        assert(t.blocks_to_download@.to_multiset().count(any) + had.count(any)
            == if is_outstanding(t, any) {
            1nat
        } else {
            0nat
        });
        assert(is_outstanding(t_after, any) == is_outstanding(t, any));
    }
}

/// The blocks that make up a piece have as many bytes together as the piece.
proof fn lemma_joined_length(index: u32, size: int, slots: Seq<Option<Block>>, k: int)
    requires
        blocks_fit(size),
        0 <= k <= slots.len(),
        slots.len() == block_count(size),
        forall|i: int|
            0 <= i < slots.len() ==> (#[trigger] slots[i]) is Some && slots[i]->0.info == nth_block(
                index,
                size,
                i,
            ) && slots[i]->0.bytes@.len() == slots[i]->0.info.length,
    ensures
        joined_blocks(slots.take(k)).len() == bytes_in(piece_blocks(index, size).take(k)),
    decreases k,
{
    let blocks = piece_blocks(index, size);
    if k > 0 {
        lemma_joined_length(index, size, slots, k - 1);
        assert(slots.take(k).drop_last() =~= slots.take(k - 1));
        assert(blocks.take(k).drop_last() =~= blocks.take(k - 1));
        assert(slots.take(k).last() == slots[k - 1]);
        assert(blocks.take(k).last() == nth_block(index, size, k - 1));
    } else {
        assert(slots.take(0) =~= Seq::<Option<Block>>::empty());
        assert(blocks.take(0) =~= Seq::<BlockInfo>::empty());
    }
}

/// A block that some peer was asked for has its place in the current piece, and its place is
/// free; and when the piece is complete with it, the queue is empty, and the bytes have places in
/// the files.
pub proof fn law_requested_block_has_a_place(
    t: Torrent,
    requested: Multiset<BlockInfo>,
    block: Block,
)
    requires
        t.wf(),
        every_piece_fits(t),
        accounted(t, requested),
        requested.count(block.info) > 0,
        block.bytes@.len() == block.info.length,
    ensures
        t.slot_of(block.info) < t.downloading_piece@.len(),
        t.downloading_piece@[t.slot_of(block.info)] is None,
        t.can_take(t.with_block(block)),
{
    broadcast use vstd::seq_lib::group_to_multiset_ensures;

    assert(is_outstanding(t, block.info));
    let index = t.downloading_piece_index->0;
    let size = t.piece_size(index as int);
    let slots = t.with_block(block);
    let slot = t.slot_of(block.info);
    if all_here(slots) {
        let queue = t.blocks_to_download@;
        if queue.len() > 0 {
            let job = queue[0];
            assert(queue.contains(job));
            assert(queue.to_multiset().count(job) > 0);
            assert(requested.count(job) >= 0);
            assert(is_outstanding(t, job));
            let i = t.slot_of(job);
            if i != slot {
                assert(slots[i] == t.downloading_piece@[i]);
                assert(slots[i] is Some);
            } else {
                assert(job == block.info);
            }
        }
        assert forall|i: int| 0 <= i < slots.len() implies (#[trigger] slots[i]) is Some
            && slots[i]->0.info == nth_block(index, size, i) && slots[i]->0.bytes@.len()
            == slots[i]->0.info.length by {
            if i != slot {
                assert(slots[i] == t.downloading_piece@[i]);
            }
        }
        lemma_joined_length(index, size, slots, slots.len() as int);
        assert(slots.take(slots.len() as int) =~= slots);
        assert(piece_blocks(index, size).take(slots.len() as int) =~= piece_blocks(index, size));
        law_blocks_make_up_piece(index, size);
        law_first_missing(t.downloaded_pieces@.update(index as int, true));
    }
}

/// A block that some peer was asked for is taken without trouble from a peer of which it is known
/// for every piece whether it has it, as long as the number of bytes that came from it fits.
pub proof fn law_requested_block_is_taken(
    t: Torrent,
    peer: Peer,
    others: Multiset<BlockInfo>,
    block: Block,
)
    requires
        t.wf(),
        every_piece_fits(t),
        accounted(t, others.add(peer.requested_blocks@.to_multiset())),
        peer.requested_blocks@.contains(block.info),
        block.bytes@.len() == block.info.length,
        peer.piece_availability@.len() == t.metainfo.pieces@.len(),
        peer.downloaded_from + block.info.length <= u32::MAX,
    ensures
        can_receive(peer, t, block),
{
    broadcast use vstd::seq_lib::group_to_multiset_ensures;

    let requested = others.add(peer.requested_blocks@.to_multiset());
    assert(peer.requested_blocks@.to_multiset().count(block.info) > 0);
    assert(requested.count(block.info) > 0);
    law_requested_block_has_a_place(t, requested, block);
    assert(is_outstanding(t, block.info));
    let index = t.downloading_piece_index->0;
    let size = t.piece_size(index as int);
    let known = peer.piece_availability@.len();
    let room = (QUEUE_SIZE - (peer.requested_blocks@.len() - 1)) as nat;
    let slots = t.with_block(block);
    let slot = t.slot_of(block.info);
    if all_here(slots) {
        let infos = infos_of(slots);
        assert forall|i: int| 0 <= i < infos.len() implies (#[trigger] infos[i]).index < known by {
            assert(slots[i] is Some);
            if i != slot {
                assert(slots[i] == t.downloading_piece@[i]);
            }
        }
        lemma_pieces_known(infos, peer.piece_availability@, room);
        let marked = t.downloaded_pieces@.update(index as int, true);
        law_first_missing(marked);
        match first_missing(marked) {
            Some(next) => {
                let blocks = piece_blocks(next as u32, t.piece_size(next));
                assert(t.can_start(next));
                lemma_pieces_known(blocks, peer.piece_availability@, room);
            },
            None => {},
        }
    } else {
        let queue = t.blocks_to_download@;
        assert forall|i: int| 0 <= i < queue.len() implies (#[trigger] queue[i]).index < known by {
            assert(queue.contains(queue[i]));
            assert(queue.to_multiset().count(queue[i]) > 0);
            assert(requested.count(queue[i]) >= 0);
            assert(is_outstanding(t, queue[i]));
        }
        lemma_pieces_known(queue, peer.piece_availability@, room);
    }
}

/// When a block comes that some peer was asked for, the account is kept, whatever becomes of the
/// piece.
pub proof fn law_block_keeps_account(
    t: Torrent,
    requested: Multiset<BlockInfo>,
    block: Block,
    after: Torrent,
    step: PieceStep,
)
    requires
        t.wf(),
        every_piece_fits(t),
        accounted(t, requested),
        requested.count(block.info) > 0,
        block.bytes@.len() == block.info.length,
        slots_checked(t, t.with_block(block), after, step),
    ensures
        accounted(after, requested.remove(block.info)),
        every_piece_fits(after),
{
    broadcast use vstd::seq_lib::group_to_multiset_ensures;

    law_requested_block_has_a_place(t, requested, block);
    assert(is_outstanding(t, block.info));
    let index = t.downloading_piece_index->0;
    let size = t.piece_size(index as int);
    let slots = t.with_block(block);
    let slot = t.slot_of(block.info);
    let rest = requested.remove(block.info);
    assert forall|i: int| 0 <= i < after.metainfo.pieces@.len() implies #[trigger] after.can_start(
        i,
    ) by {
        assert(t.can_start(i));
    }
    assert forall|i: int| 0 <= i < slots.len() && (#[trigger] slots[i]) is Some implies slots[i]->0.info
        == nth_block(index, size, i) && slots[i]->0.bytes@.len() == slots[i]->0.info.length by {
        if i != slot {
            assert(slots[i] == t.downloading_piece@[i]);
        }
    }
    if all_here(slots) {
        assert forall|job: BlockInfo| #[trigger] rest.count(job) == 0 by {
            assert(requested.count(job) >= 0);
            lemma_empty_count(t.blocks_to_download@, job);
            if is_outstanding(t, job) && t.slot_of(job) != slot {
                assert(slots[t.slot_of(job)] == t.downloading_piece@[t.slot_of(job)]);
                assert(slots[t.slot_of(job)] is Some);
            }
        }
        assert(rest =~= Multiset::empty());
        if step is Bad {
            assert(after.blocks_to_download@ =~= piece_blocks(index, size)) by {
                assert forall|i: int| 0 <= i < slots.len() implies infos_of(slots)[i]
                    == piece_blocks(index, size)[i] by {
                    assert(slots[i] is Some);
                }
            }
            assert forall|job: BlockInfo|
                after.blocks_to_download@.to_multiset().count(job) + #[trigger] rest.count(job)
                    == if is_outstanding(after, job) {
                    1nat
                } else {
                    0nat
                } by {
                lemma_piece_blocks_count(index, size, job);
            }
        } else {
            let marked = t.downloaded_pieces@.update(index as int, true);
            law_first_missing(marked);
            match first_missing(marked) {
                Some(next) => {
                    let between = Torrent { downloaded_pieces: after.downloaded_pieces, ..t };
                    assert(t.can_start(next));
                    law_begun_piece_is_accounted(between, after, next as u32);
                },
                None => {
                    assert forall|job: BlockInfo|
                        after.blocks_to_download@.to_multiset().count(job) + #[trigger] rest.count(
                            job,
                        ) == if is_outstanding(after, job) {
                            1nat
                        } else {
                            0nat
                        } by {
                        lemma_empty_count(after.blocks_to_download@, job);
                    }
                },
            }
        }
    } else {
        assert forall|job: BlockInfo|
            after.blocks_to_download@.to_multiset().count(job) + #[trigger] rest.count(job)
                == if is_outstanding(after, job) {
                1nat
            } else {
                0nat
            } by {
            assert(requested.count(job) >= 0);
            if is_block_of(index, size, job) && t.slot_of(job) == slot {
                assert(job == block.info);
            }
        }
    }
}

/// Whether a message from the wire has as many bytes as its length says.
pub open spec fn is_measured(message: PeerMessage) -> bool {
    message matches PeerMessage::Piece(block) ==> block.bytes@.len() == block.info.length
}

/// Whatever a peer says, the account is kept: no block of the current piece is lost, and none is
/// asked for twice.
pub proof fn law_messages_keep_account(
    before: Peer,
    t: Torrent,
    message: PeerMessage,
    after: Peer,
    t_after: Torrent,
    reaction: Reaction,
    others: Multiset<BlockInfo>,
)
    requires
        t.wf(),
        every_piece_fits(t),
        accounted(t, others.add(before.requested_blocks@.to_multiset())),
        is_measured(message),
        peer_message_handled(before, t, message, after, t_after, reaction),
    ensures
        accounted(t_after, others.add(after.requested_blocks@.to_multiset())),
        every_piece_fits(t_after),
{
    broadcast use vstd::seq_lib::group_to_multiset_ensures;

    let ask = reaction.ask@;
    assert forall|i: int| 0 <= i < t.metainfo.pieces@.len() && t_after.metainfo == t.metainfo
        && t_after.files == t.files implies #[trigger] t_after.can_start(i) by {
        assert(t.can_start(i));
    }
    match message {
        PeerMessage::Unchoke => {
            let unchoked = Peer { peer_choking: false, ..before };
            law_asking_keeps_account(t, unchoked, t_after, after, ask, others);
        },
        PeerMessage::Have(_) => {
            let updated = Peer { piece_availability: after.piece_availability, ..before };
            lemma_interest_keeps_account(
                updated,
                t,
                after,
                t_after,
                messages_of(reaction.send@),
                ask,
                others,
            );
        },
        PeerMessage::Bitfield(_) => {
            if t.metainfo.pieces@.len() >= before.piece_availability@.len() {
                let updated = Peer { piece_availability: after.piece_availability, ..before };
                lemma_interest_keeps_account(
                    updated,
                    t,
                    after,
                    t_after,
                    messages_of(reaction.send@),
                    ask,
                    others,
                );
            }
        },
        PeerMessage::Piece(block) => {
            if before.requested_blocks@.contains(block.info) {
                let step = reaction.next->Downloaded_0;
                let (between, t_between) = choose|between: Peer, t_between: Torrent|
                    {
                        &&& between.requested_blocks@ == one_less(
                            before.requested_blocks@,
                            block.info,
                        )
                        &&& between == (Peer {
                            requested_blocks: between.requested_blocks,
                            downloaded_from: (before.downloaded_from + block.info.length) as u32,
                            ..before
                        })
                        &&& #[trigger] slots_checked(t, t.with_block(block), t_between, step)
                        &&& #[trigger] is_asked(
                            between,
                            t_between.blocks_to_download@,
                            after,
                            t_after.blocks_to_download@,
                            ask,
                        )
                        &&& only_queue_differs(t_between, t_after)
                    };
                let requested = others.add(before.requested_blocks@.to_multiset());
                assert(before.requested_blocks@.to_multiset().count(block.info) > 0);
                law_block_keeps_account(t, requested, block, t_between, step);
                lemma_place_of(before.requested_blocks@, block.info);
                assert(between.requested_blocks@.to_multiset()
                    =~= before.requested_blocks@.to_multiset().remove(block.info));
                assert(requested.remove(block.info) =~= others.add(
                    between.requested_blocks@.to_multiset(),
                ));
                law_asking_keeps_account(t_between, between, t_after, after, ask, others);
            }
        },
        _ => {},
    }
}

proof fn lemma_interest_keeps_account(
    before: Peer,
    t: Torrent,
    after: Peer,
    t_after: Torrent,
    news: Seq<MessageView>,
    ask: Seq<BlockInfo>,
    others: Multiset<BlockInfo>,
)
    requires
        accounted(t, others.add(before.requested_blocks@.to_multiset())),
        interest_updated(before, t, after, t_after, news, ask),
    ensures
        accounted(t_after, others.add(after.requested_blocks@.to_multiset())),
{
    let now = is_interesting(t.downloaded_pieces@, before.piece_availability@);
    if now != before.am_interested {
        let interested = Peer { am_interested: now, ..before };
        law_asking_keeps_account(t, interested, t_after, after, ask, others);
    }
}

/// Whatever the client tells the task of a peer, the account is kept.
pub proof fn law_client_messages_keep_account(
    before: Peer,
    t: Torrent,
    message: ClientMessage,
    after: Peer,
    t_after: Torrent,
    reaction: Reaction,
    others: Multiset<BlockInfo>,
)
    requires
        accounted(t, others.add(before.requested_blocks@.to_multiset())),
        client_message_handled(before, t, message, after, t_after, reaction),
    ensures
        accounted(t_after, others.add(after.requested_blocks@.to_multiset())),
{
    match message {
        ClientMessage::PieceDownloaded(_) => {
            lemma_interest_keeps_account(
                before,
                t,
                after,
                t_after,
                messages_of(reaction.send@).skip(1),
                reaction.ask@,
                others,
            );
        },
        ClientMessage::UpdatedJobQueue => {
            law_asking_keeps_account(t, before, t_after, after, reaction.ask@, others);
        },
        _ => {},
    }
}

} // verus!

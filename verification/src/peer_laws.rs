//! What a peer is told and asked, said of the marks and the messages themselves.
use crate::bytes::sha1_digest;
use crate::client_message::ClientMessage;
use crate::job_laws::{
    law_first_of_equal_jobs_leaves, law_queue_is_looked_through,
    law_unknown_pieces_are_not_looked_at, not_on_offer, on_offer,
};
use crate::jobs::one_less;
use crate::peer::{
    can_ask, can_ask_after, can_handle_client_message, can_handle_peer_message,
    client_message_handled, is_asked, is_interesting, messages_of, only_queue_differs,
    peer_message_handled, Next, Peer, Reaction,
};
use crate::peer_message::{Block, BlockInfo, PeerMessage};
use crate::pieces::{law_first_missing, piece_blocks};
use crate::torrent::{infos_of, joined_blocks, slots_checked, Torrent};
use vstd::prelude::*;

verus! {

/// Whether `peer` has a piece that `torrent` lacks.
pub open spec fn has_a_lacking_piece(peer: Peer, torrent: Torrent) -> bool {
    exists|i: int|
        0 <= i < torrent.downloaded_pieces@.len() && torrent.downloaded_pieces@[i] == false
            && #[trigger] peer.piece_availability@[i] == true
}

/// Whether `sent` tells of the interest `now` after the interest `before`: one message where it
/// has changed and none where it has not.
pub open spec fn tells_of_interest(sent: Seq<PeerMessage>, before: bool, now: bool) -> bool {
    &&& before == now ==> sent.len() == 0
    &&& before != now ==> sent.len() == 1
    &&& !before && now ==> sent[0] is Interested
    &&& before && !now ==> sent[0] is NotInterested
}

/// A peer is of interest exactly while it has a piece that is lacking: as soon as its announcement
/// of a piece or of all its pieces has been dealt with, this client is interested where some piece
/// is not there and the peer has it, and not interested otherwise. The peer is told where that is
/// news.
pub proof fn law_interest_follows_announcements(
    before: Peer,
    torrent: Torrent,
    message: PeerMessage,
    after: Peer,
    torrent_after: Torrent,
    reaction: Reaction,
)
    requires
        message is Have || message is Bitfield,
        !(reaction.next is Disconnect),
        can_handle_peer_message(before, torrent, message),
        peer_message_handled(before, torrent, message, after, torrent_after, reaction),
    ensures
        after.am_interested == has_a_lacking_piece(after, torrent),
        tells_of_interest(reaction.send@, before.am_interested, after.am_interested),
{
    lemma_interest(after, torrent);
    lemma_sent(reaction);
}

/// After a piece has come, this client is interested exactly in the peers that have a piece that is
/// still lacking. A peer is told of the piece first, and then of the interest where that is news.
pub proof fn law_interest_follows_downloads(
    before: Peer,
    torrent: Torrent,
    index: u32,
    after: Peer,
    torrent_after: Torrent,
    reaction: Reaction,
)
    requires
        client_message_handled(
            before,
            torrent,
            ClientMessage::PieceDownloaded(index),
            after,
            torrent_after,
            reaction,
        ),
    ensures
        after.piece_availability@ == before.piece_availability@,
        after.am_interested == has_a_lacking_piece(after, torrent),
        reaction.send@.len() >= 1,
        reaction.send@[0] == PeerMessage::Have(index),
        tells_of_interest(reaction.send@.skip(1), before.am_interested, after.am_interested),
{
    lemma_interest(after, torrent);
    lemma_sent(reaction);
    let sent = messages_of(reaction.send@);
    assert(sent[0] == reaction.send@[0]@);
    assert(sent.skip(1).len() == reaction.send@.skip(1).len());
    if sent.len() > 1 {
        assert(sent.skip(1)[0] == sent[1]);
        assert(reaction.send@.skip(1)[0] == reaction.send@[1]);
    }
}

proof fn lemma_interest(peer: Peer, torrent: Torrent)
    ensures
        has_a_lacking_piece(peer, torrent) == is_interesting(
            torrent.downloaded_pieces@,
            peer.piece_availability@,
        ),
{
    let downloaded = torrent.downloaded_pieces@;
    let availability = peer.piece_availability@;
    if has_a_lacking_piece(peer, torrent) {
        let i = choose|i: int|
            0 <= i < downloaded.len() && downloaded[i] == false && #[trigger] availability[i]
                == true;
        assert(availability[i]);
    }
    if is_interesting(downloaded, availability) {
        let i = choose|i: int|
            0 <= i < downloaded.len() && !downloaded[i] && #[trigger] availability[i];
        assert(availability[i] == true);
    }
}

/// What is sent stands for what it is.
proof fn lemma_sent(reaction: Reaction)
    ensures
        messages_of(reaction.send@).len() == reaction.send@.len(),
        forall|i: int|
            0 <= i < reaction.send@.len() ==> messages_of(reaction.send@)[i] == (
            #[trigger] reaction.send@[i])@,
{
}

/// An announcement of one piece marks that piece and no other.
pub proof fn law_announced_piece_is_marked(
    before: Peer,
    torrent: Torrent,
    index: u32,
    after: Peer,
    torrent_after: Torrent,
    reaction: Reaction,
    i: int,
)
    requires
        can_handle_peer_message(before, torrent, PeerMessage::Have(index)),
        peer_message_handled(
            before,
            torrent,
            PeerMessage::Have(index),
            after,
            torrent_after,
            reaction,
        ),
    ensures
        after.piece_availability@.len() == before.piece_availability@.len(),
        index < before.piece_availability@.len(),
        after.piece_availability@[index as int],
        0 <= i < before.piece_availability@.len() && i != index ==> after.piece_availability@[i]
            == before.piece_availability@[i],
{
}

/// An announcement of all pieces marks exactly the pieces whose bits are set. The bits behind the
/// last piece say nothing.
pub proof fn law_announced_pieces_are_marked(
    before: Peer,
    torrent: Torrent,
    bits: Vec<bool>,
    after: Peer,
    torrent_after: Torrent,
    reaction: Reaction,
    i: int,
)
    requires
        can_handle_peer_message(before, torrent, PeerMessage::Bitfield(bits)),
        peer_message_handled(
            before,
            torrent,
            PeerMessage::Bitfield(bits),
            after,
            torrent_after,
            reaction,
        ),
    ensures
        reaction.next is Disconnect <==> torrent.metainfo.pieces@.len()
            < before.piece_availability@.len(),
        !(reaction.next is Disconnect) ==> {
            &&& after.piece_availability@.len() == torrent.metainfo.pieces@.len()
            &&& 0 <= i < torrent.metainfo.pieces@.len() ==> after.piece_availability@[i] == bits@[i]
        },
        reaction.next is Disconnect ==> after == before && torrent_after == torrent,
{
}

/// Each message of a peer sets the one mark that it speaks of and leaves the others: what the peer
/// says of choking and of interest is what is known of it from that moment on. A peer that becomes
/// interested makes the torrent look whom to unchoke; nothing is sent in answer.
pub proof fn law_peer_sets_its_own_marks(
    before: Peer,
    torrent: Torrent,
    message: PeerMessage,
    after: Peer,
    torrent_after: Torrent,
    reaction: Reaction,
)
    requires
        peer_message_handled(before, torrent, message, after, torrent_after, reaction),
    ensures
        after.address == before.address,
        after.peer_id == before.peer_id,
        after.am_choking == before.am_choking,
        message is Choke ==> after.peer_choking,
        message is Unchoke ==> !after.peer_choking,
        message is Interested ==> after.peer_interested,
        message is NotInterested ==> !after.peer_interested,
        !(message is Choke || message is Unchoke) ==> after.peer_choking == before.peer_choking,
        !(message is Interested || message is NotInterested) ==> after.peer_interested
            == before.peer_interested,
        !(message is Have || message is Bitfield) ==> {
            &&& after.am_interested == before.am_interested
            &&& after.piece_availability@ == before.piece_availability@
            &&& reaction.send@.len() == 0
        },
        reaction.next is Unchoke <==> message is Interested,
        reaction.next is Downloaded ==> message is Piece,
        !(message is Piece) ==> after.downloaded_from == before.downloaded_from,
        after.uploaded_to == before.uploaded_to,
        message is Choke || message is Interested || message is NotInterested || message is Request
            || message is Cancel ==> {
            &&& torrent_after == torrent
            &&& reaction.ask@.len() == 0
            &&& after.requested_blocks@ == before.requested_blocks@
        },
{
    lemma_sent(reaction);
}

/// A request is served unless the peer is choked: one for at most 2^17 bytes is uploaded, and one
/// for more ends the connection.
pub proof fn law_requests_are_served(
    before: Peer,
    torrent: Torrent,
    info: BlockInfo,
    after: Peer,
    torrent_after: Torrent,
    reaction: Reaction,
)
    requires
        peer_message_handled(
            before,
            torrent,
            PeerMessage::Request(info),
            after,
            torrent_after,
            reaction,
        ),
    ensures
        before.am_choking ==> reaction.next is GoOn,
        !before.am_choking && info.length <= 131072 ==> reaction.next == Next::Upload(info),
        !before.am_choking && info.length > 131072 ==> reaction.next is Disconnect,
{
}

/// A block that the peer was asked for is counted by its length, the request is settled, and what
/// the peer is asked for next stands behind the other requests.
pub proof fn law_block_settles_its_request(
    before: Peer,
    torrent: Torrent,
    message: PeerMessage,
    after: Peer,
    torrent_after: Torrent,
    reaction: Reaction,
    i: int,
)
    requires
        can_handle_peer_message(before, torrent, message),
        peer_message_handled(before, torrent, message, after, torrent_after, reaction),
        0 <= i < before.requested_blocks@.len(),
        message matches PeerMessage::Piece(block) && before.requested_blocks@[i] == block.info && (
        forall|j: int| 0 <= j < i ==> before.requested_blocks@[j] != block.info),
    ensures
        message matches PeerMessage::Piece(block) && {
            &&& after.downloaded_from == before.downloaded_from + block.info.length
            &&& after.requested_blocks@ == before.requested_blocks@.take(i)
                + before.requested_blocks@.skip(i + 1) + reaction.ask@
            &&& reaction.next is Downloaded
            &&& before.peer_choking ==> reaction.ask@.len() == 0
            &&& reaction.ask@.len() > 0 ==> after.requested_blocks@.len() <= 2
            &&& after.piece_availability@ == before.piece_availability@
            &&& after.uploaded_to == before.uploaded_to
        },
{
    let block = message->Piece_0;
    let requested = before.requested_blocks@;
    assert(requested.contains(requested[i]));
    law_first_of_equal_jobs_leaves(requested, block.info, i);
    let left = requested.take(i) + requested.skip(i + 1);
    if left.len() < 2 {
        let room = (2 - left.len()) as nat;
        assert forall|queue: Seq<BlockInfo>|
            (#[trigger] crate::jobs::picked(queue, before.piece_availability@, room)).len()
                <= room by {
            let end = law_queue_is_looked_through(queue, before.piece_availability@, room);
        }
    }
}

/// What a peer is asked for: nothing while it chokes this client or has two blocks to send; else
/// the first blocks in the queue that it has, as many as make two. The rest of the queue stays in
/// its order. Nothing else about the peer changes.
pub proof fn law_peer_is_asked_for_what_it_has(
    before: Peer,
    queue: Seq<BlockInfo>,
    after: Peer,
    kept: Seq<BlockInfo>,
    ask: Seq<BlockInfo>,
) -> (end: int)
    requires
        is_asked(before, queue, after, kept, ask),
    ensures
        0 <= end <= queue.len(),
        ask == on_offer(queue.take(end), before.piece_availability@),
        kept == not_on_offer(queue.take(end), before.piece_availability@) + queue.skip(end),
        before.peer_choking || before.requested_blocks@.len() >= 2 ==> end == 0,
        !before.peer_choking && before.requested_blocks@.len() < 2 ==> {
            &&& before.requested_blocks@.len() + ask.len() <= 2
            &&& before.requested_blocks@.len() + ask.len() < 2 ==> end == queue.len()
        },
        after.requested_blocks@ == before.requested_blocks@ + ask,
        after.piece_availability@ == before.piece_availability@,
        after.am_choking == before.am_choking,
        after.am_interested == before.am_interested,
        after.peer_choking == before.peer_choking,
        after.peer_interested == before.peer_interested,
{
    let availability = before.piece_availability@;
    let requested = before.requested_blocks@.len();
    if before.peer_choking || requested >= 2 {
        let end = law_queue_is_looked_through(queue, availability, 0);
        assert(queue.take(0) =~= Seq::<BlockInfo>::empty());
        reveal(Seq::filter);
        assert(on_offer(queue.take(0), availability) =~= Seq::<BlockInfo>::empty());
        assert(not_on_offer(queue.take(0), availability) + queue.skip(0) =~= queue);
        assert(ask =~= on_offer(queue.take(0), availability));
        0
    } else {
        law_queue_is_looked_through(queue, availability, (2 - requested) as nat)
    }
}

/// Whether `ask` are the blocks on offer before place `end` of `queue`, and `kept` the others.
pub open spec fn taken_up_to(
    queue: Seq<BlockInfo>,
    availability: Seq<bool>,
    ask: Seq<BlockInfo>,
    kept: Seq<BlockInfo>,
    end: int,
) -> bool {
    &&& 0 <= end <= queue.len()
    &&& ask == on_offer(queue.take(end), availability)
    &&& kept == not_on_offer(queue.take(end), availability) + queue.skip(end)
}

/// A block that the peer was asked for is put in its place, and the piece is checked where it is
/// complete. Only then is the peer asked for more, out of what the queue is after that.
pub proof fn law_block_reaches_the_torrent(
    before: Peer,
    torrent: Torrent,
    message: PeerMessage,
    after: Peer,
    torrent_after: Torrent,
    reaction: Reaction,
) -> (found: (Torrent, int))
    requires
        peer_message_handled(before, torrent, message, after, torrent_after, reaction),
        message matches PeerMessage::Piece(block) && before.requested_blocks@.contains(block.info),
    ensures
        message matches PeerMessage::Piece(block) && reaction.next matches Next::Downloaded(step)
            && {
            let (between, end) = found;
            &&& slots_checked(torrent, torrent.with_block(block), between, step)
            &&& taken_up_to(
                between.blocks_to_download@,
                before.piece_availability@,
                reaction.ask@,
                torrent_after.blocks_to_download@,
                end,
            )
            &&& torrent_after.downloaded_pieces == between.downloaded_pieces
            &&& torrent_after.downloading_piece == between.downloading_piece
            &&& torrent_after.downloading_piece_index == between.downloading_piece_index
            &&& torrent_after.peers == between.peers
            &&& torrent_after.metainfo == between.metainfo
            &&& torrent_after.files == between.files
        },
{
    let block = message->Piece_0;
    let step = reaction.next->Downloaded_0;
    let (peer_between, between) = choose|peer_between: Peer, torrent_between: Torrent|
        {
            &&& peer_between.requested_blocks@ == one_less(before.requested_blocks@, block.info)
            &&& peer_between == (Peer {
                requested_blocks: peer_between.requested_blocks,
                downloaded_from: (before.downloaded_from + block.info.length) as u32,
                ..before
            })
            &&& #[trigger] slots_checked(torrent, torrent.with_block(block), torrent_between, step)
            &&& #[trigger] is_asked(
                peer_between,
                torrent_between.blocks_to_download@,
                after,
                torrent_after.blocks_to_download@,
                reaction.ask@,
            )
            &&& only_queue_differs(torrent_between, torrent_after)
        };
    let end = law_peer_is_asked_for_what_it_has(
        peer_between,
        between.blocks_to_download@,
        after,
        torrent_after.blocks_to_download@,
        reaction.ask@,
    );
    (between, end)
}

/// A block that the peer was asked for can be taken where it has a place, the count of bytes has
/// room for it, the torrent can take it, and the peer can be asked for more after that.
pub proof fn law_which_blocks_can_be_received(peer: Peer, torrent: Torrent, block: Block)
    requires
        peer.requested_blocks@.contains(block.info),
    ensures
        can_handle_peer_message(peer, torrent, PeerMessage::Piece(block)) <==> {
            &&& torrent.wf()
            &&& peer.downloaded_from + block.info.length < 4294967296
            &&& block.info.begin / 16384 < torrent.downloading_piece@.len()
            &&& torrent.can_take(torrent.with_block(block))
            &&& can_ask_after(peer, torrent, block)
        },
{
}

/// What the peer is asked out of after a block has come: the queue while the piece is not complete;
/// the blocks of the piece itself where it is bad; and the blocks of the first missing piece where
/// it is good. Where no piece is missing any more, there is nothing to ask for.
pub proof fn law_what_is_asked_for_next(
    peer: Peer,
    torrent: Torrent,
    block: Block,
    index: u32,
    next: int,
    again: Seq<BlockInfo>,
)
    ensures
        ({
            let slots = torrent.with_block(block);
            let waiting = (peer.requested_blocks@.len() - 1) as nat;
            let choking = peer.peer_choking;
            let availability = peer.piece_availability@;
            let complete = torrent.downloading_piece_index is Some && (forall|i: int|
                0 <= i < slots.len() ==> (#[trigger] slots[i]) is Some);
            let good = sha1_digest(joined_blocks(slots))
                == torrent.metainfo.pieces@[index as int]@;
            let marked = torrent.downloaded_pieces@.update(index as int, true);
            &&& !complete ==> (can_ask_after(peer, torrent, block) <==> can_ask(
                choking,
                waiting,
                availability,
                torrent.blocks_to_download@,
            ))
            &&& complete && torrent.downloading_piece_index == Some(index) && !good && again.len()
                == slots.len() && (forall|i: int|
                0 <= i < slots.len() ==> #[trigger] again[i] == slots[i]->0.info) ==> (
            can_ask_after(peer, torrent, block) <==> can_ask(choking, waiting, availability, again))
            &&& complete && torrent.downloading_piece_index == Some(index) && good && (forall|
                i: int,
            | 0 <= i < marked.len() ==> #[trigger] marked[i]) ==> can_ask_after(
                peer,
                torrent,
                block,
            )
            &&& complete && torrent.downloading_piece_index == Some(index) && good && 0 <= next
                < marked.len() && !marked[next] && (forall|i: int|
                0 <= i < next ==> #[trigger] marked[i]) ==> (can_ask_after(peer, torrent, block)
                <==> can_ask(
                choking,
                waiting,
                availability,
                piece_blocks(next as u32, torrent.piece_size(next)),
            ))
        }),
{
    let slots = torrent.with_block(block);
    let marked = torrent.downloaded_pieces@.update(index as int, true);
    law_first_missing(marked);
    if again.len() == slots.len() && (forall|i: int|
        0 <= i < slots.len() ==> #[trigger] again[i] == slots[i]->0.info) {
        assert(again =~= infos_of(slots));
    }
}

/// When a peer that choked this client no longer does, and when the queue has changed, the peer is
/// asked for what it has.
pub proof fn law_peer_is_asked_on_news(
    before: Peer,
    torrent: Torrent,
    after: Peer,
    torrent_after: Torrent,
    reaction: Reaction,
)
    ensures
        peer_message_handled(
            before,
            torrent,
            PeerMessage::Unchoke,
            after,
            torrent_after,
            reaction,
        ) ==> {
            &&& is_asked(
                Peer { peer_choking: false, ..before },
                torrent.blocks_to_download@,
                after,
                torrent_after.blocks_to_download@,
                reaction.ask@,
            )
            &&& torrent_after.downloaded_pieces == torrent.downloaded_pieces
            &&& torrent_after.downloading_piece == torrent.downloading_piece
            &&& torrent_after.peers == torrent.peers
            &&& reaction.next is GoOn
        },
        client_message_handled(
            before,
            torrent,
            ClientMessage::UpdatedJobQueue,
            after,
            torrent_after,
            reaction,
        ) ==> {
            &&& is_asked(
                before,
                torrent.blocks_to_download@,
                after,
                torrent_after.blocks_to_download@,
                reaction.ask@,
            )
            &&& torrent_after.downloaded_pieces == torrent.downloaded_pieces
            &&& torrent_after.downloading_piece == torrent.downloading_piece
            &&& torrent_after.peers == torrent.peers
            &&& reaction.send@.len() == 0
        },
{
    lemma_sent(reaction);
}

/// A peer is asked for blocks, too, when the interest in it changes, and only then is the queue
/// touched.
pub proof fn law_peer_is_asked_when_interest_changes(
    before: Peer,
    torrent: Torrent,
    message: PeerMessage,
    after: Peer,
    torrent_after: Torrent,
    reaction: Reaction,
)
    requires
        message is Have || message is Bitfield,
        !(reaction.next is Disconnect),
        peer_message_handled(before, torrent, message, after, torrent_after, reaction),
    ensures
        after.am_interested == before.am_interested ==> {
            &&& reaction.ask@.len() == 0
            &&& torrent_after == torrent
            &&& after.requested_blocks@ == before.requested_blocks@
        },
        after.am_interested != before.am_interested ==> is_asked(
            (Peer {
                am_interested: after.am_interested,
                piece_availability: after.piece_availability,
                ..before
            }),
            torrent.blocks_to_download@,
            after,
            torrent_after.blocks_to_download@,
            reaction.ask@,
        ),
{
}

/// A peer hears that it is choked or unchoked exactly when that changes, and a request is passed
/// on as it is. Nothing else about the peer, and nothing about the torrent, changes.
pub proof fn law_client_messages_are_passed_on(
    before: Peer,
    torrent: Torrent,
    message: ClientMessage,
    after: Peer,
    torrent_after: Torrent,
    reaction: Reaction,
)
    requires
        client_message_handled(before, torrent, message, after, torrent_after, reaction),
    ensures
        reaction.next is GoOn,
        after.peer_choking == before.peer_choking,
        after.peer_interested == before.peer_interested,
        after.piece_availability@ == before.piece_availability@,
        after.downloaded_from == before.downloaded_from,
        after.uploaded_to == before.uploaded_to,
        message is Choke ==> after.am_choking,
        message is Unchoke ==> !after.am_choking,
        !(message is Choke || message is Unchoke) ==> after.am_choking == before.am_choking,
        message is Choke || message is Unchoke ==> {
            &&& after.am_choking == before.am_choking ==> reaction.send@.len() == 0
            &&& after.am_choking != before.am_choking ==> reaction.send@.len() == 1
            &&& after.am_choking && !before.am_choking ==> reaction.send@[0] is Choke
            &&& !after.am_choking && before.am_choking ==> reaction.send@[0] is Unchoke
        },
        message matches ClientMessage::RequestPiece(info) ==> {
            &&& reaction.send@.len() == 1
            &&& reaction.send@[0] == PeerMessage::Request(info)
        },
        message is Choke || message is Unchoke || message is RequestPiece ==> {
            &&& reaction.ask@.len() == 0
            &&& torrent_after == torrent
            &&& after.requested_blocks@ == before.requested_blocks@
            &&& after.am_interested == before.am_interested
        },
{
    lemma_sent(reaction);
    if reaction.send@.len() > 0 {
        assert(messages_of(reaction.send@)[0] == reaction.send@[0]@);
    }
}

/// A peer that this client may ask is one whose pieces are known as far as the queue is looked
/// through; a peer that chokes this client or has two blocks to send is not asked at all.
pub proof fn law_who_can_be_asked(
    choking: bool,
    requested: nat,
    availability: Seq<bool>,
    queue: Seq<BlockInfo>,
)
    ensures
        choking || requested >= 2 ==> can_ask(choking, requested, availability, queue),
        !choking && requested < 2 ==> (can_ask(choking, requested, availability, queue) <==> (
        forall|i: int|
            #![trigger queue[i]]
            0 <= i < queue.len() && queue[i].index >= availability.len() ==> on_offer(
                queue.take(i),
                availability,
            ).len() >= 2 - requested)),
{
    if !choking && requested < 2 {
        law_unknown_pieces_are_not_looked_at(queue, availability, (2 - requested) as nat);
    }
}

/// Whether the queue holds blocks of known pieces alone.
pub open spec fn queue_is_known(availability: Seq<bool>, torrent: Torrent) -> bool {
    forall|i: int|
        0 <= i < torrent.blocks_to_download@.len()
            ==> (#[trigger] torrent.blocks_to_download@[i]).index < availability.len()
}

/// While the queue holds blocks of known pieces alone, and of every piece it is known whether it
/// is there and whether the peer has it, no message but a block is beyond what can be dealt with,
/// as long as it speaks of pieces that there are.
pub proof fn law_ordinary_messages_can_be_dealt_with(
    peer: Peer,
    torrent: Torrent,
    message: PeerMessage,
    client_message: ClientMessage,
)
    requires
        queue_is_known(peer.piece_availability@, torrent),
        torrent.downloaded_pieces@.len() == peer.piece_availability@.len(),
        torrent.downloaded_pieces@.len() == torrent.metainfo.pieces@.len(),
    ensures
        can_handle_client_message(peer, torrent, client_message),
        !(message is Piece) && (message matches PeerMessage::Have(index) ==> index
            < torrent.metainfo.pieces@.len()) && (message matches PeerMessage::Bitfield(bits)
            ==> bits@.len() >= torrent.metainfo.pieces@.len()) ==> can_handle_peer_message(
            peer,
            torrent,
            message,
        ),
        message matches PeerMessage::Piece(block) ==> (!peer.requested_blocks@.contains(block.info)
            ==> can_handle_peer_message(peer, torrent, message)),
{
    let queue = torrent.blocks_to_download@;
    let requested = peer.requested_blocks@.len();
    law_who_can_be_asked(peer.peer_choking, requested, peer.piece_availability@, queue);
    law_who_can_be_asked(false, requested, peer.piece_availability@, queue);
    if let PeerMessage::Have(index) = message {
        let marked = peer.piece_availability@.update(index as int, true);
        law_who_can_be_asked(peer.peer_choking, requested, marked, queue);
    }
    if let PeerMessage::Bitfield(bits) = message {
        let marked = bits@.take(torrent.metainfo.pieces@.len() as int);
        law_who_can_be_asked(peer.peer_choking, requested, marked, queue);
    }
}

} // verus!

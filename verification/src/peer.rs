//! A peer: what is known of it, and what this client does in answer to what happens.
use crate::address::PeerAddress;
use crate::bytes::{sha1_digest, sha1_hash};
use crate::client_message::{broadcast_to, ClientMessage, Notice};
use crate::constants::MAX_ALLOWED_BLOCK_SIZE;
use crate::jobs::{
    check_pieces_known, contains_job, has_piece, law_asking_loses_no_job,
    law_picking_takes_what_the_peer_has, lemma_place_of, one_less, passed_over, picked,
    pieces_known, push_jobs, remove_job, take_jobs,
};
use crate::peer_message::{Block, BlockInfo, MessageView, PeerMessage};
use crate::pieces::{
    find_first_missing, first_missing, law_first_missing, piece_blocks, push_piece_blocks,
};
use crate::rolling::{
    average, law_recorded_is_window, record, recorded, rolling_average, total,
};
use crate::torrent::{all_here, infos_of, joined_blocks, slots_checked, PieceStep, Torrent};
use vstd::prelude::*;

verus! {

/// Number of blocks that a peer is asked for at a time.
pub const QUEUE_SIZE: usize = 2;

pub struct Peer {
    pub address: PeerAddress,
    /// The name by which the peer goes; it has none before the handshake.
    pub peer_id: Option<[u8; 20]>,
    pub am_choking: bool,
    pub am_interested: bool,
    pub peer_choking: bool,
    pub peer_interested: bool,
    /// Number of bytes that have come from the peer.
    pub downloaded_from: u32,
    /// Number of bytes that have gone to the peer.
    pub uploaded_to: u32,
    /// What these numbers were a second ago.
    pub downloaded_from_last_second: u32,
    pub uploaded_to_last_second: u32,
    /// Number of bytes in each of the last seconds, the latest first.
    pub rolling_download: Vec<u32>,
    pub rolling_upload: Vec<u32>,
    /// Averages over the last seconds.
    pub downloaded_from_rate: u32,
    pub uploaded_to_rate: u32,
    /// For each piece whether the peer has it.
    pub piece_availability: Vec<bool>,
    /// Blocks that the peer has been asked for.
    pub requested_blocks: Vec<BlockInfo>,
}

impl Peer {
    /// The windows hold no more in all than has been transferred.
    pub open spec fn wf(&self) -> bool {
        &&& self.rolling_download@.len() <= crate::constants::ROLLING_AVERAGE_SIZE
        &&& self.rolling_upload@.len() <= crate::constants::ROLLING_AVERAGE_SIZE
        &&& total(self.rolling_download@) <= self.downloaded_from_last_second
        &&& total(self.rolling_upload@) <= self.uploaded_to_last_second
        &&& self.downloaded_from_last_second <= self.downloaded_from
        &&& self.uploaded_to_last_second <= self.uploaded_to
    }
}

/// The blocks that a peer is asked for out of `queue`, when it has been asked for `requested`
/// blocks already: none where it chokes this client or has been asked for enough.
pub open spec fn to_ask(
    choking: bool,
    requested: nat,
    availability: Seq<bool>,
    queue: Seq<BlockInfo>,
) -> Seq<BlockInfo> {
    if choking || requested >= QUEUE_SIZE {
        Seq::empty()
    } else {
        picked(queue, availability, (QUEUE_SIZE - requested) as nat)
    }
}

/// What is left of `queue` after [`to_ask`].
pub open spec fn to_keep(
    choking: bool,
    requested: nat,
    availability: Seq<bool>,
    queue: Seq<BlockInfo>,
) -> Seq<BlockInfo> {
    if choking || requested >= QUEUE_SIZE {
        queue
    } else {
        passed_over(queue, availability, (QUEUE_SIZE - requested) as nat)
    }
}

/// Whether every block that is looked at by [`to_ask`] is of a known piece.
pub open spec fn can_ask(
    choking: bool,
    requested: nat,
    availability: Seq<bool>,
    queue: Seq<BlockInfo>,
) -> bool {
    choking || requested >= QUEUE_SIZE || pieces_known(
        queue,
        availability,
        (QUEUE_SIZE - requested) as nat,
    )
}

/// Whether `after`, `kept` and `ask` are what follows when a peer in the state `before` is asked
/// for blocks out of `queue`.
pub open spec fn is_asked(
    before: Peer,
    queue: Seq<BlockInfo>,
    after: Peer,
    kept: Seq<BlockInfo>,
    ask: Seq<BlockInfo>,
) -> bool {
    let requested = before.requested_blocks@;
    let availability = before.piece_availability@;
    &&& ask == to_ask(before.peer_choking, requested.len(), availability, queue)
    &&& kept == to_keep(before.peer_choking, requested.len(), availability, queue)
    &&& after.requested_blocks@ == requested + ask
    &&& after == (Peer { requested_blocks: after.requested_blocks, ..before })
}

/// Whether a peer has a piece that is not there yet.
pub open spec fn is_interesting(downloaded: Seq<bool>, availability: Seq<bool>) -> bool {
    exists|i: int| 0 <= i < downloaded.len() && !downloaded[i] && #[trigger] availability[i]
}

/// What a peer is told when this client's interest in it is `now` and was `before`.
pub open spec fn interest_news(before: bool, now: bool) -> Seq<MessageView> {
    if before == now {
        Seq::empty()
    } else if now {
        seq![MessageView::Interested]
    } else {
        seq![MessageView::NotInterested]
    }
}

/// Whether `torrent` is `before` but for the queue.
pub open spec fn only_queue_differs(before: Torrent, torrent: Torrent) -> bool {
    torrent == (Torrent { blocks_to_download: torrent.blocks_to_download, ..before })
}

/// Whether `after`, `torrent_after`, `news` and `ask` are what follows when this client's interest
/// in a peer in the state `before` is brought up to date: where it changes, the peer is told and
/// asked for blocks.
pub open spec fn interest_updated(
    before: Peer,
    torrent: Torrent,
    after: Peer,
    torrent_after: Torrent,
    news: Seq<MessageView>,
    ask: Seq<BlockInfo>,
) -> bool {
    let now = is_interesting(torrent.downloaded_pieces@, before.piece_availability@);
    &&& news == interest_news(before.am_interested, now)
    &&& if now == before.am_interested {
        &&& after == before
        &&& torrent_after == torrent
        &&& ask.len() == 0
    } else {
        &&& is_asked(
            Peer { am_interested: now, ..before },
            torrent.blocks_to_download@,
            after,
            torrent_after.blocks_to_download@,
            ask,
        )
        &&& only_queue_differs(torrent, torrent_after)
    }
}

/// Whether the interest in a peer that has the pieces `availability` can be brought up to date.
pub open spec fn can_update_interest(
    peer: Peer,
    availability: Seq<bool>,
    torrent: Torrent,
) -> bool {
    &&& torrent.downloaded_pieces@.len() == availability.len()
    &&& is_interesting(torrent.downloaded_pieces@, availability) != peer.am_interested ==> can_ask(
        peer.peer_choking,
        peer.requested_blocks@.len(),
        availability,
        torrent.blocks_to_download@,
    )
}

/// What the messages stand for.
pub open spec fn messages_of(messages: Seq<PeerMessage>) -> Seq<MessageView> {
    Seq::new(messages.len(), |i: int| messages[i]@)
}

/// What has to be done besides.
#[derive(Debug)]
pub enum Next {
    /// Nothing.
    GoOn,
    /// The connection is to be closed.
    Disconnect,
    /// A block is to be read and sent.
    Upload(BlockInfo),
    /// The peer is interested: the torrent is to be told by its `interested_peer`.
    Unchoke,
    /// A block has come.
    Downloaded(PieceStep),
}

/// What this client does in answer to an event.
#[derive(Debug)]
pub struct Reaction {
    /// Messages for the peer, in their order.
    pub send: Vec<PeerMessage>,
    /// Blocks that the peer is to be asked for.
    pub ask: Vec<BlockInfo>,
    pub next: Next,
}

impl Peer {
    /// A peer with which nothing has been exchanged yet.
    pub fn new(address: PeerAddress, torrent: &Torrent) -> (peer: Peer)
        ensures
            peer.wf(),
            peer.address == address,
            peer.peer_id is None,
            peer.am_choking,
            !peer.am_interested,
            peer.peer_choking,
            !peer.peer_interested,
            peer.downloaded_from == 0,
            peer.uploaded_to == 0,
            peer.downloaded_from_last_second == 0,
            peer.uploaded_to_last_second == 0,
            peer.rolling_download@.len() == 0,
            peer.rolling_upload@.len() == 0,
            peer.downloaded_from_rate == 0,
            peer.uploaded_to_rate == 0,
            peer.piece_availability@ == Seq::new(torrent.metainfo.pieces@.len(), |i: int| false),
            peer.requested_blocks@.len() == 0,
    {
        let pieces: usize = torrent.metainfo.pieces.len();
        let piece_availability: Vec<bool> = vec![false; pieces];
        assert(piece_availability@ =~= Seq::new(torrent.metainfo.pieces@.len(), |i: int| false));
        Peer {
            address,
            peer_id: None,
            am_choking: true,
            am_interested: false,
            peer_choking: true,
            peer_interested: false,
            downloaded_from: 0,
            uploaded_to: 0,
            downloaded_from_last_second: 0,
            uploaded_to_last_second: 0,
            rolling_download: Vec::new(),
            rolling_upload: Vec::new(),
            downloaded_from_rate: 0,
            uploaded_to_rate: 0,
            piece_availability,
            requested_blocks: Vec::new(),
        }
    }

    /// The message that follows the handshake: which pieces are there.
    pub fn greeting(torrent: &Torrent) -> (message: PeerMessage)
        ensures
            message@ == MessageView::Bitfield(torrent.downloaded_pieces@),
    {
        let bits: Vec<bool> = torrent.downloaded_pieces.clone();
        assert(bits@ =~= torrent.downloaded_pieces@);
        PeerMessage::Bitfield(bits)
    }

    /// Takes blocks that the peer is to be asked for out of the queue. Where no block in the queue
    /// is of a piece that the peer has, the queue stays as it is.
    pub fn try_update_job_queue(&mut self, queue: &mut Vec<BlockInfo>) -> (ask: Vec<BlockInfo>)
        requires
            can_ask(
                old(self).peer_choking,
                old(self).requested_blocks@.len(),
                old(self).piece_availability@,
                old(queue)@,
            ),
        ensures
            is_asked(*old(self), old(queue)@, *final(self), final(queue)@, ask@),
            old(self).peer_choking || old(self).requested_blocks@.len() >= QUEUE_SIZE ==> {
                &&& *final(self) == *old(self)
                &&& *final(queue) == *old(queue)
            },
    {
        if self.requested_blocks.len() >= QUEUE_SIZE || self.peer_choking {
            let none: Vec<BlockInfo> = Vec::new();
            assert(self.requested_blocks@ =~= self.requested_blocks@ + none@);
            return none;
        }
        let room: usize = QUEUE_SIZE - self.requested_blocks.len();
        let ask: Vec<BlockInfo> = take_jobs(queue, &self.piece_availability, room);
        push_jobs(&mut self.requested_blocks, &ask);
        ask
    }
}

/// Whether a client's message can be dealt with.
pub open spec fn can_handle_client_message(
    peer: Peer,
    torrent: Torrent,
    message: ClientMessage,
) -> bool {
    match message {
        ClientMessage::PieceDownloaded(_) => can_update_interest(
            peer,
            peer.piece_availability@,
            torrent,
        ),
        ClientMessage::UpdatedJobQueue => can_ask(
            peer.peer_choking,
            peer.requested_blocks@.len(),
            peer.piece_availability@,
            torrent.blocks_to_download@,
        ),
        _ => true,
    }
}

/// Whether `after`, `torrent_after` and `reaction` are what follows on a message of the client
/// itself. A peer is told of a piece that has come, and of the interest in it where that changes;
/// it is told that it is choked or unchoked unless it is so already; and it is asked for a block.
pub open spec fn client_message_handled(
    before: Peer,
    torrent: Torrent,
    message: ClientMessage,
    after: Peer,
    torrent_after: Torrent,
    reaction: Reaction,
) -> bool {
    let sent = messages_of(reaction.send@);
    &&& reaction.next is GoOn
    &&& match message {
        ClientMessage::PieceDownloaded(index) => {
            &&& sent.len() >= 1
            &&& sent[0] == MessageView::Have(index)
            &&& interest_updated(
                before,
                torrent,
                after,
                torrent_after,
                sent.skip(1),
                reaction.ask@,
            )
        },
        ClientMessage::Choke => {
            &&& sent == if before.am_choking {
                Seq::<MessageView>::empty()
            } else {
                seq![MessageView::Choke]
            }
            &&& reaction.ask@.len() == 0
            &&& after == (Peer { am_choking: true, ..before })
            &&& torrent_after == torrent
        },
        ClientMessage::Unchoke => {
            &&& sent == if before.am_choking {
                seq![MessageView::Unchoke]
            } else {
                Seq::<MessageView>::empty()
            }
            &&& reaction.ask@.len() == 0
            &&& after == (Peer { am_choking: false, ..before })
            &&& torrent_after == torrent
        },
        ClientMessage::RequestPiece(info) => {
            &&& sent == seq![MessageView::Request(info)]
            &&& reaction.ask@.len() == 0
            &&& after == before
            &&& torrent_after == torrent
        },
        ClientMessage::UpdatedJobQueue => {
            &&& sent.len() == 0
            &&& is_asked(
                before,
                torrent.blocks_to_download@,
                after,
                torrent_after.blocks_to_download@,
                reaction.ask@,
            )
            &&& only_queue_differs(torrent, torrent_after)
        },
    }
}

impl Peer {
    /// Brings the interest in the peer up to date. What the peer is told is appended to `send`.
    fn update_interest(&mut self, torrent: &mut Torrent, send: &mut Vec<PeerMessage>) -> (ask: Vec<
        BlockInfo,
    >)
        requires
            can_update_interest(*old(self), old(self).piece_availability@, *old(torrent)),
        ensures
            final(send)@.len() >= old(send)@.len(),
            final(send)@.take(old(send)@.len() as int) == old(send)@,
            interest_updated(
                *old(self),
                *old(torrent),
                *final(self),
                *final(torrent),
                messages_of(final(send)@.skip(old(send)@.len() as int)),
                ask@,
            ),
    {
        let interested: bool = has_missing_piece(&torrent.downloaded_pieces, &self.piece_availability);
        if interested == self.am_interested {
            let none: Vec<BlockInfo> = Vec::new();
            assert(send@.take(send@.len() as int) =~= send@);
            assert(messages_of(send@.skip(send@.len() as int)) =~= Seq::<MessageView>::empty());
            return none;
        }
        self.am_interested = interested;
        if interested {
            send.push(PeerMessage::Interested);
        } else {
            send.push(PeerMessage::NotInterested);
        }
        assert(send@.take(old(send)@.len() as int) =~= old(send)@);
        assert(messages_of(send@.skip(old(send)@.len() as int)) =~= interest_news(
            !interested,
            interested,
        ));
        self.try_update_job_queue(&mut torrent.blocks_to_download)
    }

    /// What follows on a message of the client itself.
    pub fn handle_client_message(&mut self, torrent: &mut Torrent, message: ClientMessage) -> (
    reaction: Reaction)
        requires
            can_handle_client_message(*old(self), *old(torrent), message),
        ensures
            client_message_handled(
                *old(self),
                *old(torrent),
                message,
                *final(self),
                *final(torrent),
                reaction,
            ),
    {
        let mut send: Vec<PeerMessage> = Vec::new();
        let mut ask: Vec<BlockInfo> = Vec::new();
        assert(messages_of(send@) =~= Seq::<MessageView>::empty());
        match message {
            ClientMessage::PieceDownloaded(index) => {
                send.push(PeerMessage::Have(index));
                ask = self.update_interest(torrent, &mut send);
                assert(send@[0] == send@.take(1)[0]);
                assert(messages_of(send@).skip(1) =~= messages_of(send@.skip(1)));
            },
            ClientMessage::Choke => {
                if !self.am_choking {
                    self.am_choking = true;
                    send.push(PeerMessage::Choke);
                    assert(messages_of(send@) =~= seq![MessageView::Choke]);
                }
            },
            ClientMessage::Unchoke => {
                if self.am_choking {
                    self.am_choking = false;
                    send.push(PeerMessage::Unchoke);
                    assert(messages_of(send@) =~= seq![MessageView::Unchoke]);
                }
            },
            ClientMessage::RequestPiece(info) => {
                send.push(PeerMessage::Request(info));
                assert(messages_of(send@) =~= seq![MessageView::Request(info)]);
            },
            ClientMessage::UpdatedJobQueue => {
                ask = self.try_update_job_queue(&mut torrent.blocks_to_download);
            },
        }
        Reaction { send, ask, next: Next::GoOn }
    }

    /// Whether a message of the client itself can be dealt with.
    pub fn accepts_client_message(&self, torrent: &Torrent, message: ClientMessage) -> (r: bool)
        ensures
            r == can_handle_client_message(*self, *torrent, message),
    {
        match message {
            ClientMessage::PieceDownloaded(_) => self.check_can_update_interest(
                &self.piece_availability,
                torrent,
            ),
            ClientMessage::UpdatedJobQueue => check_can_ask(
                self.peer_choking,
                self.requested_blocks.len(),
                &self.piece_availability,
                &torrent.blocks_to_download,
            ),
            _ => true,
        }
    }

    /// Whether the interest in the peer can be brought up to date when it has the pieces
    /// `availability`.
    fn check_can_update_interest(&self, availability: &Vec<bool>, torrent: &Torrent) -> (r: bool)
        ensures
            r == can_update_interest(*self, availability@, *torrent),
    {
        torrent.downloaded_pieces.len() == availability.len() && (has_missing_piece(
            &torrent.downloaded_pieces,
            availability,
        ) == self.am_interested || check_can_ask(
            self.peer_choking,
            self.requested_blocks.len(),
            availability,
            &torrent.blocks_to_download,
        ))
    }
}

/// Whether a peer has a piece that is not there yet.
fn has_missing_piece(downloaded: &Vec<bool>, availability: &Vec<bool>) -> (r: bool)
    requires
        downloaded@.len() == availability@.len(),
    ensures
        r == is_interesting(downloaded@, availability@),
{
    let n: usize = downloaded.len();
    let mut i: usize = 0;
    while i < n
        invariant
            i <= n == downloaded@.len() == availability@.len(),
            forall|j: int| 0 <= j < i ==> !(!downloaded@[j] && #[trigger] availability@[j]),
        decreases n - i,
    {
        if !downloaded[i] && availability[i] {
            return true;
        }
        i = i + 1;
    }
    false
}

/// Whether every block that would be looked at is of a known piece.
fn check_can_ask(
    choking: bool,
    requested: usize,
    availability: &Vec<bool>,
    queue: &Vec<BlockInfo>,
) -> (r: bool)
    ensures
        r == can_ask(choking, requested as nat, availability@, queue@),
{
    choking || requested >= QUEUE_SIZE || check_pieces_known(
        queue,
        availability,
        QUEUE_SIZE - requested,
    )
}

/// Whether the peer can be asked for more blocks once a block has come that it was asked for: out
/// of the queue while the piece is not complete, out of the blocks of the next piece when the piece
/// is good, and out of its own blocks when it is bad.
pub open spec fn can_ask_after(peer: Peer, torrent: Torrent, block: Block) -> bool {
    let choking = peer.peer_choking;
    let requested = (peer.requested_blocks@.len() - 1) as nat;
    let availability = peer.piece_availability@;
    let slots = torrent.with_block(block);
    match torrent.downloading_piece_index {
        Some(index) if all_here(slots) => {
            if sha1_digest(joined_blocks(slots)) == torrent.metainfo.pieces@[index as int]@ {
                match first_missing(torrent.downloaded_pieces@.update(index as int, true)) {
                    Some(next) => can_ask(
                        choking,
                        requested,
                        availability,
                        piece_blocks(next as u32, torrent.piece_size(next)),
                    ),
                    None => true,
                }
            } else {
                can_ask(choking, requested, availability, infos_of(slots))
            }
        },
        _ => can_ask(choking, requested, availability, torrent.blocks_to_download@),
    }
}

/// Whether a block that the peer was asked for can be taken: it has a place, what follows its
/// arrival is without trouble, and the peer can be asked for more.
pub open spec fn can_receive(peer: Peer, torrent: Torrent, block: Block) -> bool {
    &&& torrent.wf()
    &&& peer.downloaded_from + block.info.length <= u32::MAX
    &&& torrent.slot_of(block.info) < torrent.downloading_piece@.len()
    &&& torrent.can_take(torrent.with_block(block))
    &&& can_ask_after(peer, torrent, block)
}

/// Whether a message of the peer can be dealt with.
pub open spec fn can_handle_peer_message(
    peer: Peer,
    torrent: Torrent,
    message: PeerMessage,
) -> bool {
    match message {
        PeerMessage::Unchoke => can_ask(
            false,
            peer.requested_blocks@.len(),
            peer.piece_availability@,
            torrent.blocks_to_download@,
        ),
        PeerMessage::Have(index) => {
            &&& index < peer.piece_availability@.len()
            &&& can_update_interest(
                peer,
                peer.piece_availability@.update(index as int, true),
                torrent,
            )
        },
        PeerMessage::Bitfield(bits) => {
            ||| torrent.metainfo.pieces@.len() < peer.piece_availability@.len()
            ||| {
                &&& torrent.metainfo.pieces@.len() <= bits@.len()
                &&& can_update_interest(
                    peer,
                    bits@.take(torrent.metainfo.pieces@.len() as int),
                    torrent,
                )
            }
        },
        PeerMessage::Piece(block) => peer.requested_blocks@.contains(block.info) ==> can_receive(
            peer,
            torrent,
            block,
        ),
        _ => true,
    }
}

/// Whether `after`, `torrent_after`, `step` and `ask` are what follows when a block has come that
/// the peer was asked for: it is counted, given to the torrent, and the peer is asked for more.
pub open spec fn block_received(
    before: Peer,
    torrent: Torrent,
    block: Block,
    after: Peer,
    torrent_after: Torrent,
    step: PieceStep,
    ask: Seq<BlockInfo>,
) -> bool {
    exists|peer_between: Peer, torrent_between: Torrent|
        {
            &&& peer_between.requested_blocks@ == one_less(
                before.requested_blocks@,
                block.info,
            )
            &&& peer_between == (Peer {
                requested_blocks: peer_between.requested_blocks,
                downloaded_from: (before.downloaded_from + block.info.length) as u32,
                ..before
            })
            &&& #[trigger] slots_checked(torrent, torrent.with_block(block), torrent_between, step)
            &&& #[trigger] is_asked(
                peer_between,
                torrent_between.blocks_to_download@,
                after,
                torrent_after.blocks_to_download@,
                ask,
            )
            &&& only_queue_differs(torrent_between, torrent_after)
        }
}

/// Whether `after`, `torrent_after` and `reaction` are what follows on a message of the peer.
pub open spec fn peer_message_handled(
    before: Peer,
    torrent: Torrent,
    message: PeerMessage,
    after: Peer,
    torrent_after: Torrent,
    reaction: Reaction,
) -> bool {
    let sent = messages_of(reaction.send@);
    let ask = reaction.ask@;
    match message {
        PeerMessage::Choke => {
            &&& after == (Peer { peer_choking: true, ..before })
            &&& torrent_after == torrent
            &&& sent.len() == 0
            &&& ask.len() == 0
            &&& reaction.next is GoOn
        },
        PeerMessage::Unchoke => {
            &&& is_asked(
                Peer { peer_choking: false, ..before },
                torrent.blocks_to_download@,
                after,
                torrent_after.blocks_to_download@,
                ask,
            )
            &&& only_queue_differs(torrent, torrent_after)
            &&& sent.len() == 0
            &&& reaction.next is GoOn
        },
        PeerMessage::Interested => {
            &&& after == (Peer { peer_interested: true, ..before })
            &&& torrent_after == torrent
            &&& sent.len() == 0
            &&& ask.len() == 0
            &&& reaction.next is Unchoke
        },
        PeerMessage::NotInterested => {
            &&& after == (Peer { peer_interested: false, ..before })
            &&& torrent_after == torrent
            &&& sent.len() == 0
            &&& ask.len() == 0
            &&& reaction.next is GoOn
        },
        PeerMessage::Have(index) => {
            &&& after.piece_availability@ == before.piece_availability@.update(index as int, true)
            &&& interest_updated(
                Peer { piece_availability: after.piece_availability, ..before },
                torrent,
                after,
                torrent_after,
                sent,
                ask,
            )
            &&& reaction.next is GoOn
        },
        PeerMessage::Bitfield(bits) => {
            let pieces = torrent.metainfo.pieces@.len();
            if pieces < before.piece_availability@.len() {
                &&& after == before
                &&& torrent_after == torrent
                &&& sent.len() == 0
                &&& ask.len() == 0
                &&& reaction.next is Disconnect
            } else {
                &&& after.piece_availability@ == bits@.take(pieces as int)
                &&& interest_updated(
                    Peer { piece_availability: after.piece_availability, ..before },
                    torrent,
                    after,
                    torrent_after,
                    sent,
                    ask,
                )
                &&& reaction.next is GoOn
            }
        },
        PeerMessage::Request(info) => {
            &&& after == before
            &&& torrent_after == torrent
            &&& sent.len() == 0
            &&& ask.len() == 0
            &&& reaction.next == if before.am_choking {
                Next::GoOn
            } else if info.length > MAX_ALLOWED_BLOCK_SIZE {
                Next::Disconnect
            } else {
                Next::Upload(info)
            }
        },
        PeerMessage::Piece(block) => {
            &&& sent.len() == 0
            &&& if before.requested_blocks@.contains(block.info) {
                &&& reaction.next matches Next::Downloaded(step)
                &&& block_received(before, torrent, block, after, torrent_after, step, ask)
            } else {
                &&& after == before
                &&& torrent_after == torrent
                &&& ask.len() == 0
                &&& reaction.next is GoOn
            }
        },
        PeerMessage::Cancel(_) => {
            &&& after == before
            &&& torrent_after == torrent
            &&& sent.len() == 0
            &&& ask.len() == 0
            &&& reaction.next is GoOn
        },
    }
}

/// After a block has come, the peer can be asked for more.
proof fn lemma_can_ask_after(
    peer: Peer,
    torrent: Torrent,
    block: Block,
    after: Torrent,
    step: PieceStep,
)
    requires
        can_receive(peer, torrent, block),
        slots_checked(torrent, torrent.with_block(block), after, step),
    ensures
        can_ask(
            peer.peer_choking,
            (peer.requested_blocks@.len() - 1) as nat,
            peer.piece_availability@,
            after.blocks_to_download@,
        ),
{
    let slots = torrent.with_block(block);
    if all_here(slots) && torrent.downloading_piece_index is Some {
        let marked = torrent.downloaded_pieces@.update(
            torrent.downloading_piece_index->0 as int,
            true,
        );
        assert(torrent.blocks_to_download@ + infos_of(slots) =~= infos_of(slots));
        match first_missing(marked) {
            Some(next) => {
                let blocks = piece_blocks(next as u32, torrent.piece_size(next));
                law_first_missing(marked);
                assert(torrent.blocks_to_download@ + blocks =~= blocks);
            },
            None => {},
        }
    }
}

impl Peer {
    /// Takes a block that the peer was asked for.
    fn receive_block(&mut self, torrent: &mut Torrent, block: Block) -> (r: (
        PieceStep,
        Vec<BlockInfo>,
    ))
        requires
            old(self).requested_blocks@.contains(block.info),
            can_receive(*old(self), *old(torrent), block),
        ensures
            block_received(*old(self), *old(torrent), block, *final(self), *final(torrent), r.0, r.1@),
    {
        remove_job(&mut self.requested_blocks, block.info);
        self.downloaded_from = self.downloaded_from + block.info.length;
        let ghost peer_between = *self;
        let step: PieceStep = torrent.block_downloaded(block);
        let ghost torrent_between = *torrent;
        proof {
            lemma_place_of(old(self).requested_blocks@, block.info);
            lemma_can_ask_after(*old(self), *old(torrent), block, torrent_between, step);
        }
        let ask: Vec<BlockInfo> = self.try_update_job_queue(&mut torrent.blocks_to_download);
        assert(slots_checked(*old(torrent), old(torrent).with_block(block), torrent_between, step));
        assert(is_asked(
            peer_between,
            torrent_between.blocks_to_download@,
            *self,
            torrent.blocks_to_download@,
            ask@,
        ));
        (step, ask)
    }

    /// What follows on a message of the peer.
    pub fn handle_peer_message(&mut self, torrent: &mut Torrent, message: PeerMessage) -> (reaction:
        Reaction)
        requires
            can_handle_peer_message(*old(self), *old(torrent), message),
        ensures
            peer_message_handled(
                *old(self),
                *old(torrent),
                message,
                *final(self),
                *final(torrent),
                reaction,
            ),
    {
        let mut send: Vec<PeerMessage> = Vec::new();
        let mut ask: Vec<BlockInfo> = Vec::new();
        let mut next: Next = Next::GoOn;
        match message {
            PeerMessage::Choke => {
                self.peer_choking = true;
                ask = self.try_update_job_queue(&mut torrent.blocks_to_download);
            },
            PeerMessage::Unchoke => {
                self.peer_choking = false;
                ask = self.try_update_job_queue(&mut torrent.blocks_to_download);
            },
            PeerMessage::Interested => {
                self.peer_interested = true;
                next = Next::Unchoke;
            },
            PeerMessage::NotInterested => {
                self.peer_interested = false;
            },
            PeerMessage::Have(index) => {
                self.piece_availability.set(index as usize, true);
                ask = self.update_interest(torrent, &mut send);
                assert(send@.skip(0) =~= send@);
            },
            PeerMessage::Bitfield(bits) => {
                let pieces: usize = torrent.metainfo.pieces.len();
                if pieces < self.piece_availability.len() {
                    next = Next::Disconnect;
                } else {
                    let mut availability: Vec<bool> = bits;
                    availability.truncate(pieces);
                    assert(availability@ =~= bits@.take(pieces as int));
                    self.piece_availability = availability;
                    ask = self.update_interest(torrent, &mut send);
                    assert(send@.skip(0) =~= send@);
                }
            },
            PeerMessage::Request(info) => {
                if !self.am_choking {
                    if info.length > MAX_ALLOWED_BLOCK_SIZE {
                        next = Next::Disconnect;
                    } else {
                        next = Next::Upload(info);
                    }
                }
            },
            PeerMessage::Piece(block) => {
                if contains_job(&self.requested_blocks, block.info) {
                    let (step, asked) = self.receive_block(torrent, block);
                    ask = asked;
                    next = Next::Downloaded(step);
                }
            },
            PeerMessage::Cancel(_) => {},
        }
        Reaction { send, ask, next }
    }
}

impl Peer {
    /// What follows on a message of the peer, where it can be dealt with; otherwise nothing
    /// happens.
    pub fn handle_peer_message_if_accepted(
        &mut self,
        torrent: &mut Torrent,
        message: PeerMessage,
    ) -> (reaction: Option<Reaction>)
        requires
            old(torrent).wf(),
        ensures
            reaction is Some <==> can_handle_peer_message(*old(self), *old(torrent), message),
            match reaction {
                Some(reaction) => peer_message_handled(
                    *old(self),
                    *old(torrent),
                    message,
                    *final(self),
                    *final(torrent),
                    reaction,
                ),
                None => *final(self) == *old(self) && *final(torrent) == *old(torrent),
            },
    {
        if self.accepts_peer_message(torrent, &message) {
            Some(self.handle_peer_message(torrent, message))
        } else {
            None
        }
    }

    /// Whether a message of the peer can be dealt with.
    pub fn accepts_peer_message(&self, torrent: &Torrent, message: &PeerMessage) -> (r: bool)
        requires
            torrent.wf(),
        ensures
            r == can_handle_peer_message(*self, *torrent, *message),
    {
        match message {
            PeerMessage::Unchoke => check_can_ask(
                false,
                self.requested_blocks.len(),
                &self.piece_availability,
                &torrent.blocks_to_download,
            ),
            PeerMessage::Have(index) => {
                if *index as usize >= self.piece_availability.len() {
                    return false;
                }
                let mut availability: Vec<bool> = self.piece_availability.clone();
                assert(availability@ =~= self.piece_availability@);
                availability.set(*index as usize, true);
                self.check_can_update_interest(&availability, torrent)
            },
            PeerMessage::Bitfield(bits) => {
                let pieces: usize = torrent.metainfo.pieces.len();
                if pieces < self.piece_availability.len() {
                    return true;
                }
                if bits.len() < pieces {
                    return false;
                }
                let mut availability: Vec<bool> = bits.clone();
                assert(availability@ =~= bits@);
                availability.truncate(pieces);
                assert(availability@ =~= bits@.take(pieces as int));
                self.check_can_update_interest(&availability, torrent)
            },
            PeerMessage::Piece(block) => !contains_job(&self.requested_blocks, block.info)
                || self.check_can_receive(torrent, block),
            _ => true,
        }
    }

    /// Whether a block that the peer was asked for can be taken.
    fn check_can_receive(&self, torrent: &Torrent, block: &Block) -> (r: bool)
        requires
            torrent.wf(),
            self.requested_blocks@.contains(block.info),
        ensures
            r == can_receive(*self, *torrent, *block),
    {
        if block.info.length > u32::MAX - self.downloaded_from || !torrent.accepts_block(block) {
            return false;
        }
        let requested: usize = self.requested_blocks.len() - 1;
        let index: u32 = match torrent.downloading_piece_index {
            Some(index) => index,
            None => {
                return check_can_ask(
                    self.peer_choking,
                    requested,
                    &self.piece_availability,
                    &torrent.blocks_to_download,
                );
            },
        };
        let infos: Vec<BlockInfo> = match torrent.completed_by(block) {
            Some(infos) => infos,
            None => {
                return check_can_ask(
                    self.peer_choking,
                    requested,
                    &self.piece_availability,
                    &torrent.blocks_to_download,
                );
            },
        };
        let digest: [u8; 20] = sha1_hash(torrent.bytes_with(block).as_slice());
        if !torrent.is_piece_digest(index, &digest) {
            return check_can_ask(
                self.peer_choking,
                requested,
                &self.piece_availability,
                &infos,
            );
        }
        let mut marked: Vec<bool> = torrent.downloaded_pieces.clone();
        assert(marked@ =~= torrent.downloaded_pieces@);
        marked.set(index as usize, true);
        match find_first_missing(&marked) {
            None => true,
            Some(next) => {
                let mut blocks: Vec<BlockInfo> = Vec::new();
                let size: u32 = torrent.size_of_piece(next as u32);
                push_piece_blocks(&mut blocks, next as u32, size);
                assert(blocks@ =~= piece_blocks(next as u32, torrent.piece_size(next as int)));
                check_can_ask(self.peer_choking, requested, &self.piece_availability, &blocks)
            },
        }
    }

    /// The message in which a block that was read goes to the peer; the block is counted.
    pub fn upload(&mut self, info: BlockInfo, bytes: Vec<u8>) -> (message: PeerMessage)
        requires
            bytes@.len() == info.length,
            old(self).uploaded_to + info.length <= u32::MAX,
        ensures
            message@ == MessageView::Piece(info, bytes@),
            *final(self) == (Peer {
                uploaded_to: (old(self).uploaded_to + info.length) as u32,
                ..*old(self)
            }),
            old(self).wf() ==> final(self).wf(),
    {
        self.uploaded_to = self.uploaded_to + info.length;
        PeerMessage::Piece(Block { info, bytes })
    }

    /// Some time after the peer was asked for a block: where the block has not come, it goes back
    /// to the queue and every peer is told. Otherwise nothing happens.
    pub fn request_timed_out(&mut self, torrent: &mut Torrent, info: BlockInfo) -> (notices: Vec<
        Notice,
    >)
        ensures
            final(self).requested_blocks@ == one_less(old(self).requested_blocks@, info),
            *final(self) == (Peer { requested_blocks: final(self).requested_blocks, ..*old(self) }),
            only_queue_differs(*old(torrent), *final(torrent)),
            if old(self).requested_blocks@.contains(info) {
                &&& final(torrent).blocks_to_download@ == old(torrent).blocks_to_download@.push(info)
                &&& notices@ == broadcast_to(
                    old(torrent).peers@.len(),
                    ClientMessage::UpdatedJobQueue,
                )
            } else {
                &&& final(torrent).blocks_to_download@ == old(torrent).blocks_to_download@
                &&& notices@.len() == 0
            },
    {
        if remove_job(&mut self.requested_blocks, info) {
            torrent.blocks_to_download.push(info);
            torrent.alert_peers_updated_job_queue()
        } else {
            Vec::new()
        }
    }

    /// Brings the rates up to date. To be called every second.
    pub fn tick(&mut self)
        requires
            old(self).wf(),
        ensures
            final(self).wf(),
            final(self).rolling_download@ == recorded(
                old(self).rolling_download@,
                (old(self).downloaded_from - old(self).downloaded_from_last_second) as u32,
            ),
            final(self).rolling_upload@ == recorded(
                old(self).rolling_upload@,
                (old(self).uploaded_to - old(self).uploaded_to_last_second) as u32,
            ),
            final(self).downloaded_from_rate == average(final(self).rolling_download@),
            final(self).uploaded_to_rate == average(final(self).rolling_upload@),
            *final(self) == (Peer {
                rolling_download: final(self).rolling_download,
                rolling_upload: final(self).rolling_upload,
                downloaded_from_rate: final(self).downloaded_from_rate,
                uploaded_to_rate: final(self).uploaded_to_rate,
                downloaded_from_last_second: old(self).downloaded_from,
                uploaded_to_last_second: old(self).uploaded_to,
                ..*old(self)
            }),
    {
        let download_delta: u32 = self.downloaded_from - self.downloaded_from_last_second;
        let upload_delta: u32 = self.uploaded_to - self.uploaded_to_last_second;
        proof {
            law_recorded_is_window(
                self.rolling_download@,
                self.downloaded_from_last_second as int,
                download_delta,
            );
            law_recorded_is_window(
                self.rolling_upload@,
                self.uploaded_to_last_second as int,
                upload_delta,
            );
        }
        record(&mut self.rolling_download, download_delta);
        record(&mut self.rolling_upload, upload_delta);
        self.downloaded_from_rate = rolling_average(&self.rolling_download);
        self.uploaded_to_rate = rolling_average(&self.rolling_upload);
        self.downloaded_from_last_second = self.downloaded_from;
        self.uploaded_to_last_second = self.uploaded_to;
    }
}

/// No message of the client itself makes a peer or a torrent invalid.
pub proof fn law_client_messages_keep_validity(
    before: Peer,
    torrent: Torrent,
    message: ClientMessage,
    after: Peer,
    torrent_after: Torrent,
    reaction: Reaction,
)
    requires
        before.wf(),
        torrent.wf(),
        client_message_handled(before, torrent, message, after, torrent_after, reaction),
    ensures
        after.wf(),
        torrent_after.wf(),
{
}

/// No message of a peer makes the peer or a torrent invalid.
pub proof fn law_peer_messages_keep_validity(
    before: Peer,
    torrent: Torrent,
    message: PeerMessage,
    after: Peer,
    torrent_after: Torrent,
    reaction: Reaction,
)
    requires
        before.wf(),
        torrent.wf(),
        can_handle_peer_message(before, torrent, message),
        peer_message_handled(before, torrent, message, after, torrent_after, reaction),
    ensures
        after.wf(),
        torrent_after.wf(),
{
}

/// A block is uploaded only when the peer asks for it, is not choked, and asks for no more than is
/// allowed; then it is the block that was asked for. A peer that is not choked and asks for more
/// is disconnected.
pub proof fn law_uploads_are_allowed(
    before: Peer,
    torrent: Torrent,
    message: PeerMessage,
    after: Peer,
    torrent_after: Torrent,
    reaction: Reaction,
    info: BlockInfo,
)
    requires
        peer_message_handled(before, torrent, message, after, torrent_after, reaction),
    ensures
        reaction.next == Next::Upload(info) <==> message == PeerMessage::Request(info)
            && !before.am_choking && info.length <= MAX_ALLOWED_BLOCK_SIZE,
        message == PeerMessage::Request(info) && !before.am_choking && info.length
            > MAX_ALLOWED_BLOCK_SIZE ==> reaction.next is Disconnect,
{
}

/// Blocks that the peer was not asked for change nothing: only one that it was asked for reaches
/// the torrent.
pub proof fn law_only_requested_blocks_are_taken(
    before: Peer,
    torrent: Torrent,
    message: PeerMessage,
    after: Peer,
    torrent_after: Torrent,
    reaction: Reaction,
)
    requires
        peer_message_handled(before, torrent, message, after, torrent_after, reaction),
        !(message matches PeerMessage::Piece(block) && before.requested_blocks@.contains(
            block.info,
        )),
    ensures
        only_queue_differs(torrent, torrent_after),
        after.downloaded_from == before.downloaded_from,
        message is Piece ==> after == before && torrent_after == torrent && reaction.next is GoOn,
{
}

/// The peer is never asked for more blocks at a time than the queue holds, unless it had been
/// before, and never while it chokes this client.
pub proof fn law_queue_is_bounded(
    before: Peer,
    queue: Seq<BlockInfo>,
    after: Peer,
    kept: Seq<BlockInfo>,
    ask: Seq<BlockInfo>,
)
    requires
        is_asked(before, queue, after, kept, ask),
    ensures
        after.requested_blocks@.len() <= if before.requested_blocks@.len() > QUEUE_SIZE {
            before.requested_blocks@.len()
        } else {
            QUEUE_SIZE as nat
        },
        before.peer_choking ==> ask.len() == 0 && kept == queue,
        forall|i: int|
            0 <= i < ask.len() ==> has_piece(before.piece_availability@, #[trigger] ask[i]),
        after.requested_blocks@.to_multiset().add(kept.to_multiset())
            == before.requested_blocks@.to_multiset().add(queue.to_multiset()),
{
    let requested = before.requested_blocks@;
    if before.peer_choking || requested.len() >= QUEUE_SIZE {
        assert(requested + ask =~= requested);
    } else {
        let room = (QUEUE_SIZE - requested.len()) as nat;
        law_picking_takes_what_the_peer_has(queue, before.piece_availability@, room);
        law_asking_loses_no_job(requested, queue, before.piece_availability@, room);
    }
}

/// Choking a peer twice in a row tells it once at most, and so does unchoking.
pub proof fn law_choking_is_told_once(
    first: Peer,
    torrent: Torrent,
    message: ClientMessage,
    second: Peer,
    torrent_between: Torrent,
    told: Reaction,
    third: Peer,
    torrent_after: Torrent,
    told_again: Reaction,
)
    requires
        message is Choke || message is Unchoke,
        client_message_handled(first, torrent, message, second, torrent_between, told),
        client_message_handled(second, torrent_between, message, third, torrent_after, told_again),
    ensures
        told.send@.len() <= 1,
        told_again.send@.len() == 0,
        third == second,
        torrent_after == torrent,
{
    assert(messages_of(told.send@).len() == told.send@.len());
    assert(messages_of(told_again.send@).len() == told_again.send@.len());
}

} // verus!

//! What a torrent tells the tasks that talk to its peers.
use crate::peer_message::BlockInfo;
use vstd::prelude::*;

verus! {

/// A message to the task that talks to one peer.
#[derive(Debug, Clone, Copy, PartialEq, Eq, Structural)]
pub enum ClientMessage {
    /// The piece with this index is there.
    PieceDownloaded(u32),
    Choke,
    Unchoke,
    RequestPiece(BlockInfo),
    /// There may be blocks to ask for.
    UpdatedJobQueue,
}

/// A message for one of the peers of a torrent.
#[derive(Debug, Clone, Copy, PartialEq, Eq, Structural)]
pub struct Notice {
    /// Which peer, by its place in the list of peers.
    pub peer: usize,
    pub message: ClientMessage,
}

/// The same message for each of `peers` peers.
pub open spec fn broadcast_to(peers: nat, message: ClientMessage) -> Seq<Notice> {
    Seq::new(peers, |i: int| Notice { peer: i as usize, message })
}

/// Appends the same message for each of `peers` peers.
pub fn push_broadcast(notices: &mut Vec<Notice>, peers: usize, message: ClientMessage)
    ensures
        final(notices)@ == old(notices)@ + broadcast_to(peers as nat, message),
{
    let mut i: usize = 0;
    assert(notices@ =~= old(notices)@ + broadcast_to(0, message));
    while i < peers
        invariant
            i <= peers,
            notices@ == old(notices)@ + broadcast_to(i as nat, message),
        decreases peers - i,
    {
        notices.push(Notice { peer: i, message });
        i = i + 1;
        assert(notices@ =~= old(notices)@ + broadcast_to(i as nat, message));
    }
}

} // verus!

//! The first message that two peers exchange.
use crate::peer::Peer;
use crate::wire::{copy_20, push_bytes, same_bytes};
use vstd::prelude::*;
use vstd::slice::slice_subrange;
use vstd::string::{is_ascii_spec_bytes, StringSliceAdditionalSpecFns};

verus! {

/// Number of bytes of a handshake.
pub const HANDSHAKE_LENGTH: usize = 68;

/// The name of the protocol, byte by byte.
pub open spec fn protocol_name() -> Seq<u8> {
    Seq::new(19, |i: int| "BitTorrent protocol"@[i] as u8)
}

/// A handshake: the protocol and the length of its name, eight reserved bytes, the torrent, and
/// the sender's name.
pub open spec fn handshake_bytes(info_hash: Seq<u8>, peer_id: Seq<u8>) -> Seq<u8> {
    seq![19u8] + protocol_name() + Seq::new(8, |i: int| 0u8) + info_hash + peer_id
}

/// Whether `bytes` is a handshake for a torrent. The reserved bytes may be anything.
pub open spec fn is_handshake(bytes: Seq<u8>, info_hash: Seq<u8>) -> bool {
    &&& bytes.len() == HANDSHAKE_LENGTH
    &&& bytes[0] == 19
    &&& bytes.subrange(1, 20) == protocol_name()
    &&& bytes.subrange(28, 48) == info_hash
}

/// The sender's name in a handshake.
pub open spec fn handshake_peer_id(bytes: Seq<u8>) -> Seq<u8> {
    bytes.subrange(48, 68)
}

/// The bytes of the name of the protocol.
fn protocol_bytes() -> (name: &'static [u8])
    ensures
        name@ == protocol_name(),
{
    let name: &'static str = "BitTorrent protocol";
    proof {
        reveal_strlit("BitTorrent protocol");
        is_ascii_spec_bytes(name);
    }
    assert(name.spec_bytes() =~= protocol_name());
    name.as_bytes()
}

impl Peer {
    /// The handshake that this client sends.
    pub fn handshake_message(info_hash: &[u8; 20], peer_id: &[u8; 20]) -> (message: Vec<u8>)
        ensures
            message@ == handshake_bytes(info_hash@, peer_id@),
            message@.len() == HANDSHAKE_LENGTH,
    {
        let mut message: Vec<u8> = Vec::new();
        message.push(19);
        push_bytes(&mut message, protocol_bytes());
        push_bytes(&mut message, [0u8; 8].as_slice());
        push_bytes(&mut message, info_hash.as_slice());
        push_bytes(&mut message, peer_id.as_slice());
        assert(message@ =~= handshake_bytes(info_hash@, peer_id@));
        message
    }

    /// Whether `bytes` is a handshake for a torrent.
    pub fn check_handshake(bytes: &[u8], info_hash: &[u8; 20]) -> (r: bool)
        ensures
            r == is_handshake(bytes@, info_hash@),
    {
        bytes.len() == HANDSHAKE_LENGTH && bytes[0] == 19 && same_bytes(
            slice_subrange(bytes, 1, 20),
            protocol_bytes(),
        ) && same_bytes(slice_subrange(bytes, 28, 48), info_hash.as_slice())
    }

    /// Takes note of the peer's name in the handshake that it has sent.
    pub fn receive_handshake(&mut self, bytes: &[u8], info_hash: &[u8; 20])
        requires
            is_handshake(bytes@, info_hash@),
        ensures
            final(self).peer_id matches Some(id) && id@ == handshake_peer_id(bytes@),
            *final(self) == (Peer { peer_id: final(self).peer_id, ..*old(self) }),
    {
        self.peer_id = Some(copy_20(bytes, 48));
    }
}

/// The handshake that a client sends is one for its torrent, and for no other, and the peer that
/// receives it learns the sender's name.
pub proof fn law_handshake_round_trip(info_hash: Seq<u8>, peer_id: Seq<u8>, other: Seq<u8>)
    requires
        info_hash.len() == 20,
        peer_id.len() == 20,
    ensures
        is_handshake(handshake_bytes(info_hash, peer_id), other) <==> info_hash == other,
        handshake_peer_id(handshake_bytes(info_hash, peer_id)) == peer_id,
{
    let bytes = handshake_bytes(info_hash, peer_id);
    assert(bytes.subrange(1, 20) =~= protocol_name());
    assert(bytes.subrange(28, 48) =~= info_hash);
    assert(bytes.subrange(48, 68) =~= peer_id);
}

} // verus!

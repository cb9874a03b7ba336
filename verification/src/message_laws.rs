//! What the bytes of messages are, number by number.
use crate::address::{read_address, read_addresses};
use crate::handshake::{handshake_bytes, handshake_peer_id, is_handshake};
use crate::message_reader::{delivered, is_frame, is_keep_alive, kept, missing};
use crate::peer_message::{
    bit_of, bytes_for_bits, length_fits, low_32, message_bytes, packed, packed_byte, parse_message,
    MessageView, PeerMessage,
};
use crate::wire::{be16, be32, be64, read_be16, read_be32, read_be64};
use vstd::arithmetic::power2::{lemma2_to64, pow2};
use vstd::prelude::*;

verus! {

/// Numbers travel with their most significant byte first.
pub proof fn law_numbers_are_big_endian(n: u16, m: u32)
    ensures
        be16(n).len() == 2,
        n == be16(n)[0] * 0x100 + be16(n)[1],
        be32(m).len() == 4,
        m == be32(m)[0] * 0x100_0000 + be32(m)[1] * 0x1_0000 + be32(m)[2] * 0x100 + be32(m)[3],
{
}

/// Long numbers too travel with their most significant byte first.
pub proof fn law_long_numbers_are_big_endian(l: u64)
    ensures
        be64(l).len() == 8,
        l == be64(l)[0] * 0x100_0000_0000_0000 + be64(l)[1] * 0x1_0000_0000_0000 + be64(l)[2]
            * 0x100_0000_0000 + be64(l)[3] * 0x1_0000_0000 + be64(l)[4] * 0x100_0000 + be64(l)[5]
            * 0x1_0000 + be64(l)[6] * 0x100 + be64(l)[7],
{
    let high = (l / 0x1_0000_0000) as u32;
    let low = (l % 0x1_0000_0000) as u32;
    law_numbers_are_big_endian(0, high);
    law_numbers_are_big_endian(0, low);
    let a = be32(high);
    let b = be32(low);
    assert(l == high * 0x1_0000_0000 + low);
    assert(be64(l) == a + b);
    assert(be64(l)[0] == a[0] && be64(l)[1] == a[1] && be64(l)[2] == a[2] && be64(l)[3] == a[3]);
    assert(be64(l)[4] == b[0] && be64(l)[5] == b[1] && be64(l)[6] == b[2] && be64(l)[7] == b[3]);
}

/// Numbers are read with their most significant byte first.
pub proof fn law_numbers_are_read_big_endian(s: Seq<u8>, at: int)
    ensures
        read_be16(s, at) == s[at] * 0x100 + s[at + 1],
        read_be32(s, at) == s[at] * 0x100_0000 + s[at + 1] * 0x1_0000 + s[at + 2] * 0x100 + s[at
            + 3],
        read_be64(s, at) == s[at] * 0x100_0000_0000_0000 + s[at + 1] * 0x1_0000_0000_0000 + s[at
            + 2] * 0x100_0000_0000 + s[at + 3] * 0x1_0000_0000 + s[at + 4] * 0x100_0000 + s[at + 5]
            * 0x1_0000 + s[at + 6] * 0x100 + s[at + 7],
{
}

/// Six bytes are the four parts of an address and the two bytes of a port, and the addresses in a
/// list stand one after the other.
pub proof fn law_addresses_have_six_bytes(bytes: Seq<u8>, from: int, count: nat, i: int)
    requires
        0 <= i < count,
    ensures
        read_addresses(bytes, from, count).len() == count,
        ({
            let address = read_addresses(bytes, from, count)[i];
            &&& address.ip.a == bytes[from + 6 * i]
            &&& address.ip.b == bytes[from + 6 * i + 1]
            &&& address.ip.c == bytes[from + 6 * i + 2]
            &&& address.ip.d == bytes[from + 6 * i + 3]
            &&& address.port == bytes[from + 6 * i + 4] * 0x100 + bytes[from + 6 * i + 5]
        }),
{
    assert(read_addresses(bytes, from, count)[i] == read_address(bytes, from + 6 * i));
}

proof fn lemma_bit_value(byte: u8, k: int)
    requires
        0 <= k < 8,
    ensures
        bit_of(byte, k) == ((byte as int / pow2((7 - k) as nat) as int) % 2 == 1),
{
    lemma2_to64();
    assert(byte & (0x80u8 >> 0u8) != 0 <==> (byte / 128) % 2 == 1) by (bit_vector);
    assert(byte & (0x80u8 >> 1u8) != 0 <==> (byte / 64) % 2 == 1) by (bit_vector);
    assert(byte & (0x80u8 >> 2u8) != 0 <==> (byte / 32) % 2 == 1) by (bit_vector);
    assert(byte & (0x80u8 >> 3u8) != 0 <==> (byte / 16) % 2 == 1) by (bit_vector);
    assert(byte & (0x80u8 >> 4u8) != 0 <==> (byte / 8) % 2 == 1) by (bit_vector);
    assert(byte & (0x80u8 >> 5u8) != 0 <==> (byte / 4) % 2 == 1) by (bit_vector);
    assert(byte & (0x80u8 >> 6u8) != 0 <==> (byte / 2) % 2 == 1) by (bit_vector);
    assert(byte & (0x80u8 >> 7u8) != 0 <==> (byte / 1) % 2 == 1) by (bit_vector);
}

/// The bits of a bitfield that is read: the one for piece `8 * j + k` is the digit of byte `j` that
/// weighs two to the power of seven minus `k`.
pub proof fn law_bitfield_is_read(bytes: Seq<u8>, j: int, k: int)
    requires
        bytes.len() > 0,
        bytes[0] == 5,
    ensures
        parse_message(bytes) matches Some(MessageView::Bitfield(bits)) && bits.len() == 8 * (
        bytes.len() - 1) && (0 <= j < bytes.len() - 1 && 0 <= k < 8 ==> bits[8 * j + k] == ((
        bytes[1 + j] as int / pow2((7 - k) as nat) as int) % 2 == 1)),
{
    if 0 <= j < bytes.len() - 1 && 0 <= k < 8 {
        lemma_bit_value(bytes[1 + j], k);
        assert((8 * j + k) / 8 == j && (8 * j + k) % 8 == k);
        assert(bytes.skip(1)[j] == bytes[1 + j]);
    }
}

/// What the bit at `at` adds to a byte in which it weighs `weight`.
pub open spec fn share(bits: Seq<bool>, at: int, weight: int) -> int {
    if at < bits.len() && bits[at] {
        weight
    } else {
        0
    }
}

/// The bytes of a bitfield that is written: byte `j` is the sum of what its eight bits weigh, the
/// first of them most, and bits past the end count as zero.
pub proof fn law_bitfield_is_written(bits: Seq<bool>, j: int)
    ensures
        message_bytes(MessageView::Bitfield(bits)).len() == 5 + (bits.len() + 7) / 8,
        message_bytes(MessageView::Bitfield(bits))[4] == 5,
        0 <= j < (bits.len() + 7) / 8 ==> message_bytes(MessageView::Bitfield(bits))[5 + j]
            == share(bits, 8 * j, 128) + share(bits, 8 * j + 1, 64) + share(bits, 8 * j + 2, 32)
            + share(bits, 8 * j + 3, 16) + share(bits, 8 * j + 4, 8) + share(bits, 8 * j + 5, 4)
            + share(bits, 8 * j + 6, 2) + share(bits, 8 * j + 7, 1),
{
    if 0 <= j < (bits.len() + 7) / 8 {
        assert(message_bytes(MessageView::Bitfield(bits))[5 + j] == packed(bits)[j]);
        assert(packed(bits)[j] == packed_byte(bits, j * 8));
    }
}

/// The number that four bytes are in base 256.
pub open spec fn number_at(bytes: Seq<u8>, at: int) -> int {
    bytes[at] * 0x100_0000 + bytes[at + 1] * 0x1_0000 + bytes[at + 2] * 0x100 + bytes[at + 3]
}

/// Which message a frame holds is said by its first byte; the fields are the numbers behind it; and
/// a frame that is too short for its fields, or begins with another byte, holds none.
pub proof fn law_frames_are_told_by_their_first_byte(bytes: Seq<u8>)
    ensures
        parse_message(bytes) is None <==> bytes.len() == 0 || bytes[0] > 8 || (bytes[0] == 4
            && bytes.len() < 5) || ((bytes[0] == 6 || bytes[0] == 8) && bytes.len() < 13) || (
        bytes[0] == 7 && bytes.len() < 9),
        parse_message(bytes) matches Some(message) ==> match message {
            MessageView::Choke => bytes[0] == 0,
            MessageView::Unchoke => bytes[0] == 1,
            MessageView::Interested => bytes[0] == 2,
            MessageView::NotInterested => bytes[0] == 3,
            MessageView::Have(index) => bytes[0] == 4 && index == number_at(bytes, 1),
            MessageView::Bitfield(_) => bytes[0] == 5,
            MessageView::Request(info) => bytes[0] == 6 && info.index == number_at(bytes, 1)
                && info.begin == number_at(bytes, 5) && info.length == number_at(bytes, 9),
            MessageView::Piece(info, data) => bytes[0] == 7 && info.index == number_at(bytes, 1)
                && info.begin == number_at(bytes, 5) && info.length == (bytes.len() - 9)
                % 0x1_0000_0000 && data == bytes.skip(9),
            MessageView::Cancel(info) => bytes[0] == 8 && info.index == number_at(bytes, 1)
                && info.begin == number_at(bytes, 5) && info.length == number_at(bytes, 9),
        },
{
    law_numbers_are_read_big_endian(bytes, 1);
    law_numbers_are_read_big_endian(bytes, 5);
    law_numbers_are_read_big_endian(bytes, 9);
}

/// A message that is written has its length first, then the byte that tells it, then its fields.
pub proof fn law_messages_are_written_field_by_field(message: MessageView)
    ensures
        ({
            let bytes = message_bytes(message);
            match message {
                MessageView::Choke => bytes.len() == 5 && number_at(bytes, 0) == 1 && bytes[4] == 0,
                MessageView::Unchoke => bytes.len() == 5 && number_at(bytes, 0) == 1 && bytes[4]
                    == 1,
                MessageView::Interested => bytes.len() == 5 && number_at(bytes, 0) == 1 && bytes[4]
                    == 2,
                MessageView::NotInterested => bytes.len() == 5 && number_at(bytes, 0) == 1
                    && bytes[4] == 3,
                MessageView::Have(index) => bytes.len() == 9 && number_at(bytes, 0) == 5 && bytes[4]
                    == 4 && number_at(bytes, 5) == index,
                MessageView::Bitfield(bits) => bytes[4] == 5 && ((bits.len() + 7) / 8
                    < 0xffff_ffff ==> number_at(bytes, 0) == 1 + (bits.len() + 7) / 8),
                MessageView::Request(info) => bytes.len() == 17 && number_at(bytes, 0) == 13
                    && bytes[4] == 6 && number_at(bytes, 5) == info.index && number_at(bytes, 9)
                    == info.begin && number_at(bytes, 13) == info.length,
                MessageView::Piece(info, data) => bytes.len() == 13 + data.len() && (info.length
                    <= 0xffff_fff6 ==> number_at(bytes, 0) == 9 + info.length) && bytes[4] == 7
                    && number_at(bytes, 5) == info.index && number_at(bytes, 9) == info.begin
                    && bytes.skip(13) == data,
                MessageView::Cancel(info) => bytes.len() == 17 && number_at(bytes, 0) == 13
                    && bytes[4] == 8 && number_at(bytes, 5) == info.index && number_at(bytes, 9)
                    == info.begin && number_at(bytes, 13) == info.length,
            }
        }),
{
    let bytes = message_bytes(message);
    match message {
        MessageView::Have(index) => {
            law_numbers_are_big_endian(0, index);
        },
        MessageView::Bitfield(bits) => {
            law_numbers_are_big_endian(0, (1 + low_32(bytes_for_bits(bits.len()))) as u32);
        },
        MessageView::Request(info) => {
            law_numbers_are_big_endian(0, info.index);
            law_numbers_are_big_endian(0, info.begin);
            law_numbers_are_big_endian(0, info.length);
        },
        MessageView::Piece(info, data) => {
            law_numbers_are_big_endian(0, info.index);
            law_numbers_are_big_endian(0, info.begin);
            law_numbers_are_big_endian(0, (9 + info.length) as u32);
            assert(bytes.skip(13) =~= data);
        },
        MessageView::Cancel(info) => {
            law_numbers_are_big_endian(0, info.index);
            law_numbers_are_big_endian(0, info.begin);
            law_numbers_are_big_endian(0, info.length);
        },
        _ => {},
    }
}

/// When a frame is complete: its first four bytes say how many follow. Nothing is wanted beyond
/// its end, and what is wanted reaches up to the end of the length first, and to the end of the
/// frame then. A complete frame is done with when it has no body or holds a message, and any other
/// bytes are kept.
pub proof fn law_frames_end_where_their_length_says(bytes: Seq<u8>)
    ensures
        is_keep_alive(bytes) <==> bytes.len() == 4 && number_at(bytes, 0) == 0,
        is_frame(bytes) <==> bytes.len() > 4 && bytes.len() - 4 == number_at(bytes, 0),
        bytes.len() + missing(bytes) == if bytes.len() < 4 {
            4
        } else {
            4 + number_at(bytes, 0)
        },
        delivered(bytes) == if bytes.len() > 4 && bytes.len() - 4 == number_at(bytes, 0) {
            parse_message(bytes.skip(4))
        } else {
            None
        },
        kept(bytes) == if (bytes.len() == 4 && number_at(bytes, 0) == 0) || (bytes.len() > 4
            && bytes.len() - 4 == number_at(bytes, 0) && parse_message(bytes.skip(4)) is Some) {
            Seq::empty()
        } else {
            bytes
        },
{
    law_numbers_are_read_big_endian(bytes, 0);
}

/// What stands where in a handshake, and when bytes are one: the length of the protocol's name and
/// the name, eight bytes that may be anything, the torrent, and the sender.
pub proof fn law_handshake_layout(info_hash: Seq<u8>, peer_id: Seq<u8>, bytes: Seq<u8>)
    requires
        info_hash.len() == 20,
        peer_id.len() == 20,
    ensures
        handshake_bytes(info_hash, peer_id).len() == 68,
        handshake_bytes(info_hash, peer_id)[0] == 19,
        "BitTorrent protocol"@.len() == 19,
        forall|i: int|
            0 <= i < 19 ==> handshake_bytes(info_hash, peer_id)[1 + i] as int
                == #[trigger] "BitTorrent protocol"@[i] as int,
        forall|i: int| 20 <= i < 28 ==> #[trigger] handshake_bytes(info_hash, peer_id)[i] == 0,
        forall|i: int|
            0 <= i < 20 ==> handshake_bytes(info_hash, peer_id)[28 + i] == #[trigger] info_hash[i],
        forall|i: int|
            0 <= i < 20 ==> handshake_bytes(info_hash, peer_id)[48 + i] == #[trigger] peer_id[i],
        is_handshake(bytes, info_hash) <==> bytes.len() == 68 && bytes[0] == 19 && (forall|i: int|
            0 <= i < 19 ==> bytes[1 + i] as int == #[trigger] "BitTorrent protocol"@[i] as int) && (
        forall|i: int| 0 <= i < 20 ==> bytes[28 + i] == #[trigger] info_hash[i]),
        bytes.len() == 68 ==> handshake_peer_id(bytes).len() == 20 && forall|i: int|
            0 <= i < 20 ==> #[trigger] handshake_peer_id(bytes)[i] == bytes[48 + i],
{
    reveal_strlit("BitTorrent protocol");
    let name = crate::handshake::protocol_name();
    assert forall|i: int| 0 <= i < 19 implies name[i] as int
        == #[trigger] "BitTorrent protocol"@[i] as int by {}
    let all_right = bytes.len() == 68 && bytes[0] == 19 && (forall|i: int|
        0 <= i < 19 ==> bytes[1 + i] as int == #[trigger] "BitTorrent protocol"@[i] as int) && (
    forall|i: int| 0 <= i < 20 ==> bytes[28 + i] == #[trigger] info_hash[i]);
    if all_right {
        assert forall|i: int| 0 <= i < 19 implies bytes.subrange(1, 20)[i] == name[i] by {
            assert("BitTorrent protocol"@[i] as int == bytes[1 + i] as int);
        }
        assert(bytes.subrange(1, 20) =~= name);
        assert(bytes.subrange(28, 48) =~= info_hash);
    }
    if is_handshake(bytes, info_hash) {
        assert forall|i: int| 0 <= i < 19 implies bytes[1 + i] as int
            == #[trigger] "BitTorrent protocol"@[i] as int by {
            assert(bytes.subrange(1, 20)[i] == name[i]);
        }
        assert forall|i: int| 0 <= i < 20 implies bytes[28 + i] == #[trigger] info_hash[i] by {
            assert(bytes.subrange(28, 48)[i] == info_hash[i]);
        }
    }
}

/// A message stands for itself, field by field.
pub proof fn law_messages_stand_for_themselves(message: PeerMessage)
    ensures
        match message {
            PeerMessage::Choke => message@ is Choke,
            PeerMessage::Unchoke => message@ is Unchoke,
            PeerMessage::Interested => message@ is Interested,
            PeerMessage::NotInterested => message@ is NotInterested,
            PeerMessage::Have(index) => message@ == MessageView::Have(index),
            PeerMessage::Bitfield(bits) => message@ == MessageView::Bitfield(bits@),
            PeerMessage::Request(info) => message@ == MessageView::Request(info),
            PeerMessage::Piece(block) => message@ == MessageView::Piece(
                block.info,
                block.bytes@,
            ),
            PeerMessage::Cancel(info) => message@ == MessageView::Cancel(info),
        },
{
}

/// The length of a frame can be written except where a block has nearly 2^32 bytes, or a bitfield
/// one byte less than that.
pub proof fn law_which_lengths_fit(message: MessageView)
    ensures
        match message {
            MessageView::Piece(info, _) => length_fits(message) <==> info.length <= 4294967286,
            MessageView::Bitfield(bits) => length_fits(message) <==> ((bits.len() + 7) / 8)
                % 4294967296 != 4294967295,
            _ => length_fits(message),
        },
{
}

} // verus!

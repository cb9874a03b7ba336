//! Messages between peers, and their form on the wire.
use crate::wire::{
    be32, copy_range, get_be32, lemma_be32_of_read, lemma_read_be32, push_be32, push_bytes,
    read_be32,
};
use vstd::prelude::*;

verus! {

/// A range of bytes inside one piece.
#[derive(Debug, Clone, Copy, PartialEq, Eq, Structural)]
pub struct BlockInfo {
    /// Index of the piece.
    pub index: u32,
    /// Offset of the first byte inside the piece.
    pub begin: u32,
    /// Number of bytes.
    pub length: u32,
}

/// A range of bytes inside one piece, with the bytes.
#[derive(Debug)]
pub struct Block {
    pub info: BlockInfo,
    pub bytes: Vec<u8>,
}

/// A message that peers send each other after the handshake.
#[derive(Debug)]
pub enum PeerMessage {
    Choke,
    Unchoke,
    Interested,
    NotInterested,
    /// The sender has the piece with this index.
    Have(u32),
    /// The pieces that the sender has, one bit for each.
    Bitfield(Vec<bool>),
    Request(BlockInfo),
    Piece(Block),
    Cancel(BlockInfo),
}

/// What a `PeerMessage` says.
pub enum MessageView {
    Choke,
    Unchoke,
    Interested,
    NotInterested,
    Have(u32),
    Bitfield(Seq<bool>),
    Request(BlockInfo),
    Piece(BlockInfo, Seq<u8>),
    Cancel(BlockInfo),
}

impl View for PeerMessage {
    type V = MessageView;

    open spec fn view(&self) -> MessageView {
        match self {
            PeerMessage::Choke => MessageView::Choke,
            PeerMessage::Unchoke => MessageView::Unchoke,
            PeerMessage::Interested => MessageView::Interested,
            PeerMessage::NotInterested => MessageView::NotInterested,
            PeerMessage::Have(index) => MessageView::Have(*index),
            PeerMessage::Bitfield(bits) => MessageView::Bitfield(bits@),
            PeerMessage::Request(info) => MessageView::Request(*info),
            PeerMessage::Piece(block) => MessageView::Piece(block.info, block.bytes@),
            PeerMessage::Cancel(info) => MessageView::Cancel(*info),
        }
    }
}

/// The bit of a byte that stands `k` places behind the most significant one.
pub open spec fn bit_of(byte: u8, k: int) -> bool {
    byte & (0x80u8 >> (k as u8)) != 0
}

/// The bits of `bytes`, the most significant bit of each byte first.
pub open spec fn bits_of(bytes: Seq<u8>) -> Seq<bool> {
    Seq::new(bytes.len() * 8, |i: int| bit_of(bytes[i / 8], i % 8))
}

/// What `bit` adds to a byte in which it weighs `weight`.
pub open spec fn weigh(bit: bool, weight: u8) -> u8 {
    if bit {
        weight
    } else {
        0
    }
}

/// The byte whose bits are the eight bits of `bits` from `at` on; bits past the end are zero.
pub open spec fn packed_byte(bits: Seq<bool>, at: int) -> u8 {
    (weigh(bit_at(bits, at), 128) + weigh(bit_at(bits, at + 1), 64) + weigh(
        bit_at(bits, at + 2),
        32,
    ) + weigh(bit_at(bits, at + 3), 16) + weigh(bit_at(bits, at + 4), 8) + weigh(
        bit_at(bits, at + 5),
        4,
    ) + weigh(bit_at(bits, at + 6), 2) + weigh(bit_at(bits, at + 7), 1)) as u8
}

/// The bit of `bits` at `at`, which is zero past the end.
pub open spec fn bit_at(bits: Seq<bool>, at: int) -> bool {
    0 <= at < bits.len() && bits[at]
}

/// Number of bytes that hold `n` bits.
pub open spec fn bytes_for_bits(n: nat) -> nat {
    (n + 7) / 8
}

/// `bits` packed into bytes, eight to a byte, the first one as the most significant bit.
pub open spec fn packed(bits: Seq<bool>) -> Seq<u8> {
    Seq::new(bytes_for_bits(bits.len()), |i: int| packed_byte(bits, i * 8))
}

/// The index, offset and length that stand in `bytes` behind the first byte.
pub open spec fn read_block_info(bytes: Seq<u8>) -> BlockInfo {
    BlockInfo {
        index: read_be32(bytes, 1),
        begin: read_be32(bytes, 5),
        length: read_be32(bytes, 9),
    }
}

/// `n` reduced to what thirty-two bits hold.
pub open spec fn low_32(n: nat) -> u32 {
    (n % 0x1_0000_0000) as u32
}

/// The message that `bytes` (a frame without its length) stands for, if there is one.
/// What follows the fields of a message is ignored.
pub open spec fn parse_message(bytes: Seq<u8>) -> Option<MessageView> {
    if bytes.len() == 0 {
        None
    } else if bytes[0] == 0 {
        Some(MessageView::Choke)
    } else if bytes[0] == 1 {
        Some(MessageView::Unchoke)
    } else if bytes[0] == 2 {
        Some(MessageView::Interested)
    } else if bytes[0] == 3 {
        Some(MessageView::NotInterested)
    } else if bytes[0] == 4 && bytes.len() >= 5 {
        Some(MessageView::Have(read_be32(bytes, 1)))
    } else if bytes[0] == 5 {
        Some(MessageView::Bitfield(bits_of(bytes.skip(1))))
    } else if bytes[0] == 6 && bytes.len() >= 13 {
        Some(MessageView::Request(read_block_info(bytes)))
    } else if bytes[0] == 7 && bytes.len() >= 9 {
        Some(
            MessageView::Piece(
                BlockInfo {
                    index: read_be32(bytes, 1),
                    begin: read_be32(bytes, 5),
                    length: low_32((bytes.len() - 9) as nat),
                },
                bytes.skip(9),
            ),
        )
    } else if bytes[0] == 8 && bytes.len() >= 13 {
        Some(MessageView::Cancel(read_block_info(bytes)))
    } else {
        None
    }
}

/// The twelve bytes of a block's index, offset and length.
pub open spec fn block_info_bytes(info: BlockInfo) -> Seq<u8> {
    be32(info.index) + be32(info.begin) + be32(info.length)
}

/// The frame of a message: its length in four bytes, its number, its fields.
pub open spec fn message_bytes(message: MessageView) -> Seq<u8> {
    match message {
        MessageView::Choke => be32(1) + seq![0u8],
        MessageView::Unchoke => be32(1) + seq![1u8],
        MessageView::Interested => be32(1) + seq![2u8],
        MessageView::NotInterested => be32(1) + seq![3u8],
        MessageView::Have(index) => be32(5) + seq![4u8] + be32(index),
        MessageView::Bitfield(bits) => be32((1 + low_32(bytes_for_bits(bits.len()))) as u32)
            + seq![5u8] + packed(bits),
        MessageView::Request(info) => be32(13) + seq![6u8] + block_info_bytes(info),
        MessageView::Piece(info, bytes) => be32((9 + info.length) as u32) + seq![7u8] + be32(
            info.index,
        ) + be32(info.begin) + bytes,
        MessageView::Cancel(info) => be32(13) + seq![8u8] + block_info_bytes(info),
    }
}

/// Whether the length of the message's frame can be written in four bytes.
pub open spec fn length_fits(message: MessageView) -> bool {
    match message {
        MessageView::Bitfield(bits) => 1 + low_32(bytes_for_bits(bits.len())) <= u32::MAX,
        MessageView::Piece(info, _) => 9 + info.length <= u32::MAX,
        _ => true,
    }
}

/// The eight bits of `byte`, one by one.
fn push_bits(out: &mut Vec<bool>, byte: u8)
    ensures
        final(out)@ == old(out)@ + Seq::new(8, |k: int| bit_of(byte, k)),
{
    out.push(byte & 0b1000_0000 > 0);
    out.push(byte & 0b0100_0000 > 0);
    out.push(byte & 0b0010_0000 > 0);
    out.push(byte & 0b0001_0000 > 0);
    out.push(byte & 0b0000_1000 > 0);
    out.push(byte & 0b0000_0100 > 0);
    out.push(byte & 0b0000_0010 > 0);
    out.push(byte & 0b0000_0001 > 0);
    assert(0x80u8 >> 0u8 == 128 && 0x80u8 >> 1u8 == 64 && 0x80u8 >> 2u8 == 32 && 0x80u8 >> 3u8 == 16
        && 0x80u8 >> 4u8 == 8 && 0x80u8 >> 5u8 == 4 && 0x80u8 >> 6u8 == 2 && 0x80u8 >> 7u8 == 1)
        by (bit_vector);
    assert(out@ =~= old(out)@ + Seq::new(8, |k: int| bit_of(byte, k)));
}

/// The bits of the bytes of `bytes` from `from` on.
fn unpack(bytes: &[u8], from: usize) -> (bits: Vec<bool>)
    requires
        from <= bytes@.len(),
    ensures
        bits@ == bits_of(bytes@.skip(from as int)),
{
    let n: usize = bytes.len();
    let mut bits: Vec<bool> = Vec::new();
    let mut i: usize = from;
    while i < n
        invariant
            from <= i <= n == bytes@.len(),
            bits@ == bits_of(bytes@.subrange(from as int, i as int)),
        decreases n - i,
    {
        let ghost before = bytes@.subrange(from as int, i as int);
        let ghost after = bytes@.subrange(from as int, i + 1);
        push_bits(&mut bits, bytes[i]);
        i = i + 1;
        assert(bits@ =~= bits_of(after)) by {
            assert forall|j: int| 0 <= j < before.len() * 8 implies #[trigger] before[j / 8]
                == after[j / 8] by {}
        }
    }
    assert(bytes@.subrange(from as int, n as int) =~= bytes@.skip(from as int));
    bits
}

/// The bit at `at` with the weight it has in its byte.
fn weighed_bit(bits: &Vec<bool>, at: usize, weight: u8) -> (w: u8)
    ensures
        w == weigh(bit_at(bits@, at as int), weight),
{
    if at < bits.len() && bits[at] {
        weight
    } else {
        0
    }
}

/// `bits` packed into bytes.
fn pack(bits: &Vec<bool>) -> (bytes: Vec<u8>)
    ensures
        bytes@ == packed(bits@),
{
    let mut bytes: Vec<u8> = Vec::new();
    let mut left: usize = bits.len();
    let n: usize = bits.len();
    while left > 0
        invariant
            left <= n == bits@.len(),
            bytes@.len() == bytes_for_bits((n - left) as nat),
            left > 0 ==> (n - left) % 8 == 0,
            forall|j: int| 0 <= j < bytes@.len() ==> bytes@[j] == packed_byte(bits@, j * 8),
        decreases left,
    {
        let at: usize = n - left;
        let byte: u8 = weighed_bit(bits, at, 128) + (if left > 1 {
            weighed_bit(bits, at + 1, 64)
        } else {
            0
        }) + (if left > 2 {
            weighed_bit(bits, at + 2, 32)
        } else {
            0
        }) + (if left > 3 {
            weighed_bit(bits, at + 3, 16)
        } else {
            0
        }) + (if left > 4 {
            weighed_bit(bits, at + 4, 8)
        } else {
            0
        }) + (if left > 5 {
            weighed_bit(bits, at + 5, 4)
        } else {
            0
        }) + (if left > 6 {
            weighed_bit(bits, at + 6, 2)
        } else {
            0
        }) + (if left > 7 {
            weighed_bit(bits, at + 7, 1)
        } else {
            0
        });
        bytes.push(byte);
        if left < 8 {
            left = 0;
        } else {
            left = left - 8;
        }
    }
    assert(bytes@ =~= packed(bits@));
    bytes
}

/// The block coordinates behind the first byte of `bytes`.
fn get_block_info(bytes: &[u8]) -> (info: BlockInfo)
    requires
        bytes@.len() >= 13,
    ensures
        info == read_block_info(bytes@),
{
    BlockInfo { index: get_be32(bytes, 1), begin: get_be32(bytes, 5), length: get_be32(bytes, 9) }
}

/// Appends the twelve bytes of `info`.
fn push_block_info(out: &mut Vec<u8>, info: &BlockInfo)
    ensures
        final(out)@ == old(out)@ + block_info_bytes(*info),
{
    push_be32(out, info.index);
    push_be32(out, info.begin);
    push_be32(out, info.length);
    assert(out@ =~= old(out)@ + block_info_bytes(*info));
}

/// `n` reduced to thirty-two bits.
pub fn truncate_32(n: usize) -> (r: u32)
    ensures
        r == low_32(n as nat),
{
    (n as u64 % 0x1_0000_0000) as u32
}

impl PeerMessage {
    /// Reads a message from the bytes of its frame that follow the length.
    pub fn from_bytes(bytes: &[u8]) -> (message: Option<PeerMessage>)
        ensures
            match message {
                Some(m) => parse_message(bytes@) == Some(m@),
                None => parse_message(bytes@) is None,
            },
    {
        let n: usize = bytes.len();
        if n == 0 {
            return None;
        }
        let id: u8 = bytes[0];
        if id == 0 {
            Some(PeerMessage::Choke)
        } else if id == 1 {
            Some(PeerMessage::Unchoke)
        } else if id == 2 {
            Some(PeerMessage::Interested)
        } else if id == 3 {
            Some(PeerMessage::NotInterested)
        } else if id == 4 && n >= 5 {
            Some(PeerMessage::Have(get_be32(bytes, 1)))
        } else if id == 5 {
            Some(PeerMessage::Bitfield(unpack(bytes, 1)))
        } else if id == 6 && n >= 13 {
            Some(PeerMessage::Request(get_block_info(bytes)))
        } else if id == 7 && n >= 9 {
            let index: u32 = get_be32(bytes, 1);
            let begin: u32 = get_be32(bytes, 5);
            let block_bytes: Vec<u8> = copy_range(bytes, 9, n);
            assert(block_bytes@ =~= bytes@.skip(9));
            let length: u32 = truncate_32(block_bytes.len());
            Some(
                PeerMessage::Piece(
                    Block { info: BlockInfo { index, begin, length }, bytes: block_bytes },
                ),
            )
        } else if id == 8 && n >= 13 {
            Some(PeerMessage::Cancel(get_block_info(bytes)))
        } else {
            None
        }
    }

    /// The frame of the message, its length first.
    pub fn as_bytes(&self) -> (msg: Vec<u8>)
        requires
            length_fits(self@),
        ensures
            msg@ == message_bytes(self@),
    {
        let mut msg: Vec<u8> = Vec::new();
        match self {
            PeerMessage::Choke => {
                push_be32(&mut msg, 1);
                msg.push(0);
            },
            PeerMessage::Unchoke => {
                push_be32(&mut msg, 1);
                msg.push(1);
            },
            PeerMessage::Interested => {
                push_be32(&mut msg, 1);
                msg.push(2);
            },
            PeerMessage::NotInterested => {
                push_be32(&mut msg, 1);
                msg.push(3);
            },
            PeerMessage::Have(piece_index) => {
                push_be32(&mut msg, 5);
                msg.push(4);
                push_be32(&mut msg, *piece_index);
            },
            PeerMessage::Bitfield(bits) => {
                let field: Vec<u8> = pack(bits);
                push_be32(&mut msg, 1 + truncate_32(field.len()));
                msg.push(5);
                push_bytes(&mut msg, field.as_slice());
            },
            PeerMessage::Request(info) => {
                push_be32(&mut msg, 13);
                msg.push(6);
                push_block_info(&mut msg, info);
            },
            PeerMessage::Piece(block) => {
                push_be32(&mut msg, 9 + block.info.length);
                msg.push(7);
                push_be32(&mut msg, block.info.index);
                push_be32(&mut msg, block.info.begin);
                push_bytes(&mut msg, block.bytes.as_slice());
            },
            PeerMessage::Cancel(info) => {
                push_be32(&mut msg, 13);
                msg.push(8);
                push_block_info(&mut msg, info);
            },
        }
        assert(msg@ =~= message_bytes(self@));
        msg
    }
}

/// `bits` filled up with zeros to whole bytes.
pub open spec fn padded(bits: Seq<bool>) -> Seq<bool> {
    Seq::new(bytes_for_bits(bits.len()) * 8, |i: int| bit_at(bits, i))
}

/// The message as its receiver sees it: a bitfield arrives filled up to whole bytes.
pub open spec fn as_received(message: MessageView) -> MessageView {
    match message {
        MessageView::Bitfield(bits) => MessageView::Bitfield(padded(bits)),
        m => m,
    }
}

/// Whether a block says of itself how many bytes it holds.
pub open spec fn length_is_true(message: MessageView) -> bool {
    match message {
        MessageView::Piece(info, bytes) => info.length == bytes.len(),
        _ => true,
    }
}

/// Whether the frame's number of bytes, its length field not counted, is below 2^32.
pub open spec fn frame_is_small(message: MessageView) -> bool {
    match message {
        MessageView::Bitfield(bits) => 1 + bytes_for_bits(bits.len()) <= u32::MAX,
        MessageView::Piece(_, bytes) => 9 + bytes.len() <= u32::MAX,
        _ => true,
    }
}

/// Whether `bytes` ends where the fields of the message in it end.
pub open spec fn nothing_follows(bytes: Seq<u8>) -> bool {
    match parse_message(bytes) {
        Some(MessageView::Have(_)) => bytes.len() == 5,
        Some(MessageView::Bitfield(_)) => true,
        Some(MessageView::Request(_)) => bytes.len() == 13,
        Some(MessageView::Piece(_, _)) => true,
        Some(MessageView::Cancel(_)) => bytes.len() == 13,
        Some(_) => bytes.len() == 1,
        None => false,
    }
}

proof fn lemma_bits_of_packed_byte(bits: Seq<bool>, at: int)
    ensures
        forall|k: int| 0 <= k < 8 ==> #[trigger] bit_of(packed_byte(bits, at), k) == bit_at(
            bits,
            at + k,
        ),
{
    let b0 = bit_at(bits, at);
    let b1 = bit_at(bits, at + 1);
    let b2 = bit_at(bits, at + 2);
    let b3 = bit_at(bits, at + 3);
    let b4 = bit_at(bits, at + 4);
    let b5 = bit_at(bits, at + 5);
    let b6 = bit_at(bits, at + 6);
    let b7 = bit_at(bits, at + 7);
    let byte = packed_byte(bits, at);
    assert(byte == (if b0 { 128u8 } else { 0 }) + (if b1 { 64u8 } else { 0 }) + (if b2 {
        32u8
    } else {
        0
    }) + (if b3 { 16u8 } else { 0 }) + (if b4 { 8u8 } else { 0 }) + (if b5 { 4u8 } else { 0 }) + (
    if b6 { 2u8 } else { 0 }) + (if b7 { 1u8 } else { 0 }));
    assert((byte & (0x80u8 >> 0u8) != 0) == b0 && (byte & (0x80u8 >> 1u8) != 0) == b1 && (byte & (
    0x80u8 >> 2u8) != 0) == b2 && (byte & (0x80u8 >> 3u8) != 0) == b3 && (byte & (0x80u8 >> 4u8)
        != 0) == b4 && (byte & (0x80u8 >> 5u8) != 0) == b5 && (byte & (0x80u8 >> 6u8) != 0) == b6
        && (byte & (0x80u8 >> 7u8) != 0) == b7) by (bit_vector)
        requires
            byte == (if b0 { 128u8 } else { 0 }) + (if b1 { 64u8 } else { 0 }) + (if b2 {
                32u8
            } else {
                0
            }) + (if b3 { 16u8 } else { 0 }) + (if b4 { 8u8 } else { 0 }) + (if b5 {
                4u8
            } else {
                0
            }) + (if b6 { 2u8 } else { 0 }) + (if b7 { 1u8 } else { 0 }),
    ;
}

proof fn lemma_packed_bits_of_byte(bits: Seq<bool>, at: int, byte: u8)
    requires
        forall|k: int| 0 <= k < 8 ==> #[trigger] bit_of(byte, k) == bit_at(bits, at + k),
    ensures
        packed_byte(bits, at) == byte,
{
    let b0 = bit_at(bits, at);
    let b1 = bit_at(bits, at + 1);
    let b2 = bit_at(bits, at + 2);
    let b3 = bit_at(bits, at + 3);
    let b4 = bit_at(bits, at + 4);
    let b5 = bit_at(bits, at + 5);
    let b6 = bit_at(bits, at + 6);
    let b7 = bit_at(bits, at + 7);
    assert(bit_of(byte, 0) == b0 && bit_of(byte, 1) == b1 && bit_of(byte, 2) == b2 && bit_of(
        byte,
        3,
    ) == b3 && bit_of(byte, 4) == b4 && bit_of(byte, 5) == b5 && bit_of(byte, 6) == b6 && bit_of(
        byte,
        7,
    ) == b7);
    assert(byte == (if b0 { 128u8 } else { 0 }) + (if b1 { 64u8 } else { 0 }) + (if b2 {
        32u8
    } else {
        0
    }) + (if b3 { 16u8 } else { 0 }) + (if b4 { 8u8 } else { 0 }) + (if b5 { 4u8 } else { 0 }) + (
    if b6 { 2u8 } else { 0 }) + (if b7 { 1u8 } else { 0 })) by (bit_vector)
        requires
            (byte & (0x80u8 >> 0u8) != 0) == b0,
            (byte & (0x80u8 >> 1u8) != 0) == b1,
            (byte & (0x80u8 >> 2u8) != 0) == b2,
            (byte & (0x80u8 >> 3u8) != 0) == b3,
            (byte & (0x80u8 >> 4u8) != 0) == b4,
            (byte & (0x80u8 >> 5u8) != 0) == b5,
            (byte & (0x80u8 >> 6u8) != 0) == b6,
            (byte & (0x80u8 >> 7u8) != 0) == b7,
    ;
}

/// Unpacking packed bits gives the bits back, filled up with zeros to whole bytes.
pub proof fn law_unpack_of_pack(bits: Seq<bool>)
    ensures
        bits_of(packed(bits)) == padded(bits),
        bits.len() % 8 == 0 ==> bits_of(packed(bits)) == bits,
{
    assert forall|i: int| 0 <= i < bytes_for_bits(bits.len()) * 8 implies bits_of(packed(bits))[i]
        == padded(bits)[i] by {
        lemma_bits_of_packed_byte(bits, i / 8 * 8);
        assert(bit_of(packed_byte(bits, i / 8 * 8), i % 8) == bit_at(bits, i / 8 * 8 + i % 8));
    }
    assert(bits_of(packed(bits)) =~= padded(bits));
    if bits.len() % 8 == 0 {
        assert(padded(bits) =~= bits);
    }
}

/// Packing the bits of bytes gives the bytes back.
pub proof fn law_pack_of_unpack(bytes: Seq<u8>)
    ensures
        packed(bits_of(bytes)) == bytes,
{
    let bits = bits_of(bytes);
    assert forall|i: int| 0 <= i < bytes.len() implies packed(bits)[i] == bytes[i] by {
        assert forall|k: int| 0 <= k < 8 implies #[trigger] bit_of(bytes[i], k) == bit_at(
            bits,
            i * 8 + k,
        ) by {
            assert((i * 8 + k) / 8 == i && (i * 8 + k) % 8 == k);
        }
        lemma_packed_bits_of_byte(bits, i * 8, bytes[i]);
    }
    assert(packed(bits) =~= bytes);
}

/// What is written is read back: the frame of a message, its length taken off, parses to the
/// message.
pub proof fn law_message_round_trip(message: MessageView)
    requires
        length_is_true(message),
    ensures
        parse_message(message_bytes(message).skip(4)) == Some(as_received(message)),
{
    let body = message_bytes(message).skip(4);
    match message {
        MessageView::Have(index) => {
            assert(body.subrange(1, 5) =~= be32(index));
            lemma_read_be32(index, body, 1);
        },
        MessageView::Bitfield(bits) => {
            assert(body.skip(1) =~= packed(bits));
            law_unpack_of_pack(bits);
        },
        MessageView::Request(info) | MessageView::Cancel(info) => {
            assert(body.subrange(1, 5) =~= be32(info.index));
            assert(body.subrange(5, 9) =~= be32(info.begin));
            assert(body.subrange(9, 13) =~= be32(info.length));
            lemma_read_be32(info.index, body, 1);
            lemma_read_be32(info.begin, body, 5);
            lemma_read_be32(info.length, body, 9);
        },
        MessageView::Piece(info, bytes) => {
            assert(body.subrange(1, 5) =~= be32(info.index));
            assert(body.subrange(5, 9) =~= be32(info.begin));
            lemma_read_be32(info.index, body, 1);
            lemma_read_be32(info.begin, body, 5);
            assert(body.skip(9) =~= bytes);
        },
        _ => {},
    }
}

/// The first four bytes of a frame say how many bytes follow.
pub proof fn law_frame_length(message: MessageView)
    requires
        length_is_true(message),
        frame_is_small(message),
    ensures
        length_fits(message),
        message_bytes(message).len() >= 5,
        read_be32(message_bytes(message), 0) == message_bytes(message).len() - 4,
{
    let frame = message_bytes(message);
    let n = (frame.len() - 4) as u32;
    assert(frame.subrange(0, 4) =~= be32(n));
    lemma_read_be32(n, frame, 0);
}

/// What is read is written back: a body that parses and that nothing follows is, behind its
/// length, the frame of what it parses to.
pub proof fn law_parse_then_write(bytes: Seq<u8>)
    requires
        nothing_follows(bytes),
        bytes.len() <= u32::MAX,
    ensures
        message_bytes(parse_message(bytes)->0) == be32(bytes.len() as u32) + bytes,
{
    let message = parse_message(bytes)->0;
    let whole = be32(bytes.len() as u32) + bytes;
    match message {
        MessageView::Have(_) => {
            lemma_be32_of_read(bytes, 1);
        },
        MessageView::Bitfield(_) => {
            law_pack_of_unpack(bytes.skip(1));
            assert((1 + (bytes.len() - 1)) as u32 == bytes.len() as u32);
        },
        MessageView::Request(_) | MessageView::Cancel(_) => {
            lemma_be32_of_read(bytes, 1);
            lemma_be32_of_read(bytes, 5);
            lemma_be32_of_read(bytes, 9);
        },
        MessageView::Piece(_, _) => {
            lemma_be32_of_read(bytes, 1);
            lemma_be32_of_read(bytes, 5);
        },
        _ => {},
    }
    assert(message_bytes(message) =~= whole);
}

} // verus!

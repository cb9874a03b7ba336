//! Putting messages together from the pieces in which a stream delivers their bytes.
use crate::peer_message::{
    as_received, frame_is_small, law_frame_length, law_message_round_trip, length_is_true,
    message_bytes, parse_message, MessageView, PeerMessage,
};
use crate::wire::{be32, get_be32, lemma_read_be32, read_be32};
use vstd::prelude::*;

verus! {

/// A complete frame that holds no message.
#[derive(Debug, Clone, Copy, PartialEq, Eq, Structural)]
pub struct UnreadableMessage;

impl UnreadableMessage {
    /// The error in words.
    pub fn message(&self) -> (text: String)
        ensures
            text@ == "Couldn't parse peer message"@,
    {
        "Couldn't parse peer message".to_owned()
    }
}

/// Collects the bytes of one frame at a time: first its length, next its body.
///
/// The owner of the stream reads at most `wanted` bytes and hands them to `receive`. Nothing is
/// lost when reading stops between two such steps.
pub struct PeerMessageReader {
    length_buf: [u8; 4],
    length_buf_len: usize,
    message_buf: Vec<u8>,
    message_buf_len: usize,
}

/// How many more bytes the frame that starts with `pending` needs: up to the end of its length
/// while that is incomplete, up to its own end after that.
pub open spec fn missing(pending: Seq<u8>) -> int {
    if pending.len() < 4 {
        4 - pending.len()
    } else {
        4 + read_be32(pending, 0) - pending.len()
    }
}

/// Whether `pending` is the start of a frame, or a complete frame with a body.
pub open spec fn is_frame_start(pending: Seq<u8>) -> bool {
    pending.len() < 4 || (read_be32(pending, 0) > 0 && pending.len() <= 4 + read_be32(pending, 0))
}

/// Whether `bytes` is a frame without a body, which keeps a connection alive.
pub open spec fn is_keep_alive(bytes: Seq<u8>) -> bool {
    bytes.len() == 4 && read_be32(bytes, 0) == 0
}

/// Whether `bytes` is a complete frame with a body.
pub open spec fn is_frame(bytes: Seq<u8>) -> bool {
    bytes.len() > 4 && bytes.len() == 4 + read_be32(bytes, 0)
}

/// The message that is complete once the bytes of the frame so far are `bytes`.
pub open spec fn delivered(bytes: Seq<u8>) -> Option<MessageView> {
    if is_frame(bytes) {
        parse_message(bytes.skip(4))
    } else {
        None
    }
}

/// What is kept of `bytes`, the bytes of the frame so far: nothing once the frame is done with.
/// A complete frame that holds no message is kept.
pub open spec fn kept(bytes: Seq<u8>) -> Seq<u8> {
    if is_keep_alive(bytes) || delivered(bytes) is Some {
        Seq::empty()
    } else {
        bytes
    }
}

impl PeerMessageReader {
    /// The bytes of the current frame that have arrived.
    pub closed spec fn pending(&self) -> Seq<u8> {
        if self.message_buf@.len() != 0 {
            be32(self.message_buf@.len() as u32) + self.message_buf@.take(
                self.message_buf_len as int,
            )
        } else {
            self.length_buf@.take(self.length_buf_len as int)
        }
    }

    /// The lengths kept beside the buffers lie inside them, and only one buffer is in use.
    pub closed spec fn wf(&self) -> bool {
        &&& self.length_buf_len < 4
        &&& self.message_buf_len <= self.message_buf@.len() <= u32::MAX
        &&& self.message_buf@.len() != 0 ==> self.length_buf_len == 0
    }

    /// The bytes that have arrived are always the start of a frame.
    pub proof fn law_pending_is_frame_start(&self)
        requires
            self.wf(),
        ensures
            is_frame_start(self.pending()),
    {
        if self.message_buf@.len() != 0 {
            let n = self.message_buf@.len() as u32;
            assert(self.pending().subrange(0, 4) =~= be32(n));
            lemma_read_be32(n, self.pending(), 0);
        }
    }

    /// A reader that has seen nothing yet.
    pub fn new() -> (reader: PeerMessageReader)
        ensures
            reader.wf(),
            reader.pending() == Seq::<u8>::empty(),
    {
        let reader = PeerMessageReader {
            length_buf: [0u8; 4],
            length_buf_len: 0,
            message_buf: Vec::new(),
            message_buf_len: 0,
        };
        assert(reader.pending() =~= Seq::<u8>::empty());
        reader
    }

    /// The largest number of bytes to read next.
    pub fn wanted(&self) -> (n: usize)
        requires
            self.wf(),
        ensures
            n == missing(self.pending()),
    {
        proof {
            if self.message_buf@.len() != 0 {
                let n = self.message_buf@.len() as u32;
                assert(self.pending().subrange(0, 4) =~= be32(n));
                lemma_read_be32(n, self.pending(), 0);
            }
        }
        if self.message_buf.len() != 0 {
            self.message_buf.len() - self.message_buf_len
        } else {
            4 - self.length_buf_len
        }
    }

    /// Takes the next bytes of the stream. Gives the message that they complete, if they complete
    /// one. A complete frame without a message in it stays where it is, and every further call
    /// fails in the same way.
    pub fn receive(&mut self, chunk: &[u8]) -> (r: Result<Option<PeerMessage>, UnreadableMessage>)
        requires
            old(self).wf(),
            chunk@.len() <= missing(old(self).pending()),
        ensures
            final(self).wf(),
            final(self).pending() == kept(old(self).pending() + chunk@),
            match r {
                Ok(Some(m)) => delivered(old(self).pending() + chunk@) == Some(m@),
                Ok(None) => !is_frame(old(self).pending() + chunk@),
                Err(_) => is_frame(old(self).pending() + chunk@) && delivered(
                    old(self).pending() + chunk@,
                ) is None,
            },
    {
        let ghost bytes = self.pending() + chunk@;
        let n: usize = chunk.len();
        if self.message_buf.len() != 0 {
            let start: usize = self.message_buf_len;
            let ghost total = self.message_buf@.len();
            proof {
                assert(self.pending().subrange(0, 4) =~= be32(total as u32));
                lemma_read_be32(total as u32, self.pending(), 0);
                assert(bytes.subrange(0, 4) =~= be32(total as u32));
                lemma_read_be32(total as u32, bytes, 0);
            }
            let mut i: usize = 0;
            while i < n
                invariant
                    n == chunk@.len(),
                    i <= n,
                    start + n <= total,
                    total <= u32::MAX,
                    self.message_buf@.len() == total,
                    self.message_buf_len == start,
                    self.length_buf_len == old(self).length_buf_len,
                    forall|j: int| 0 <= j < start ==> self.message_buf@[j] == old(
                        self,
                    ).message_buf@[j],
                    forall|j: int| 0 <= j < i ==> self.message_buf@[start + j] == chunk@[j],
                decreases n - i,
            {
                self.message_buf.set(start + i, chunk[i]);
                i = i + 1;
            }
            self.message_buf_len = start + n;
            assert(self.pending() =~= bytes);
            if self.message_buf_len == self.message_buf.len() {
                assert(self.message_buf@ =~= bytes.skip(4));
                match PeerMessage::from_bytes(self.message_buf.as_slice()) {
                    Some(message) => {
                        self.message_buf_len = 0;
                        self.message_buf = Vec::new();
                        assert(self.pending() =~= Seq::<u8>::empty());
                        return Ok(Some(message));
                    },
                    None => {
                        return Err(UnreadableMessage);
                    },
                }
            }
            return Ok(None);
        }
        let start: usize = self.length_buf_len;
        let mut i: usize = 0;
        while i < n
            invariant
                n == chunk@.len(),
                i <= n,
                start + n <= 4,
                self.message_buf@ == old(self).message_buf@,
                self.message_buf_len == old(self).message_buf_len,
                self.length_buf_len == start,
                forall|j: int| 0 <= j < start ==> self.length_buf@[j] == old(self).length_buf@[j],
                forall|j: int| 0 <= j < i ==> self.length_buf@[start + j] == chunk@[j],
            decreases n - i,
        {
            self.length_buf[start + i] = chunk[i];
            i = i + 1;
        }
        self.length_buf_len = start + n;
        assert(self.length_buf@.take(self.length_buf_len as int) =~= bytes);
        if self.length_buf_len == 4 {
            assert(self.length_buf@ =~= bytes);
            let length: u32 = get_be32(self.length_buf.as_slice(), 0);
            self.message_buf_len = 0;
            self.message_buf = vec![0u8; length as usize];
            self.length_buf_len = 0;
            self.length_buf = [0u8; 4];
            proof {
                crate::wire::lemma_be32_of_read(bytes, 0);
                assert(bytes.subrange(0, 4) =~= bytes);
                assert(self.pending() =~= kept(bytes));
            }
        }
        Ok(None)
    }
}

/// All bytes of `chunks`, in order.
pub open spec fn joined(chunks: Seq<Seq<u8>>) -> Seq<u8>
    decreases chunks.len(),
{
    if chunks.len() == 0 {
        Seq::empty()
    } else {
        chunks[0] + joined(chunks.drop_first())
    }
}

/// The frames of `messages`, one after the other.
pub open spec fn frames(messages: Seq<MessageView>) -> Seq<u8>
    decreases messages.len(),
{
    if messages.len() == 0 {
        Seq::empty()
    } else {
        message_bytes(messages[0]) + frames(messages.drop_first())
    }
}

/// Whether no chunk holds more bytes than the reader wants when the chunk arrives.
pub open spec fn in_steps(pending: Seq<u8>, chunks: Seq<Seq<u8>>) -> bool
    decreases chunks.len(),
{
    chunks.len() == 0 || (chunks[0].len() <= missing(pending) && in_steps(
        kept(pending + chunks[0]),
        chunks.drop_first(),
    ))
}

/// The messages that a reader with `pending` delivers while `chunks` arrive.
pub open spec fn read_from(pending: Seq<u8>, chunks: Seq<Seq<u8>>) -> Seq<MessageView>
    decreases chunks.len(),
{
    if chunks.len() == 0 {
        Seq::empty()
    } else {
        let bytes = pending + chunks[0];
        let rest = read_from(kept(bytes), chunks.drop_first());
        match delivered(bytes) {
            Some(message) => seq![message] + rest,
            None => rest,
        }
    }
}

/// What a reader with `pending` keeps once `chunks` have arrived.
pub open spec fn left_after(pending: Seq<u8>, chunks: Seq<Seq<u8>>) -> Seq<u8>
    decreases chunks.len(),
{
    if chunks.len() == 0 {
        pending
    } else {
        left_after(kept(pending + chunks[0]), chunks.drop_first())
    }
}

/// Number of bytes of the frame at the start of `bytes`, of which the length is there.
pub open spec fn frame_size(bytes: Seq<u8>) -> int {
    4 + read_be32(bytes, 0)
}

/// The messages in a stream, as far as it has come: one for each complete frame with a body, up to
/// the first that holds no message.
pub open spec fn stream_messages(bytes: Seq<u8>) -> Seq<MessageView>
    decreases bytes.len(),
{
    if bytes.len() < 4 || bytes.len() < frame_size(bytes) {
        Seq::empty()
    } else if frame_size(bytes) == 4 {
        stream_messages(bytes.skip(4))
    } else {
        match parse_message(bytes.subrange(4, frame_size(bytes))) {
            Some(message) => seq![message] + stream_messages(bytes.skip(frame_size(bytes))),
            None => Seq::empty(),
        }
    }
}

/// What is left of a stream behind its [`stream_messages`].
pub open spec fn stream_rest(bytes: Seq<u8>) -> Seq<u8>
    decreases bytes.len(),
{
    if bytes.len() < 4 || bytes.len() < frame_size(bytes) {
        bytes
    } else if frame_size(bytes) == 4 {
        stream_rest(bytes.skip(4))
    } else {
        match parse_message(bytes.subrange(4, frame_size(bytes))) {
            Some(_) => stream_rest(bytes.skip(frame_size(bytes))),
            None => bytes,
        }
    }
}

/// The first message in a stream and the place behind its frame, where there is one.
pub open spec fn first_message(bytes: Seq<u8>) -> Option<(MessageView, int)>
    decreases bytes.len(),
{
    if bytes.len() < 4 || bytes.len() < frame_size(bytes) {
        None
    } else if frame_size(bytes) == 4 {
        match first_message(bytes.skip(4)) {
            Some((message, end)) => Some((message, end + 4)),
            None => None,
        }
    } else {
        match parse_message(bytes.subrange(4, frame_size(bytes))) {
            Some(message) => Some((message, frame_size(bytes))),
            None => None,
        }
    }
}

/// Whether a reader can be in the middle of a frame with `pending`: it is the start of one, and
/// nothing is left to be done with it. So it is of a new reader, and after every step.
pub open spec fn is_between_steps(pending: Seq<u8>) -> bool {
    is_frame_start(pending) && kept(pending) == pending
}

/// A new reader is between steps, and so is one after any step that it wants.
pub proof fn law_steps_end_between_steps(pending: Seq<u8>, chunk: Seq<u8>)
    requires
        is_between_steps(pending),
        chunk.len() <= missing(pending),
    ensures
        is_between_steps(Seq::<u8>::empty()),
        is_between_steps(kept(pending + chunk)),
{
    let bytes = pending + chunk;
    if pending.len() >= 4 {
        assert(read_be32(bytes, 0) == read_be32(pending, 0));
    }
}

/// How a stream is cut into chunks makes no difference, whatever it holds: frames without a body,
/// messages with bytes behind their fields, or a frame without a message. After any chunks the
/// messages that were delivered, and the bytes that are kept for the next, are those of the bytes
/// that have come; none is lost, and none used twice.
pub proof fn law_cuts_make_no_difference(pending: Seq<u8>, chunks: Seq<Seq<u8>>)
    requires
        is_between_steps(pending),
        in_steps(pending, chunks),
    ensures
        read_from(pending, chunks) == stream_messages(pending + joined(chunks)),
        left_after(pending, chunks) == stream_rest(pending + joined(chunks)),
    decreases chunks.len(),
{
    if chunks.len() == 0 {
        assert(pending + joined(chunks) =~= pending);
        if is_frame(pending) {
            assert(pending.subrange(4, frame_size(pending)) =~= pending.skip(4));
        }
    } else {
        let bytes = pending + chunks[0];
        let rest = chunks.drop_first();
        let all = pending + joined(chunks);
        law_steps_end_between_steps(pending, chunks[0]);
        law_cuts_make_no_difference(kept(bytes), rest);
        assert(all =~= bytes + joined(rest));
        if bytes.len() >= 4 {
            assert(read_be32(all, 0) == read_be32(bytes, 0));
        }
        if is_keep_alive(bytes) {
            assert(all.skip(4) =~= kept(bytes) + joined(rest));
        } else if delivered(bytes) is Some {
            assert(all.subrange(4, frame_size(all)) =~= bytes.skip(4));
            assert(all.skip(frame_size(all)) =~= kept(bytes) + joined(rest));
        }
    }
}

/// Two ways to cut the same bytes lead to the same messages and the same state.
pub proof fn law_reader_is_cancel_safe(a: Seq<Seq<u8>>, b: Seq<Seq<u8>>)
    requires
        in_steps(Seq::empty(), a),
        in_steps(Seq::empty(), b),
        joined(a) == joined(b),
    ensures
        read_from(Seq::empty(), a) == read_from(Seq::empty(), b),
        left_after(Seq::empty(), a) == left_after(Seq::empty(), b),
{
    law_cuts_make_no_difference(Seq::empty(), a);
    law_cuts_make_no_difference(Seq::empty(), b);
}

/// However often reading was broken off, the step that completes the first message gives the
/// message that comes first in the stream, and leaves the stream right behind its frame; `later`
/// is what follows there.
pub proof fn law_first_message_ends_its_frame(
    pending: Seq<u8>,
    chunks: Seq<Seq<u8>>,
    later: Seq<u8>,
)
    requires
        is_between_steps(pending),
        in_steps(pending, chunks),
        chunks.len() > 0,
        read_from(pending, chunks.drop_last()).len() == 0,
        read_from(pending, chunks).len() == 1,
    ensures
        first_message(pending + joined(chunks) + later) == Some(
            (read_from(pending, chunks)[0], (pending + joined(chunks)).len() as int),
        ),
    decreases chunks.len(),
{
    let bytes = pending + chunks[0];
    let rest = chunks.drop_first();
    let all = pending + joined(chunks) + later;
    assert(all =~= bytes + (joined(rest) + later));
    if bytes.len() >= 4 {
        assert(read_be32(all, 0) == read_be32(bytes, 0));
    }
    if chunks.len() == 1 {
        assert(rest =~= Seq::<Seq<u8>>::empty());
        assert(read_from(kept(bytes), rest).len() == 0);
        assert(delivered(bytes) is Some);
        assert(all.subrange(4, frame_size(all)) =~= bytes.skip(4));
        assert(pending + joined(chunks) =~= bytes);
        assert(read_from(pending, chunks)[0] == delivered(bytes)->0);
    } else {
        assert(chunks.drop_last()[0] == chunks[0]);
        assert(chunks.drop_last().drop_first() =~= rest.drop_last());
        assert(delivered(bytes) is None);
        law_steps_end_between_steps(pending, chunks[0]);
        law_first_message_ends_its_frame(kept(bytes), rest, later);
        if is_keep_alive(bytes) {
            assert(kept(bytes) + joined(rest) + later =~= joined(rest) + later);
            assert(all.skip(4) =~= joined(rest) + later);
            assert(kept(bytes) + joined(rest) =~= joined(rest));
            assert((pending + joined(chunks)).len() == 4 + joined(rest).len());
        } else {
            assert(kept(bytes) + joined(rest) + later =~= all);
            assert(kept(bytes) + joined(rest) =~= pending + joined(chunks));
        }
    }
}

/// However a stream of frames is cut into chunks, the reader delivers the messages that were
/// written, each once and in order.
pub proof fn law_reader_delivers_what_was_written(
    messages: Seq<MessageView>,
    chunks: Seq<Seq<u8>>,
)
    requires
        forall|i: int|
            0 <= i < messages.len() ==> length_is_true(#[trigger] messages[i]) && frame_is_small(
                messages[i],
            ),
        in_steps(Seq::empty(), chunks),
        joined(chunks) == frames(messages),
    ensures
        read_from(Seq::empty(), chunks) == messages.map_values(|m: MessageView| as_received(m)),
{
    assert(Seq::<u8>::empty() + joined(chunks) =~= joined(chunks));
    if messages.len() > 0 {
        law_frame_length(messages[0]);
        assert(message_bytes(messages[0]).take(0) =~= Seq::<u8>::empty());
    }
    lemma_reader_goes_on(messages, Seq::empty(), chunks);
}

proof fn lemma_reader_goes_on(
    messages: Seq<MessageView>,
    pending: Seq<u8>,
    chunks: Seq<Seq<u8>>,
)
    requires
        forall|i: int|
            0 <= i < messages.len() ==> length_is_true(#[trigger] messages[i]) && frame_is_small(
                messages[i],
            ),
        messages.len() == 0 ==> pending.len() == 0,
        messages.len() > 0 ==> pending.len() < message_bytes(messages[0]).len() && pending
            == message_bytes(messages[0]).take(pending.len() as int),
        in_steps(pending, chunks),
        pending + joined(chunks) == frames(messages),
    ensures
        read_from(pending, chunks) == messages.map_values(|m: MessageView| as_received(m)),
    decreases chunks.len(),
{
    if chunks.len() == 0 {
        assert(joined(chunks) =~= Seq::<u8>::empty());
        if messages.len() > 0 {
            assert(frames(messages).len() >= message_bytes(messages[0]).len());
            assert((pending + joined(chunks)).len() == pending.len());
        }
        assert(read_from(pending, chunks) =~= messages.map_values(
            |m: MessageView| as_received(m),
        ));
    } else {
        let chunk = chunks[0];
        let rest = chunks.drop_first();
        let bytes = pending + chunk;
        assert(bytes + joined(rest) =~= pending + joined(chunks));
        if messages.len() == 0 {
            assert(bytes.len() == 0) by {
                assert((bytes + joined(rest)).len() == 0);
            }
            assert(bytes =~= Seq::<u8>::empty());
            lemma_reader_goes_on(messages, kept(bytes), rest);
        } else {
            let frame = message_bytes(messages[0]);
            let later = messages.drop_first();
            law_frame_length(messages[0]);
            if pending.len() >= 4 {
                assert(read_be32(pending, 0) == read_be32(frame, 0));
            }
            assert(bytes.len() <= frame.len());
            assert(frames(messages) == frame + frames(later));
            assert(bytes =~= frame.take(bytes.len() as int)) by {
                assert forall|i: int| 0 <= i < bytes.len() implies bytes[i] == frame[i] by {
                    assert(bytes[i] == (bytes + joined(rest))[i]);
                    assert(frame[i] == (frame + frames(later))[i]);
                }
            }
            if bytes.len() >= 4 {
                assert(read_be32(bytes, 0) == read_be32(frame, 0));
            }
            if bytes.len() == frame.len() {
                assert(bytes =~= frame);
                law_message_round_trip(messages[0]);
                assert(delivered(bytes) == Some(as_received(messages[0])));
                assert(joined(rest) =~= frames(later)) by {
                    assert(joined(rest) =~= (bytes + joined(rest)).skip(frame.len() as int));
                    assert(frames(later) =~= (frame + frames(later)).skip(frame.len() as int));
                }
                assert(kept(bytes) + joined(rest) =~= frames(later));
                if later.len() > 0 {
                    assert(later[0] == messages[1]);
                    law_frame_length(later[0]);
                    assert(message_bytes(later[0]).take(0) =~= Seq::<u8>::empty());
                }
                assert forall|i: int| 0 <= i < later.len() implies length_is_true(
                    #[trigger] later[i],
                ) && frame_is_small(later[i]) by {
                    assert(later[i] == messages[i + 1]);
                }
                lemma_reader_goes_on(later, kept(bytes), rest);
                assert(messages.map_values(|m: MessageView| as_received(m)) =~= seq![
                    as_received(messages[0]),
                ] + later.map_values(|m: MessageView| as_received(m)));
            } else {
                assert(delivered(bytes) is None);
                assert(kept(bytes) == bytes);
                lemma_reader_goes_on(messages, bytes, rest);
            }
        }
    }
}

} // verus!

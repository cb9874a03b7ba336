//! What trackers are told and what is taken from their answers, field by field.
use crate::bencode::{tree_lookup, BencodeTree};
use crate::bytes::percent_encoded;
use crate::message_laws::{
    law_addresses_have_six_bytes, law_numbers_are_big_endian, law_numbers_are_read_big_endian,
    number_at,
};
use crate::metainfo::{dict_bytes, dict_str, dict_u32};
use crate::metainfo_laws::{is_number_under, is_text_under};
use crate::text_laws::{law_url_text_is_read_back, law_written_number_is_read_back, url_decoded};
use crate::torrent::Torrent;
use crate::tracker::{
    error_text, event_code, event_name, ErrorView, ResponseView, TrackerError, TrackerEvent,
    TrackerResponse,
};
use crate::tracker_http::{is_response, pairs_of, parse_response, query_pairs, with_hash};
use crate::tracker_udp::{
    announce_bytes, connection_bytes, decimal_value, host_and_port, is_announce_response,
    is_connect_response, is_number, law_announcement_layout, read_announce, udp_pattern,
};
use crate::wire::{be32, be64, read_be64};
use vstd::prelude::*;

verus! {

/// The tracker that reads the address of a request finds, behind what was there before, the
/// torrent that is asked for, byte for byte and in order.
pub proof fn law_tracker_reads_the_torrent(base: Seq<char>, info_hash: Seq<u8>)
    ensures
        with_hash(base, info_hash).take(base.len() as int) == base,
        with_hash(base, info_hash).subrange(base.len() as int, base.len() as int + 11)
            == "&info_hash="@,
        url_decoded(with_hash(base, info_hash).skip(base.len() as int + 11)) == info_hash,
{
    reveal_strlit("&info_hash=");
    let url = with_hash(base, info_hash);
    assert(url.take(base.len() as int) =~= base);
    assert(url.subrange(base.len() as int, base.len() as int + 11) =~= "&info_hash="@);
    assert(url.skip(base.len() as int + 11) =~= percent_encoded(info_hash));
    law_url_text_is_read_back(info_hash);
}

/// The names that a tracker finds in the query, in their order, and what their values say: this
/// client's name, byte for byte, its port and the three amounts as numbers, and what was announced.
pub proof fn law_tracker_reads_the_query(
    t: Torrent,
    left: u32,
    event: Option<TrackerEvent>,
    tracker_id: Option<Seq<char>>,
)
    ensures
        ({
            let pairs = query_pairs(t, left, event, tracker_id);
            &&& pairs.len() == 6 + (if event is Some {
                1int
            } else {
                0
            }) + (if tracker_id is Some {
                1int
            } else {
                0
            })
            &&& pairs[0].0 == "peer_id"@ && url_decoded(pairs[0].1) == t.peer_id@
            &&& pairs[1].0 == "port"@ && decimal_value(pairs[1].1) == t.port
            &&& pairs[2].0 == "uploaded"@ && decimal_value(pairs[2].1) == t.bytes_uploaded
            &&& pairs[3].0 == "downloaded"@ && decimal_value(pairs[3].1) == t.bytes_downloaded
            &&& pairs[4].0 == "left"@ && decimal_value(pairs[4].1) == left
            &&& pairs[5].0 == "compact"@ && pairs[5].1 == "1"@
            &&& event matches Some(e) ==> pairs[6].0 == "event"@ && pairs[6].1 == match e {
                TrackerEvent::Started => "started"@,
                TrackerEvent::Stopped => "stopped"@,
                TrackerEvent::Completed => "completed"@,
            }
            &&& tracker_id matches Some(id) ==> pairs.last() == ("trackerid"@, id)
        }),
{
    law_url_text_is_read_back(t.peer_id@);
    law_written_number_is_read_back(t.port as nat);
    law_written_number_is_read_back(t.bytes_uploaded as nat);
    law_written_number_is_read_back(t.bytes_downloaded as nat);
    law_written_number_is_read_back(left as nat);
}

/// The pairs of a query stand for their two texts.
pub proof fn law_pairs_stand_for_their_texts(pairs: Seq<(String, String)>, i: int)
    requires
        0 <= i < pairs.len(),
    ensures
        pairs_of(pairs).len() == pairs.len(),
        pairs_of(pairs)[i].0 == pairs[i].0@,
        pairs_of(pairs)[i].1 == pairs[i].1@,
{
}

/// An answer that is taken says in each field what stands under its name in the answer, and its
/// addresses are the bytes under `peers`, six for each.
pub proof fn law_answer_is_read(tree: BencodeTree, response: TrackerResponse, i: int)
    requires
        is_response(Ok(response), parse_response(tree)),
    ensures
        tree matches BencodeTree::Dict(root, _) && {
            &&& !(exists|text: Seq<char>| is_text_under(root, "failure reason"@, text))
            &&& is_number_under(root, "interval"@, response.interval)
            &&& is_number_under(root, "complete"@, response.complete)
            &&& is_number_under(root, "incomplete"@, response.incomplete)
            &&& match response.warning_message {
                Some(text) => is_text_under(root, "warning message"@, text@),
                None => !(exists|text: Seq<char>| is_text_under(root, "warning message"@, text)),
            }
            &&& match response.tracker_id {
                Some(text) => is_text_under(root, "tracker id"@, text@),
                None => !(exists|text: Seq<char>| is_text_under(root, "tracker id"@, text)),
            }
            &&& match response.min_interval {
                Some(n) => is_number_under(root, "min interval"@, n),
                None => !(exists|n: u32| is_number_under(root, "min interval"@, n)),
            }
            &&& tree_lookup(root, "peers"@) matches Some(BencodeTree::Bytes(peers, _)) && {
                &&& response.peer_info@.len() == peers.len() / 6
                &&& 0 <= i < peers.len() / 6 ==> {
                    &&& response.peer_info@[i].ip.a == peers[6 * i]
                    &&& response.peer_info@[i].ip.b == peers[6 * i + 1]
                    &&& response.peer_info@[i].ip.c == peers[6 * i + 2]
                    &&& response.peer_info@[i].ip.d == peers[6 * i + 3]
                    &&& response.peer_info@[i].port == peers[6 * i + 4] * 0x100 + peers[6 * i + 5]
                }
            }
        },
{
    let root = tree->Dict_0;
    let peers = dict_bytes(root, "peers"@)->0;
    assert(response@.peer_info == response.peer_info@);
    if 0 <= i < peers.len() / 6 {
        law_addresses_have_six_bytes(peers, 0, peers.len() / 6, i);
    }
    if let Some(text) = response.warning_message {
        assert(dict_str(root, "warning message"@) == Some(text@));
    }
    if let Some(text) = response.tracker_id {
        assert(dict_str(root, "tracker id"@) == Some(text@));
    }
}

/// An answer is refused exactly when it is not a dictionary, gives a reason for a failure, or lacks
/// one of four entries; and the first of these that holds is the error.
pub proof fn law_answer_is_refused(tree: BencodeTree)
    ensures
        match parse_response(tree) {
            Ok(_) => tree is Dict,
            Err(ErrorView::NotADictionary) => !(tree is Dict),
            Err(error) => tree matches BencodeTree::Dict(root, _) && {
                let failed = exists|text: Seq<char>| is_text_under(root, "failure reason"@, text);
                let interval = exists|n: u32| is_number_under(root, "interval"@, n);
                let complete = exists|n: u32| is_number_under(root, "complete"@, n);
                let incomplete = exists|n: u32| is_number_under(root, "incomplete"@, n);
                match error {
                    ErrorView::Failure(reason) => is_text_under(
                        root,
                        "failure reason"@,
                        reason,
                    ),
                    ErrorView::IntervalMissing => !failed && !interval,
                    ErrorView::CompleteMissing => !failed && interval && !complete,
                    ErrorView::IncompleteMissing => !failed && interval && complete && !incomplete,
                    ErrorView::PeersMissing => {
                        &&& !failed && interval && complete && incomplete
                        &&& !(tree_lookup(root, "peers"@) matches Some(BencodeTree::Bytes(_, _)))
                    },
                    _ => false,
                }
            },
        },
{
    if let BencodeTree::Dict(root, _) = tree {
        if let Some(n) = dict_u32(root, "interval"@) {
            assert(is_number_under(root, "interval"@, n));
        }
        if let Some(n) = dict_u32(root, "complete"@) {
            assert(is_number_under(root, "complete"@, n));
        }
        if let Some(n) = dict_u32(root, "incomplete"@) {
            assert(is_number_under(root, "incomplete"@, n));
        }
    }
}

/// An answer in a datagram: a number for each field at its place, and the addresses behind them,
/// as many as there are whole ones.
pub proof fn law_datagram_is_read(
    bytes: Seq<u8>,
    tracker_id: Option<Seq<char>>,
    transaction_id: u32,
    i: int,
)
    requires
        bytes.len() >= 20,
    ensures
        is_announce_response(bytes, transaction_id) <==> number_at(bytes, 4) == transaction_id,
        is_connect_response(bytes, transaction_id) <==> number_at(bytes, 0) == 0 && number_at(
            bytes,
            4,
        ) == transaction_id,
        ({
            let response = read_announce(bytes, tracker_id);
            &&& response.interval == number_at(bytes, 8)
            &&& response.complete == number_at(bytes, 12)
            &&& response.incomplete == number_at(bytes, 16)
            &&& response.tracker_id == tracker_id
            &&& response.warning_message is None
            &&& response.min_interval is None
            &&& response.peer_info.len() == (bytes.len() - 20) / 6
            &&& 0 <= i < (bytes.len() - 20) / 6 ==> {
                &&& response.peer_info[i].ip.a == bytes[20 + 6 * i]
                &&& response.peer_info[i].ip.b == bytes[21 + 6 * i]
                &&& response.peer_info[i].ip.c == bytes[22 + 6 * i]
                &&& response.peer_info[i].ip.d == bytes[23 + 6 * i]
                &&& response.peer_info[i].port == bytes[24 + 6 * i] * 0x100 + bytes[25 + 6 * i]
            }
        }),
{
    law_numbers_are_read_big_endian(bytes, 0);
    law_numbers_are_read_big_endian(bytes, 4);
    law_numbers_are_read_big_endian(bytes, 8);
    law_numbers_are_read_big_endian(bytes, 12);
    law_numbers_are_read_big_endian(bytes, 16);
    if 0 <= i < (bytes.len() - 20) / 6 {
        law_addresses_have_six_bytes(bytes, 20, ((bytes.len() - 20) / 6) as nat, i);
    }
}

/// Datagrams that are too short answer nothing.
pub proof fn law_short_datagrams_answer_nothing(bytes: Seq<u8>, transaction_id: u32)
    ensures
        bytes.len() < 20 ==> !is_announce_response(bytes, transaction_id),
        bytes.len() < 16 ==> !is_connect_response(bytes, transaction_id),
        16 <= bytes.len() < 20 ==> (is_connect_response(bytes, transaction_id) <==> number_at(
            bytes,
            0,
        ) == 0 && number_at(bytes, 4) == transaction_id),
{
    law_numbers_are_read_big_endian(bytes, 0);
    law_numbers_are_read_big_endian(bytes, 4);
}

/// The datagram with which a connection is asked for: the number of the protocol, the number of
/// the request, and the number by which the answer is told.
pub proof fn law_connection_request_layout(transaction_id: u32)
    ensures
        connection_bytes(transaction_id).len() == 16,
        number_at(connection_bytes(transaction_id), 0) == 0x417,
        number_at(connection_bytes(transaction_id), 4) == 0x2710_1980,
        number_at(connection_bytes(transaction_id), 8) == 0,
        number_at(connection_bytes(transaction_id), 12) == transaction_id,
{
    let bytes = connection_bytes(transaction_id);
    law_numbers_are_big_endian(0, 0x417);
    law_numbers_are_big_endian(0, 0x2710_1980);
    law_numbers_are_big_endian(0, 0);
    law_numbers_are_big_endian(0, transaction_id);
    assert(be64(0x417_2710_1980) == be32(0x417) + be32(0x2710_1980));
    assert(bytes[0] == be32(0x417)[0] && bytes[1] == be32(0x417)[1] && bytes[2] == be32(0x417)[2]
        && bytes[3] == be32(0x417)[3]);
    assert(bytes[4] == be32(0x2710_1980)[0] && bytes[5] == be32(0x2710_1980)[1] && bytes[6]
        == be32(0x2710_1980)[2] && bytes[7] == be32(0x2710_1980)[3]);
}

/// What a tracker finds in an announcement, number by number.
pub proof fn law_announcement_is_told_by_number(
    t: Torrent,
    connection_id: u64,
    transaction_id: u32,
    left: u32,
    event: Option<TrackerEvent>,
    key: u32,
)
    ensures
        ({
            let bytes = announce_bytes(t, connection_id, transaction_id, left, event, key);
            &&& bytes.len() == 98
            &&& number_at(bytes, 0) * 0x1_0000_0000 + number_at(bytes, 4) == connection_id
            &&& number_at(bytes, 8) == 1
            &&& number_at(bytes, 12) == transaction_id
            &&& forall|i: int| 0 <= i < 20 ==> bytes[16 + i] == #[trigger] t.metainfo.info_hash@[i]
            &&& forall|i: int| 0 <= i < 20 ==> bytes[36 + i] == #[trigger] t.peer_id@[i]
            &&& number_at(bytes, 56) == 0 && number_at(bytes, 60) == t.bytes_downloaded
            &&& number_at(bytes, 64) == 0 && number_at(bytes, 68) == left
            &&& number_at(bytes, 72) == 0 && number_at(bytes, 76) == t.bytes_uploaded
            &&& number_at(bytes, 80) == match event {
                None => 0,
                Some(TrackerEvent::Completed) => 1int,
                Some(TrackerEvent::Started) => 2,
                Some(TrackerEvent::Stopped) => 3,
            }
            &&& number_at(bytes, 84) == 0
            &&& number_at(bytes, 88) == key
            &&& number_at(bytes, 92) == 0xffff_ffff
            &&& bytes[96] * 0x100 + bytes[97] == t.port
        }),
{
    let bytes = announce_bytes(t, connection_id, transaction_id, left, event, key);
    law_announcement_layout(t, connection_id, transaction_id, left, event, key);
    let hash = t.metainfo.info_hash@;
    let id = t.peer_id@;
    assert forall|i: int| 0 <= i < 20 implies bytes[16 + i] == #[trigger] hash[i] by {
        assert(bytes.subrange(16, 36)[i] == hash[i]);
    }
    assert forall|i: int| 0 <= i < 20 implies bytes[36 + i] == #[trigger] id[i] by {
        assert(bytes.subrange(36, 56)[i] == id[i]);
    }
    law_long_number_is_read(bytes, 0);
    law_long_number_is_read(bytes, 56);
    law_long_number_is_read(bytes, 64);
    law_long_number_is_read(bytes, 72);
    law_numbers_are_read_big_endian(bytes, 8);
    law_numbers_are_read_big_endian(bytes, 12);
    law_numbers_are_read_big_endian(bytes, 80);
    law_numbers_are_read_big_endian(bytes, 84);
    law_numbers_are_read_big_endian(bytes, 88);
    law_numbers_are_read_big_endian(bytes, 92);
    law_numbers_are_read_big_endian(bytes, 96);
}

/// A number of eight bytes is made of two of four, the higher one first.
pub proof fn law_long_number_is_read(bytes: Seq<u8>, at: int)
    ensures
        read_be64(bytes, at) == number_at(bytes, at) * 0x1_0000_0000 + number_at(bytes, at + 4),
        0 <= number_at(bytes, at),
        0 <= number_at(bytes, at + 4) < 0x1_0000_0000,
{
    law_numbers_are_read_big_endian(bytes, at);
}

/// An event has a name in a query and a number in a datagram.
pub proof fn law_events_by_name_and_number(event: TrackerEvent)
    ensures
        event is Started ==> event_name(event) == "started"@ && event_code(Some(event)) == 2,
        event is Stopped ==> event_name(event) == "stopped"@ && event_code(Some(event)) == 3,
        event is Completed ==> event_name(event) == "completed"@ && event_code(Some(event)) == 1,
        event_code(None) == 0,
{
}

/// What each error says when it is shown. What a tracker or the decoding gave as the reason is
/// shown as it is.
pub proof fn law_errors_are_shown(error: TrackerError)
    ensures
        error_text(error@) == match error {
            TrackerError::NoTracker => "Couldn't request from any tracker"@,
            TrackerError::ProtocolNotSupported(name) => "Tracker protocol not supported: "@ + name@,
            TrackerError::InvalidAnnounceUrl => "Invalid announce url"@,
            TrackerError::InvalidUrl => "Invalid tracker url"@,
            TrackerError::NoClient => "Couldn't make a client"@,
            TrackerError::NotBencode(reason) => reason@,
            TrackerError::NotADictionary => "Couldn't make dict"@,
            TrackerError::Failure(reason) => reason@,
            TrackerError::IntervalMissing => "Interval missing"@,
            TrackerError::CompleteMissing => "Complete missing"@,
            TrackerError::IncompleteMissing => "Complete missing"@,
            TrackerError::PeersMissing => "Incomplete missing"@,
        },
{
}

/// An error stands for itself.
pub proof fn law_errors_stand_for_themselves(error: TrackerError)
    ensures
        match error@ {
            ErrorView::NoTracker => error is NoTracker,
            ErrorView::ProtocolNotSupported(text) => error matches
                TrackerError::ProtocolNotSupported(name) && name@ == text,
            ErrorView::InvalidAnnounceUrl => error is InvalidAnnounceUrl,
            ErrorView::InvalidUrl => error is InvalidUrl,
            ErrorView::NoClient => error is NoClient,
            ErrorView::NotBencode(text) => error matches TrackerError::NotBencode(reason)
                && reason@ == text,
            ErrorView::NotADictionary => error is NotADictionary,
            ErrorView::Failure(text) => error matches TrackerError::Failure(reason) && reason@
                == text,
            ErrorView::IntervalMissing => error is IntervalMissing,
            ErrorView::CompleteMissing => error is CompleteMissing,
            ErrorView::IncompleteMissing => error is IncompleteMissing,
            ErrorView::PeersMissing => error is PeersMissing,
        },
{
}

/// An answer stands for itself, field by field.
pub proof fn law_answers_stand_for_themselves(response: TrackerResponse)
    ensures
        response@.interval == response.interval,
        response@.min_interval == response.min_interval,
        response@.complete == response.complete,
        response@.incomplete == response.incomplete,
        response@.peer_info == response.peer_info@,
        match response.warning_message {
            Some(text) => response@.warning_message == Some(text@),
            None => response@.warning_message is None,
        },
        match response.tracker_id {
            Some(text) => response@.tracker_id == Some(text@),
            None => response@.tracker_id is None,
        },
{
}

/// The first part of an address of a tracker is the host, as it stands, and the second the port,
/// where it is a number of sixteen bits.
pub proof fn law_host_comes_before_port(host: Seq<char>, port: Seq<char>)
    ensures
        udp_pattern() == "^udp://(.+):(\\d+).*$"@,
        host_and_port(None) is None,
        host_and_port(Some((host, port))) matches Some((h, p)) && h == host && match p {
            Some(n) => is_number(port) && decimal_value(port) == n,
            None => !(is_number(port) && decimal_value(port) < 65536),
        },
{
}

/// The result of reading an answer is the one that the answer calls for: what it says, or the very
/// error.
pub proof fn law_result_of_an_answer(
    response: TrackerResponse,
    e: TrackerError,
    expected: Result<ResponseView, ErrorView>,
)
    ensures
        is_response(Ok(response), expected) <==> (expected matches Ok(view) && view == response@),
        is_response(Err(e), expected) <==> (expected matches Err(error) && error == e@),
{
}

} // verus!

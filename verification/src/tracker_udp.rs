//! Trackers that are asked by datagrams.
use crate::address::{get_addresses, read_address, read_addresses, PeerAddress};
use crate::metainfo::text_of;
use crate::torrent::Torrent;
use crate::tracker::{
    copy_text, event_code, event_number, ErrorView, ResponseView, TrackerError, TrackerEvent,
    TrackerResponse,
};
use crate::wire::{
    be16, be32, be64, get_be32, get_be64, lemma_part, lemma_read_be16, lemma_read_be32, lemma_read_be64,
    push_be16, push_be32, push_be64, push_bytes, read_be16, read_be32, read_be64,
};
use vstd::prelude::*;
use vstd::string::StrSliceExecFns;

verus! {

/// The number by which trackers know that the protocol is spoken.
pub const PROTOCOL_ID: u64 = 0x417_2710_1980;

/// The parts of `text` that match the first two groups of `pattern`, as the crate `regex` finds
/// them; none where `pattern` is not a pattern with two groups, or does not match.
pub uninterp spec fn two_groups(pattern: Seq<char>, text: Seq<char>) -> Option<
    (Seq<char>, Seq<char>),
>;

/// `regex::Regex::new` and `Regex::captures`: which parts of the text match the groups is a
/// function of the pattern and the text.
#[verifier::external_body]
fn capture_two(pattern: &str, text: &str) -> (groups: Option<(String, String)>)
    ensures
        match groups {
            Some((first, second)) => two_groups(pattern@, text@) == Some((first@, second@)),
            None => two_groups(pattern@, text@) is None,
        },
{
    let captures = regex::Regex::new(pattern).ok()?.captures(text)?;
    let first = captures.get(1)?.as_str().to_string();
    let second = captures.get(2)?.as_str().to_string();
    Some((first, second))
}

/// `rand::random`: a number of which nothing is promised.
#[verifier::external_body]
fn random_number() -> (n: u32) {
    rand::random()
}

/// The value of a text of digits in base ten.
pub open spec fn decimal_value(digits: Seq<char>) -> nat
    decreases digits.len(),
{
    if digits.len() == 0 {
        0
    } else {
        decimal_value(digits.drop_last()) * 10 + (digits.last() as nat - 48) as nat
    }
}

/// Whether a text is made of digits, at least one.
pub open spec fn is_number(text: Seq<char>) -> bool {
    &&& text.len() > 0
    &&& forall|i: int| 0 <= i < text.len() ==> '0' <= #[trigger] text[i] <= '9'
}

/// The number that a text stands for, where it is one of sixteen bits.
pub open spec fn port_number(text: Seq<char>) -> Option<u16> {
    if is_number(text) && decimal_value(text) <= u16::MAX {
        Some(decimal_value(text) as u16)
    } else {
        None
    }
}

proof fn lemma_value_grows(digits: Seq<char>, k: int)
    requires
        0 <= k <= digits.len(),
    ensures
        decimal_value(digits.take(k)) <= decimal_value(digits),
    decreases digits.len(),
{
    if k < digits.len() {
        lemma_value_grows(digits.drop_last(), k);
        assert(digits.drop_last().take(k) =~= digits.take(k));
    } else {
        assert(digits.take(k) =~= digits);
    }
}

/// Reads a port.
pub fn parse_port(text: &str) -> (port: Option<u16>)
    ensures
        port == port_number(text@),
{
    let n: usize = text.unicode_len();
    if n == 0 {
        return None;
    }
    let mut value: u32 = 0;
    let mut i: usize = 0;
    assert(text@.take(0) =~= Seq::<char>::empty());
    while i < n
        invariant
            i <= n == text@.len(),
            value <= u16::MAX,
            value == decimal_value(text@.take(i as int)),
            forall|j: int| 0 <= j < i ==> '0' <= #[trigger] text@[j] <= '9',
        decreases n - i,
    {
        let c: char = text.get_char(i);
        if c < '0' || c > '9' {
            return None;
        }
        proof {
            assert(text@.take(i + 1).drop_last() =~= text@.take(i as int));
            lemma_value_grows(text@, i + 1);
        }
        value = value * 10 + (c as u32 - 48);
        i = i + 1;
        if value > u16::MAX as u32 {
            return None;
        }
    }
    assert(text@.take(n as int) =~= text@);
    Some(value as u16)
}

/// The pattern of the address of a tracker: the host and the port are its groups.
pub open spec fn udp_pattern() -> Seq<char> {
    "^udp://(.+):(\\d+).*$"@
}

/// The host and the port, when they stand in the address of a tracker in this way.
pub open spec fn host_and_port(groups: Option<(Seq<char>, Seq<char>)>) -> Option<
    (Seq<char>, Option<u16>),
> {
    match groups {
        Some((host, port)) => Some((host, port_number(port))),
        None => None,
    }
}

/// The host and the port, when they stand in the address of a tracker in this way; a port that is
/// not a number of sixteen bits is none.
pub fn read_host_and_port(groups: Option<(String, String)>) -> (r: Result<
    (String, Option<u16>),
    TrackerError,
>)
    ensures
        match r {
            Ok((host, port)) => groups matches Some((first, second)) && host == first && port
                == port_number(second@),
            Err(e) => groups is None && e@ == ErrorView::InvalidAnnounceUrl,
        },
{
    match groups {
        Some((host, port)) => {
            let number: Option<u16> = parse_port(port.as_str());
            Ok((host, number))
        },
        None => Err(TrackerError::InvalidAnnounceUrl),
    }
}

/// The host and the port in the address of a tracker.
pub fn udp_endpoint(url: &str) -> (r: Result<(String, Option<u16>), TrackerError>)
    ensures
        match r {
            Ok((host, port)) => host_and_port(two_groups(udp_pattern(), url@)) == Some(
                (host@, port),
            ),
            Err(e) => two_groups(udp_pattern(), url@) is None && e@
                == ErrorView::InvalidAnnounceUrl,
        },
{
    read_host_and_port(capture_two("^udp://(.+):(\\d+).*$", url))
}

/// The datagram with which a connection is asked for.
pub open spec fn connection_bytes(transaction_id: u32) -> Seq<u8> {
    be64(PROTOCOL_ID) + be32(0) + be32(transaction_id)
}

/// The datagram with which a connection is asked for.
pub fn connection_request(transaction_id: u32) -> (bytes: Vec<u8>)
    ensures
        bytes@ == connection_bytes(transaction_id),
{
    let mut bytes: Vec<u8> = Vec::new();
    push_be64(&mut bytes, PROTOCOL_ID);
    push_be32(&mut bytes, 0);
    push_be32(&mut bytes, transaction_id);
    assert(bytes@ =~= connection_bytes(transaction_id));
    bytes
}

/// The datagram with which a connection is asked for, and the number by which the answer is told
/// from others, which is left to chance.
pub fn start_connection() -> (r: (u32, Vec<u8>))
    ensures
        r.1@ == connection_bytes(r.0),
{
    let transaction_id: u32 = random_number();
    (transaction_id, connection_request(transaction_id))
}

/// Whether a datagram grants the connection that was asked for.
pub open spec fn is_connect_response(bytes: Seq<u8>, transaction_id: u32) -> bool {
    &&& bytes.len() >= 16
    &&& read_be32(bytes, 0) == 0
    &&& read_be32(bytes, 4) == transaction_id
}

/// Whether a datagram grants the connection that was asked for.
pub fn check_connect_response(bytes: &[u8], transaction_id: u32) -> (r: bool)
    ensures
        r == is_connect_response(bytes@, transaction_id),
{
    bytes.len() >= 16 && get_be32(bytes, 0) == 0 && get_be32(bytes, 4) == transaction_id
}

/// The number of the connection that a datagram grants.
pub fn connection_id(bytes: &[u8]) -> (id: u64)
    requires
        bytes@.len() >= 16,
    ensures
        id == read_be64(bytes@, 8),
{
    get_be64(bytes, 8)
}

/// The datagram with which a torrent is announced.
pub open spec fn announce_bytes(
    t: Torrent,
    connection_id: u64,
    transaction_id: u32,
    left: u32,
    event: Option<TrackerEvent>,
    key: u32,
) -> Seq<u8> {
    be64(connection_id) + be32(1) + be32(transaction_id) + t.metainfo.info_hash@ + t.peer_id@
        + be64(t.bytes_downloaded as u64) + be64(left as u64) + be64(t.bytes_uploaded as u64)
        + be32(event_code(event)) + be32(0) + be32(key) + be32(0xffff_ffff) + be16(t.port)
}

impl Torrent {
    /// The datagram with which the torrent is announced; `left` is the number of bytes that are
    /// missing.
    pub fn announce_request(
        &self,
        connection_id: u64,
        transaction_id: u32,
        left: u32,
        event: Option<TrackerEvent>,
        key: u32,
    ) -> (bytes: Vec<u8>)
        ensures
            bytes@ == announce_bytes(*self, connection_id, transaction_id, left, event, key),
            bytes@.len() == 98,
    {
        let mut bytes: Vec<u8> = Vec::new();
        push_be64(&mut bytes, connection_id);
        push_be32(&mut bytes, 1);
        push_be32(&mut bytes, transaction_id);
        push_bytes(&mut bytes, self.metainfo.info_hash.as_slice());
        push_bytes(&mut bytes, self.peer_id.as_slice());
        push_be64(&mut bytes, self.bytes_downloaded as u64);
        push_be64(&mut bytes, left as u64);
        push_be64(&mut bytes, self.bytes_uploaded as u64);
        push_be32(&mut bytes, event_number(event));
        push_be32(&mut bytes, 0);
        push_be32(&mut bytes, key);
        push_be32(&mut bytes, 0xffff_ffff);
        push_be16(&mut bytes, self.port);
        assert(bytes@ =~= announce_bytes(*self, connection_id, transaction_id, left, event, key));
        bytes
    }
}

impl Torrent {
    /// Announces the torrent: the number by which the answer is told from others and the key, both
    /// of which are left to chance, and the datagram.
    pub fn announce(&self, connection_id: u64, left: u32, event: Option<TrackerEvent>) -> (r: (
        u32,
        u32,
        Vec<u8>,
    ))
        ensures
            r.2@ == announce_bytes(*self, connection_id, r.0, left, event, r.1),
    {
        let transaction_id: u32 = random_number();
        let key: u32 = random_number();
        let bytes: Vec<u8> = self.announce_request(
            connection_id,
            transaction_id,
            left,
            event,
            key,
        );
        (transaction_id, key, bytes)
    }
}

/// Whether a datagram answers the announcement.
pub open spec fn is_announce_response(bytes: Seq<u8>, transaction_id: u32) -> bool {
    bytes.len() >= 20 && read_be32(bytes, 4) == transaction_id
}

/// Whether a datagram answers the announcement.
pub fn check_announce_response(bytes: &[u8], transaction_id: u32) -> (r: bool)
    ensures
        r == is_announce_response(bytes@, transaction_id),
{
    bytes.len() >= 20 && get_be32(bytes, 4) == transaction_id
}

/// What a datagram says as the answer of a tracker.
pub open spec fn read_announce(bytes: Seq<u8>, tracker_id: Option<Seq<char>>) -> ResponseView {
    ResponseView {
        warning_message: None,
        interval: read_be32(bytes, 8),
        min_interval: None,
        tracker_id,
        complete: read_be32(bytes, 12),
        incomplete: read_be32(bytes, 16),
        peer_info: read_addresses(bytes, 20, ((bytes.len() - 20) / 6) as nat),
    }
}

impl TrackerResponse {
    /// Reads the answer of a tracker from a datagram.
    pub fn from_udp(bytes: &[u8], tracker_id: Option<String>) -> (response: TrackerResponse)
        requires
            bytes@.len() >= 20,
        ensures
            response@ == read_announce(bytes@, text_of(tracker_id)),
    {
        assert(bytes.len() == bytes@.len());
        let peer_info: Vec<PeerAddress> = get_addresses(bytes, 20, (bytes.len() - 20) / 6);
        TrackerResponse {
            warning_message: None,
            interval: get_be32(bytes, 8),
            min_interval: None,
            tracker_id,
            complete: get_be32(bytes, 12),
            incomplete: get_be32(bytes, 16),
            peer_info,
        }
    }
}

/// The conversation with a tracker: what it was asked last.
#[derive(Debug, Clone, Copy, PartialEq, Eq, Structural)]
pub enum UdpConversation {
    /// It was asked for a connection.
    Connecting { transaction_id: u32 },
    /// The torrent was announced.
    Announcing { transaction_id: u32, key: u32 },
}

/// What is next in the conversation with a tracker.
#[derive(Debug)]
pub enum UdpStep {
    /// The datagram is to be sent.
    Send(Vec<u8>),
    /// The tracker has answered.
    Done(TrackerResponse),
}

impl UdpConversation {
    /// Begins a conversation: the datagram asks for a connection.
    pub fn start() -> (r: (UdpConversation, Vec<u8>))
        ensures
            r.0 matches UdpConversation::Connecting { transaction_id } && r.1@ == connection_bytes(
                transaction_id,
            ),
    {
        let (transaction_id, bytes) = start_connection();
        (UdpConversation::Connecting { transaction_id }, bytes)
    }

    /// Goes on when a datagram has come: once the connection is granted the torrent is announced,
    /// and the answer to that is the tracker's. A datagram that does not answer what was asked
    /// leads nowhere.
    pub fn proceed(
        &mut self,
        torrent: &Torrent,
        left: u32,
        event: Option<TrackerEvent>,
        tracker_id: &Option<String>,
        reply: &[u8],
    ) -> (step: Option<UdpStep>)
        ensures
            match *old(self) {
                UdpConversation::Connecting { transaction_id } => if is_connect_response(
                    reply@,
                    transaction_id,
                ) {
                    &&& step matches Some(UdpStep::Send(bytes))
                    &&& *final(self) matches UdpConversation::Announcing { transaction_id: id, key }
                    &&& bytes@ == announce_bytes(
                        *torrent,
                        read_be64(reply@, 8),
                        id,
                        left,
                        event,
                        key,
                    )
                } else {
                    step is None && *final(self) == *old(self)
                },
                UdpConversation::Announcing { transaction_id, key } => {
                    &&& *final(self) == *old(self)
                    &&& if is_announce_response(reply@, transaction_id) {
                        step matches Some(UdpStep::Done(response)) && response@ == read_announce(
                            reply@,
                            text_of(*tracker_id),
                        )
                    } else {
                        step is None
                    }
                },
            },
    {
        match *self {
            UdpConversation::Connecting { transaction_id } => {
                if !check_connect_response(reply, transaction_id) {
                    return None;
                }
                let (id, key, bytes) = torrent.announce(connection_id(reply), left, event);
                *self = UdpConversation::Announcing { transaction_id: id, key };
                Some(UdpStep::Send(bytes))
            },
            UdpConversation::Announcing { transaction_id, key: _ } => {
                if !check_announce_response(reply, transaction_id) {
                    return None;
                }
                Some(UdpStep::Done(TrackerResponse::from_udp(reply, copy_text(tracker_id))))
            },
        }
    }
}

/// An address in six bytes.
pub open spec fn address_bytes(address: PeerAddress) -> Seq<u8> {
    seq![address.ip.a, address.ip.b, address.ip.c, address.ip.d] + be16(address.port)
}

/// Addresses, one after the other.
pub open spec fn addresses_bytes(addresses: Seq<PeerAddress>) -> Seq<u8>
    decreases addresses.len(),
{
    if addresses.len() == 0 {
        Seq::empty()
    } else {
        addresses_bytes(addresses.drop_last()) + address_bytes(addresses.last())
    }
}

proof fn lemma_addresses_length(addresses: Seq<PeerAddress>)
    ensures
        addresses_bytes(addresses).len() == 6 * addresses.len(),
    decreases addresses.len(),
{
    if addresses.len() > 0 {
        lemma_addresses_length(addresses.drop_last());
    }
}

/// Addresses that are written one after the other are read back.
pub proof fn law_addresses_are_read_back(before: Seq<u8>, addresses: Seq<PeerAddress>)
    ensures
        read_addresses(
            before + addresses_bytes(addresses),
            before.len() as int,
            addresses.len(),
        ) == addresses,
    decreases addresses.len(),
{
    lemma_addresses_length(addresses);
    let bytes = before + addresses_bytes(addresses);
    let from = before.len() as int;
    if addresses.len() > 0 {
        let shorter = addresses.drop_last();
        let last = addresses.last();
        lemma_addresses_length(shorter);
        law_addresses_are_read_back(before, shorter);
        let fewer = before + addresses_bytes(shorter);
        assert(bytes =~= fewer + address_bytes(last));
        assert forall|i: int| 0 <= i < addresses.len() implies read_addresses(
            bytes,
            from,
            addresses.len(),
        )[i] == addresses[i] by {
            if i < shorter.len() {
                assert(read_addresses(fewer, from, shorter.len())[i] == shorter[i]);
                assert(read_address(fewer, from + 6 * i) == read_address(bytes, from + 6 * i));
            } else {
                let at = from + 6 * i;
                assert(bytes.subrange(at + 4, at + 6) =~= be16(last.port));
                lemma_read_be16(last.port, bytes, at + 4);
                assert(read_address(bytes, at) == last);
            }
        }
    }
    assert(read_addresses(bytes, from, addresses.len()) =~= addresses);
}

/// The answer of a tracker that grants a connection is accepted, and the number of the connection
/// is read back.
pub proof fn law_connection_is_read_back(transaction_id: u32, id: u64)
    ensures
        is_connect_response(be32(0) + be32(transaction_id) + be64(id), transaction_id),
        read_be64(be32(0) + be32(transaction_id) + be64(id), 8) == id,
{
    let bytes = be32(0) + be32(transaction_id) + be64(id);
    assert(bytes.subrange(0, 4) =~= be32(0));
    assert(bytes.subrange(4, 8) =~= be32(transaction_id));
    assert(bytes.subrange(8, 16) =~= be64(id));
    lemma_read_be32(0, bytes, 0);
    lemma_read_be32(transaction_id, bytes, 4);
    lemma_read_be64(id, bytes, 8);
}

/// The answer of a tracker to an announcement is accepted, and what it says is read back.
pub proof fn law_announcement_is_read_back(
    transaction_id: u32,
    interval: u32,
    leechers: u32,
    seeders: u32,
    addresses: Seq<PeerAddress>,
)
    ensures
        ({
            let bytes = be32(1) + be32(transaction_id) + be32(interval) + be32(leechers) + be32(
                seeders,
            ) + addresses_bytes(addresses);
            &&& is_announce_response(bytes, transaction_id)
            &&& read_announce(bytes, None) == (ResponseView {
                warning_message: None,
                interval,
                min_interval: None,
                tracker_id: None,
                complete: leechers,
                incomplete: seeders,
                peer_info: addresses,
            })
        }),
{
    let head = be32(1) + be32(transaction_id) + be32(interval) + be32(leechers) + be32(seeders);
    let bytes = head + addresses_bytes(addresses);
    assert(bytes.subrange(4, 8) =~= be32(transaction_id));
    assert(bytes.subrange(8, 12) =~= be32(interval));
    assert(bytes.subrange(12, 16) =~= be32(leechers));
    assert(bytes.subrange(16, 20) =~= be32(seeders));
    lemma_read_be32(transaction_id, bytes, 4);
    lemma_read_be32(interval, bytes, 8);
    lemma_read_be32(leechers, bytes, 12);
    lemma_read_be32(seeders, bytes, 16);
    lemma_addresses_length(addresses);
    law_addresses_are_read_back(head, addresses);
}

/// Where the tracker finds what it is told in an announcement.
pub proof fn law_announcement_layout(
    t: Torrent,
    connection_id: u64,
    transaction_id: u32,
    left: u32,
    event: Option<TrackerEvent>,
    key: u32,
)
    ensures
        ({
            let bytes = announce_bytes(t, connection_id, transaction_id, left, event, key);
            &&& bytes.len() == 98
            &&& read_be64(bytes, 0) == connection_id
            &&& read_be32(bytes, 8) == 1
            &&& read_be32(bytes, 12) == transaction_id
            &&& bytes.subrange(16, 36) == t.metainfo.info_hash@
            &&& bytes.subrange(36, 56) == t.peer_id@
            &&& read_be64(bytes, 56) == t.bytes_downloaded
            &&& read_be64(bytes, 64) == left
            &&& read_be64(bytes, 72) == t.bytes_uploaded
            &&& read_be32(bytes, 80) == event_code(event)
            &&& read_be32(bytes, 84) == 0
            &&& read_be32(bytes, 88) == key
            &&& read_be32(bytes, 92) == 0xffff_ffff
            &&& read_be16(bytes, 96) == t.port
        }),
{
    let bytes = announce_bytes(t, connection_id, transaction_id, left, event, key);
    let h1 = be64(connection_id);
    let h2 = h1 + be32(1);
    let h3 = h2 + be32(transaction_id);
    let h4 = h3 + t.metainfo.info_hash@;
    let h5 = h4 + t.peer_id@;
    let h6 = h5 + be64(t.bytes_downloaded as u64);
    let h7 = h6 + be64(left as u64);
    let h8 = h7 + be64(t.bytes_uploaded as u64);
    let h9 = h8 + be32(event_code(event));
    let h10 = h9 + be32(0);
    let h11 = h10 + be32(key);
    let h12 = h11 + be32(0xffff_ffff);
    let h13 = h12 + be16(t.port);
    assert(bytes == h13);
    assert(bytes.take(98) =~= h13);
    lemma_part(bytes, h12, be16(t.port));
    lemma_part(bytes, h11, be32(0xffff_ffff));
    lemma_part(bytes, h10, be32(key));
    lemma_part(bytes, h9, be32(0));
    lemma_part(bytes, h8, be32(event_code(event)));
    lemma_part(bytes, h7, be64(t.bytes_uploaded as u64));
    lemma_part(bytes, h6, be64(left as u64));
    lemma_part(bytes, h5, be64(t.bytes_downloaded as u64));
    lemma_part(bytes, h4, t.peer_id@);
    lemma_part(bytes, h3, t.metainfo.info_hash@);
    lemma_part(bytes, h2, be32(transaction_id));
    lemma_part(bytes, h1, be32(1));
    lemma_read_be64(connection_id, bytes, 0);
    lemma_read_be32(1, bytes, 8);
    lemma_read_be32(transaction_id, bytes, 12);
    lemma_read_be64(t.bytes_downloaded as u64, bytes, 56);
    lemma_read_be64(left as u64, bytes, 64);
    lemma_read_be64(t.bytes_uploaded as u64, bytes, 72);
    lemma_read_be32(event_code(event), bytes, 80);
    lemma_read_be32(0, bytes, 84);
    lemma_read_be32(key, bytes, 88);
    lemma_read_be32(0xffff_ffff, bytes, 92);
    lemma_read_be16(t.port, bytes, 96);
}

} // verus!

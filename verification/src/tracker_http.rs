//! Trackers on the web.
use crate::address::{get_addresses, read_addresses};
use crate::bencode::{bencode_tree, tree_dict, Bencode, BencodeTree};
use crate::bytes::{encode_bytes, percent_encoded};
use crate::metainfo::{dict_bytes, dict_str, dict_u32, get_bytes, get_str, get_u32, text_of, Entries};
use crate::torrent::Torrent;
use crate::tracker::{
    copy_text, error_text, event_name, protocol_of, ErrorView, Protocol, ResponseView, TrackerError, TrackerEvent,
    TrackerResponse,
};
use vstd::prelude::*;
use vstd::string::StringExecFns;

verus! {

/// The digits of `n` in base ten.
pub open spec fn decimal(n: nat) -> Seq<char>
    decreases n,
{
    if n < 10 {
        seq![(48 + n) as u8 as char]
    } else {
        decimal(n / 10).push((48 + n % 10) as u8 as char)
    }
}

/// Writes `n` in base ten.
pub fn write_decimal(n: u32) -> (text: String)
    ensures
        text@ == decimal(n as nat),
    decreases n,
{
    let last: char = (48 + (n % 10) as u8) as char;
    if n < 10 {
        let mut text: String = String::new();
        text.push(last);
        assert(text@ =~= decimal(n as nat));
        text
    } else {
        let mut text: String = write_decimal(n / 10);
        text.push(last);
        text
    }
}

/// What the pairs of a query stand for.
pub open spec fn pairs_of(pairs: Seq<(String, String)>) -> Seq<(Seq<char>, Seq<char>)> {
    Seq::new(pairs.len(), |i: int| (pairs[i].0@, pairs[i].1@))
}

/// The address that `reqwest` makes of `url` with `pairs` added to its query; none where it does
/// not take `url` as an address.
pub uninterp spec fn url_with_query(url: Seq<char>, pairs: Seq<(Seq<char>, Seq<char>)>) -> Option<
    Seq<char>,
>;

/// `reqwest::Client::get`, `RequestBuilder::query` and `build`: the address of the request is a
/// function of the address and the pairs. Whether the machine lets a client be made at all is not
/// said; where not, nothing is built.
#[verifier::external_body]
fn build_url(url: &str, pairs: &Vec<(String, String)>) -> (r: Result<Option<String>, TrackerError>)
    requires
        protocol_of(url@) == Some(Protocol::Http),
    ensures
        match r {
            Ok(built) => text_of(built) == url_with_query(url@, pairs_of(pairs@)),
            Err(e) => e@ == ErrorView::NoClient,
        },
{
    let client = match reqwest::Client::builder().build() {
        Ok(client) => client,
        Err(_) => return Err(TrackerError::NoClient),
    };
    Ok(client.get(url).query(pairs).build().ok().map(|r| r.url().to_string()))
}

/// The pairs with which a tracker is asked.
pub open spec fn query_pairs(
    t: Torrent,
    left: u32,
    event: Option<TrackerEvent>,
    tracker_id: Option<Seq<char>>,
) -> Seq<(Seq<char>, Seq<char>)> {
    let always = seq![
        ("peer_id"@, percent_encoded(t.peer_id@)),
        ("port"@, decimal(t.port as nat)),
        ("uploaded"@, decimal(t.bytes_uploaded as nat)),
        ("downloaded"@, decimal(t.bytes_downloaded as nat)),
        ("left"@, decimal(left as nat)),
        ("compact"@, "1"@),
    ];
    let with_event = match event {
        Some(event) => always.push(("event"@, event_name(event))),
        None => always,
    };
    match tracker_id {
        Some(id) => with_event.push(("trackerid"@, id)),
        None => with_event,
    }
}

/// `base` with the torrent added to its query.
pub open spec fn with_hash(base: Seq<char>, info_hash: Seq<u8>) -> Seq<char> {
    base + "&info_hash="@ + percent_encoded(info_hash)
}

/// Adds the torrent to the query of an address.
pub fn add_info_hash(base: String, info_hash: &[u8; 20]) -> (url: String)
    ensures
        url@ == with_hash(base@, info_hash@),
{
    let hash: String = encode_bytes(info_hash.as_slice());
    base.concat("&info_hash=").concat(hash.as_str())
}

fn push_pair(pairs: &mut Vec<(String, String)>, name: &str, value: String)
    ensures
        pairs_of(final(pairs)@) == pairs_of(old(pairs)@).push((name@, value@)),
{
    pairs.push((name.to_owned(), value));
    assert(pairs_of(pairs@) =~= pairs_of(old(pairs)@).push((name@, value@)));
}

impl Torrent {
    /// The pairs with which a tracker is asked; `left` is the number of bytes that are missing.
    pub fn http_query(
        &self,
        left: u32,
        event: Option<TrackerEvent>,
        tracker_id: &Option<String>,
    ) -> (pairs: Vec<(String, String)>)
        ensures
            pairs_of(pairs@) == query_pairs(*self, left, event, text_of(*tracker_id)),
    {
        let mut pairs: Vec<(String, String)> = Vec::new();
        push_pair(&mut pairs, "peer_id", encode_bytes(self.peer_id.as_slice()));
        push_pair(&mut pairs, "port", write_decimal(self.port as u32));
        push_pair(&mut pairs, "uploaded", write_decimal(self.bytes_uploaded));
        push_pair(&mut pairs, "downloaded", write_decimal(self.bytes_downloaded));
        push_pair(&mut pairs, "left", write_decimal(left));
        push_pair(&mut pairs, "compact", "1".to_owned());
        assert(pairs_of(pairs@) =~= query_pairs(*self, left, None, None));
        match event {
            Some(event) => {
                push_pair(&mut pairs, "event", event.to_string());
            },
            None => {},
        }
        match copy_text(tracker_id) {
            Some(id) => {
                push_pair(&mut pairs, "trackerid", id);
            },
            None => {},
        }
        pairs
    }

    /// The address at which the tracker at `url` is asked.
    pub fn http_request_url(
        &self,
        url: &str,
        left: u32,
        event: Option<TrackerEvent>,
        tracker_id: &Option<String>,
    ) -> (r: Result<String, TrackerError>)
        requires
            protocol_of(url@) == Some(Protocol::Http),
        ensures
            ({
                let built = url_with_query(
                    url@,
                    query_pairs(*self, left, event, text_of(*tracker_id)),
                );
                match r {
                    Ok(text) => built matches Some(base) && text@ == with_hash(
                        base,
                        self.metainfo.info_hash@,
                    ),
                    Err(e) => (built is None && e@ == ErrorView::InvalidUrl) || e@
                        == ErrorView::NoClient,
                }
            }),
    {
        let pairs: Vec<(String, String)> = self.http_query(left, event, tracker_id);
        match build_url(url, &pairs) {
            Err(e) => Err(e),
            Ok(None) => Err(TrackerError::InvalidUrl),
            Ok(Some(base)) => Ok(add_info_hash(base, &self.metainfo.info_hash)),
        }
    }
}

/// What a dictionary says as the answer of a tracker.
pub open spec fn parse_entries(root: Entries) -> Result<ResponseView, ErrorView> {
    match dict_str(root, "failure reason"@) {
        Some(reason) => Err(ErrorView::Failure(reason)),
        None => match dict_u32(root, "interval"@) {
            None => Err(ErrorView::IntervalMissing),
            Some(interval) => match dict_u32(root, "complete"@) {
                None => Err(ErrorView::CompleteMissing),
                Some(complete) => match dict_u32(root, "incomplete"@) {
                    None => Err(ErrorView::IncompleteMissing),
                    Some(incomplete) => match dict_bytes(root, "peers"@) {
                        None => Err(ErrorView::PeersMissing),
                        Some(peers) => Ok(
                            ResponseView {
                                warning_message: dict_str(root, "warning message"@),
                                interval,
                                min_interval: dict_u32(root, "min interval"@),
                                tracker_id: dict_str(root, "tracker id"@),
                                complete,
                                incomplete,
                                peer_info: read_addresses(peers, 0, peers.len() / 6),
                            },
                        ),
                    },
                },
            },
        },
    }
}

/// What a bencoded value says as the answer of a tracker.
pub open spec fn parse_response(tree: BencodeTree) -> Result<ResponseView, ErrorView> {
    match tree_dict(tree) {
        None => Err(ErrorView::NotADictionary),
        Some(root) => parse_entries(root),
    }
}

/// Whether a result is what `expected` says.
pub open spec fn is_response(
    r: Result<TrackerResponse, TrackerError>,
    expected: Result<ResponseView, ErrorView>,
) -> bool {
    match r {
        Ok(response) => expected == Ok::<ResponseView, ErrorView>(response@),
        Err(e) => expected == Err::<ResponseView, ErrorView>(e@),
    }
}

impl TrackerResponse {
    /// Reads the answer of a tracker.
    pub fn from_bencode(bencode: &Bencode) -> (r: Result<TrackerResponse, TrackerError>)
        ensures
            is_response(r, parse_response(bencode@)),
    {
        let root = match bencode.as_dict() {
            Some(root) => root,
            None => {
                return Err(TrackerError::NotADictionary);
            },
        };
        match get_str(root, "failure reason") {
            Some(reason) => {
                return Err(TrackerError::Failure(reason));
            },
            None => {},
        }
        let warning_message: Option<String> = get_str(root, "warning message");
        let interval: u32 = match get_u32(root, "interval") {
            Some(n) => n,
            None => {
                return Err(TrackerError::IntervalMissing);
            },
        };
        let min_interval: Option<u32> = get_u32(root, "min interval");
        let tracker_id: Option<String> = get_str(root, "tracker id");
        let complete: u32 = match get_u32(root, "complete") {
            Some(n) => n,
            None => {
                return Err(TrackerError::CompleteMissing);
            },
        };
        let incomplete: u32 = match get_u32(root, "incomplete") {
            Some(n) => n,
            None => {
                return Err(TrackerError::IncompleteMissing);
            },
        };
        let peers: &Vec<u8> = match get_bytes(root, "peers") {
            Some(peers) => peers,
            None => {
                return Err(TrackerError::PeersMissing);
            },
        };
        let peer_info = get_addresses(peers.as_slice(), 0, peers.len() / 6);
        Ok(
            TrackerResponse {
                warning_message,
                interval,
                min_interval,
                tracker_id,
                complete,
                incomplete,
                peer_info,
            },
        )
    }

    /// Reads the answer of a tracker from its bytes.
    pub fn from_http(bytes: &[u8]) -> (r: Result<TrackerResponse, TrackerError>)
        ensures
            match bencode_tree(bytes@) {
                Ok(tree) => is_response(r, parse_response(tree)),
                Err(text) => r matches Err(e) && e@ == ErrorView::NotBencode(text),
            },
    {
        match Bencode::decode(bytes) {
            Ok(bencode) => TrackerResponse::from_bencode(&bencode),
            Err(text) => Err(TrackerError::NotBencode(text)),
        }
    }
}

/// Where a tracker gives a reason for a failure, that is the error and its text, whatever else it
/// says.
pub proof fn law_failure_wins(root: Entries, reason: Seq<char>)
    requires
        dict_str(root, "failure reason"@) == Some(reason),
    ensures
        parse_entries(root) == Err::<ResponseView, ErrorView>(ErrorView::Failure(reason)),
        error_text(ErrorView::Failure(reason)) == reason,
{
}

} // verus!

use bittorrent::address::{Ipv4, PeerAddress};
use bittorrent::metainfo::MetaInfo;
use bittorrent::torrent::Torrent;
use bittorrent::tracker::{
    event_number, tracker_protocol, tracker_urls, Protocol, SearchStep, TrackerError, TrackerEvent,
    TrackerResponse, TrackerSearch,
};
use bittorrent::tracker_http::{add_info_hash, write_decimal};
use bittorrent::tracker_udp::{
    check_announce_response, check_connect_response, connection_id, connection_request, parse_port,
    read_host_and_port, start_connection, udp_endpoint, UdpConversation, UdpStep,
};

fn metainfo() -> MetaInfo {
    MetaInfo {
        announce: "http://one.org/a".to_string(),
        announce_list: Some(vec!["udp://two.org:80".to_string(), "wss://three".to_string()]),
        creation_date: None,
        comment: None,
        created_by: None,
        piece_length: 10,
        pieces: vec![[0; 20]; 2],
        files: vec![],
        info_hash: [0xfe; 20],
    }
}

fn torrent() -> Torrent {
    let mut torrent = Torrent::with_peer_id(metainfo(), 6969, *b"aaaaaaaaaa/bbbbbbbbb");
    torrent.bytes_uploaded = 3;
    torrent.bytes_downloaded = 4;
    torrent
}

fn response(peers: usize) -> TrackerResponse {
    let mut bytes = vec![0; 20 + 6 * peers];
    bytes[11] = 9;
    TrackerResponse::from_udp(&bytes, None)
}

#[test]
fn trackers_in_their_order() {
    assert_eq!(tracker_urls(&metainfo()), vec!["http://one.org/a", "udp://two.org:80", "wss://three"]);
    let mut alone = metainfo();
    alone.announce_list = None;
    assert_eq!(tracker_urls(&alone), vec!["http://one.org/a"]);
}

#[test]
fn protocols_of_trackers() {
    assert_eq!(tracker_protocol("http://one.org").unwrap(), Protocol::Http);
    assert_eq!(tracker_protocol("https://one.org").unwrap(), Protocol::Http);
    assert_eq!(tracker_protocol("udp://one.org:1").unwrap(), Protocol::Udp);
    let error = tracker_protocol("wss://three").unwrap_err();
    assert_eq!(error.message(), "Tracker protocol not supported: wss");
    assert_eq!(
        tracker_protocol("nothing").unwrap_err().message(),
        "Tracker protocol not supported: nothing"
    );
    assert!(tracker_protocol("").is_err());
}

#[test]
fn search_asks_one_after_the_other() {
    let mut search = TrackerSearch::new(&metainfo());
    assert!(matches!(search.proceed(None), SearchStep::Ask(url) if url == "http://one.org/a"));
    assert!(matches!(search.proceed(None), SearchStep::Ask(url) if url == "udp://two.org:80"));
    match search.proceed(Some(response(1))) {
        SearchStep::Found(found) => assert_eq!((found.interval, found.peer_info.len()), (9, 1)),
        _ => panic!("nothing found"),
    }
    assert!(matches!(search.proceed(None), SearchStep::Ask(url) if url == "wss://three"));
    match search.proceed(None) {
        SearchStep::GiveUp(error) => {
            assert_eq!(error.message(), "Couldn't request from any tracker")
        }
        _ => panic!("not given up"),
    }
}

#[test]
fn names_and_numbers_of_events() {
    assert_eq!(TrackerEvent::Started.to_string(), "started");
    assert_eq!(TrackerEvent::Stopped.to_string(), "stopped");
    assert_eq!(TrackerEvent::Completed.to_string(), "completed");
    assert_eq!(event_number(None), 0);
    assert_eq!(event_number(Some(TrackerEvent::Completed)), 1);
    assert_eq!(event_number(Some(TrackerEvent::Started)), 2);
    assert_eq!(event_number(Some(TrackerEvent::Stopped)), 3);
}

#[test]
fn numbers_in_base_ten() {
    assert_eq!(write_decimal(0), "0");
    assert_eq!(write_decimal(6969), "6969");
    assert_eq!(write_decimal(u32::MAX), "4294967295");
}

#[test]
fn query_of_an_announcement() {
    let torrent = torrent();
    let pairs = torrent.http_query(20, Some(TrackerEvent::Started), &Some("id".to_string()));
    let pairs: Vec<(&str, &str)> = pairs.iter().map(|p| (p.0.as_str(), p.1.as_str())).collect();
    assert_eq!(
        pairs,
        vec![
            ("peer_id", "aaaaaaaaaa%2Fbbbbbbbbb"),
            ("port", "6969"),
            ("uploaded", "3"),
            ("downloaded", "4"),
            ("left", "20"),
            ("compact", "1"),
            ("event", "started"),
            ("trackerid", "id"),
        ]
    );
    assert_eq!(torrent.http_query(20, None, &None).len(), 6);
}

#[test]
fn address_of_an_announcement() {
    let url = torrent().http_request_url("http://one.org/a?k=1", 20, None, &None).unwrap();
    assert_eq!(
        url,
        "http://one.org/a?k=1&peer_id=aaaaaaaaaa%252Fbbbbbbbbb&port=6969&uploaded=3&downloaded=4\
&left=20&compact=1&info_hash=%FE%FE%FE%FE%FE%FE%FE%FE%FE%FE%FE%FE%FE%FE%FE%FE%FE%FE%FE%FE"
    );
    assert_eq!(
        add_info_hash("x".to_string(), &[0x41; 20]),
        "x&info_hash=AAAAAAAAAAAAAAAAAAAA"
    );
}

#[test]
fn address_that_is_none() {
    let error = torrent().http_request_url("http://", 20, None, &None).unwrap_err();
    assert!(matches!(error, TrackerError::InvalidUrl));
    assert_eq!(error.message(), "Invalid tracker url");
    assert_eq!(TrackerError::NoClient.message(), "Couldn't make a client");
}

#[test]
fn answer_on_the_web() {
    let bytes = b"d8:completei3e10:incompletei4e8:intervali1800e12:min intervali60e5:peers13:\x7f\0\
\0\x01\x1b\x39\x0a\0\0\x02\0\x50!10:tracker id1:t15:warning message2:hme";
    let response = TrackerResponse::from_http(bytes).unwrap();
    assert_eq!(response.interval, 1800);
    assert_eq!(response.min_interval, Some(60));
    assert_eq!((response.complete, response.incomplete), (3, 4));
    assert_eq!(response.tracker_id, Some("t".to_string()));
    assert_eq!(response.warning_message, Some("hm".to_string()));
    assert_eq!(
        response.peer_info,
        vec![
            PeerAddress { ip: Ipv4 { a: 127, b: 0, c: 0, d: 1 }, port: 6969 },
            PeerAddress { ip: Ipv4 { a: 10, b: 0, c: 0, d: 2 }, port: 80 },
        ]
    );
}

fn web_error(bytes: &[u8]) -> String {
    TrackerResponse::from_http(bytes).unwrap_err().message()
}

#[test]
fn what_is_wrong_with_an_answer() {
    assert_eq!(web_error(b"le"), "Couldn't make dict");
    assert_eq!(web_error(b"d14:failure reason2:noe"), "no");
    assert_eq!(
        web_error(b"d8:completei3e14:failure reason2:no10:incompletei4e8:intervali1e5:peers0:e"),
        "no"
    );
    assert_eq!(web_error(b"de"), "Interval missing");
    assert_eq!(web_error(b"d8:intervali-1ee"), "Interval missing");
    assert_eq!(web_error(b"d8:intervali1ee"), "Complete missing");
    assert!(matches!(
        TrackerResponse::from_http(b"d8:completei1e8:intervali1ee"),
        Err(TrackerError::IncompleteMissing)
    ));
    assert_eq!(web_error(b"d8:completei1e8:intervali1ee"), "Complete missing");
    assert_eq!(
        web_error(b"d8:completei1e10:incompletei1e8:intervali1ee"),
        "Incomplete missing"
    );
    assert!(matches!(TrackerResponse::from_http(b"?"), Err(TrackerError::NotBencode(_))));
}

#[test]
fn hosts_and_ports() {
    let (host, port) = udp_endpoint("udp://tracker.org:1337/announce").unwrap();
    assert_eq!((host.as_str(), port), ("tracker.org", Some(1337)));
    let (host, port) = udp_endpoint("udp://tracker.org:99999").unwrap();
    assert_eq!((host.as_str(), port), ("tracker.org", None));
    assert_eq!(udp_endpoint("udp://tracker.org").unwrap_err().message(), "Invalid announce url");
    assert!(read_host_and_port(None).is_err());
    let groups = Some(("h".to_string(), "7".to_string()));
    assert_eq!(read_host_and_port(groups).unwrap(), ("h".to_string(), Some(7)));
}

#[test]
fn ports_have_sixteen_bits() {
    assert_eq!(parse_port("0"), Some(0));
    assert_eq!(parse_port("65535"), Some(65535));
    assert_eq!(parse_port("0000080"), Some(80));
    assert_eq!(parse_port("65536"), None);
    assert_eq!(parse_port("99999999999999999999"), None);
    assert_eq!(parse_port(""), None);
    assert_eq!(parse_port("8o"), None);
}

#[test]
fn connections_are_granted() {
    assert_eq!(
        connection_request(0x01020304),
        vec![0, 0, 4, 0x17, 0x27, 0x10, 0x19, 0x80, 0, 0, 0, 0, 1, 2, 3, 4]
    );
    let granted = [0, 0, 0, 0, 1, 2, 3, 4, 0, 0, 0, 0, 0, 0, 1, 5];
    assert!(check_connect_response(&granted, 0x01020304));
    assert!(!check_connect_response(&granted, 0x01020305));
    assert!(!check_connect_response(&granted[..15], 0x01020304));
    let mut other = granted;
    other[3] = 1;
    assert!(!check_connect_response(&other, 0x01020304));
    assert_eq!(connection_id(&granted), 261);
}

#[test]
fn connections_are_told_apart() {
    let (first, bytes) = start_connection();
    assert_eq!(bytes, connection_request(first));
    let (second, _) = start_connection();
    let (third, _) = start_connection();
    assert!(first != second || second != third);
}

#[test]
fn announcement_in_a_datagram() {
    let torrent = torrent();
    let bytes = torrent.announce_request(5, 6, 20, Some(TrackerEvent::Stopped), 7);
    let mut expected = vec![0, 0, 0, 0, 0, 0, 0, 5, 0, 0, 0, 1, 0, 0, 0, 6];
    expected.extend([0xfe; 20]);
    expected.extend(*b"aaaaaaaaaa/bbbbbbbbb");
    expected.extend([0, 0, 0, 0, 0, 0, 0, 4]);
    expected.extend([0, 0, 0, 0, 0, 0, 0, 20]);
    expected.extend([0, 0, 0, 0, 0, 0, 0, 3]);
    expected.extend([0, 0, 0, 3, 0, 0, 0, 0, 0, 0, 0, 7, 255, 255, 255, 255, 0x1b, 0x39]);
    assert_eq!(bytes, expected);
    assert_eq!(bytes.len(), 98);
    let (transaction_id, key, bytes) = torrent.announce(5, 20, None);
    assert_eq!(bytes, torrent.announce_request(5, transaction_id, 20, None, key));
}

#[test]
fn answer_in_a_datagram() {
    let bytes = [
        0, 0, 0, 1, 0, 0, 0, 6, 0, 0, 7, 8, 0, 0, 0, 2, 0, 0, 0, 3, 10, 0, 0, 1, 0, 80, 1, 2, 3,
    ];
    assert!(check_announce_response(&bytes, 6));
    assert!(!check_announce_response(&bytes, 7));
    assert!(!check_announce_response(&bytes[..19], 6));
    let response = TrackerResponse::from_udp(&bytes, Some("t".to_string()));
    assert_eq!(response.interval, 1800);
    assert_eq!((response.complete, response.incomplete), (2, 3));
    assert_eq!(response.tracker_id, Some("t".to_string()));
    assert_eq!((response.warning_message, response.min_interval), (None, None));
    assert_eq!(
        response.peer_info,
        vec![PeerAddress { ip: Ipv4 { a: 10, b: 0, c: 0, d: 1 }, port: 80 }]
    );
}

#[test]
fn conversation_by_datagrams() {
    let torrent = torrent();
    let id = Some("t".to_string());
    let (mut conversation, request) = UdpConversation::start();
    assert_eq!(request.len(), 16);
    let mut granted = vec![0, 0, 0, 0];
    granted.extend(&request[12..16]);
    granted.extend([0, 0, 0, 0, 0, 0, 1, 5]);
    assert!(conversation.proceed(&torrent, 20, None, &id, &granted[..15]).is_none());
    let bytes = match conversation.proceed(&torrent, 20, None, &id, &granted) {
        Some(UdpStep::Send(bytes)) => bytes,
        _ => panic!("nothing to send"),
    };
    assert_eq!(bytes[..12], [0, 0, 0, 0, 0, 0, 1, 5, 0, 0, 0, 1]);
    let mut answer = vec![0, 0, 0, 1];
    answer.extend(&bytes[12..16]);
    answer.extend([0, 0, 0, 9, 0, 0, 0, 2, 0, 0, 0, 3]);
    assert!(conversation.proceed(&torrent, 20, None, &id, &answer[..19]).is_none());
    match conversation.proceed(&torrent, 20, None, &id, &answer) {
        Some(UdpStep::Done(response)) => {
            assert_eq!((response.interval, response.complete, response.incomplete), (9, 2, 3));
            assert!(response.peer_info.is_empty());
            assert_eq!(response.tracker_id, id);
        }
        _ => panic!("no answer"),
    }
}

use bittorrent::address::{Ipv4, PeerAddress};
use bittorrent::choke::PeerStatus;
use bittorrent::client_message::{ClientMessage, Notice};
use bittorrent::metainfo::MetaInfo;
use bittorrent::torrent::Torrent;

fn address(d: u8) -> PeerAddress {
    PeerAddress { ip: Ipv4 { a: 10, b: 0, c: 0, d }, port: 1000 }
}

fn torrent(peers: &[u8]) -> Torrent {
    let metainfo = MetaInfo {
        announce: String::new(),
        announce_list: None,
        creation_date: None,
        comment: None,
        created_by: None,
        piece_length: 1,
        pieces: vec![],
        files: vec![],
        info_hash: [0; 20],
    };
    let mut torrent = Torrent::with_peer_id(metainfo, 1, [0; 20]);
    torrent.peers = peers.iter().map(|d| address(*d)).collect();
    torrent
}

fn status(download_rate: u32, am_choking: bool, peer_interested: bool) -> PeerStatus {
    PeerStatus { download_rate, am_choking, peer_interested }
}

fn unchoke(peer: usize) -> Notice {
    Notice { peer, message: ClientMessage::Unchoke }
}

#[test]
fn fastest_peers_come_first() {
    let mut torrent = torrent(&[1, 2, 3, 4]);
    let statuses: Vec<PeerStatus> = [5, 9, 5, 7].iter().map(|r| status(*r, true, false)).collect();
    let unchokes = torrent.regular_unchoke(&statuses);
    assert_eq!(unchokes.order, vec![1, 3, 2, 0]);
    assert_eq!(torrent.peers, vec![address(2), address(4), address(3), address(1)]);
    assert_eq!(unchokes.notices, vec![unchoke(0), unchoke(1), unchoke(2), unchoke(3)]);
}

#[test]
fn three_interested_peers_are_unchoked() {
    let mut torrent = torrent(&[1, 2, 3, 4, 5, 6]);
    let interested = [true, false, true, true, true, false];
    let statuses: Vec<PeerStatus> =
        (0..6).map(|i| status(60 - i as u32, true, interested[i])).collect();
    let unchokes = torrent.regular_unchoke(&statuses);
    assert_eq!(unchokes.order, vec![0, 1, 2, 3, 4, 5]);
    assert_eq!(unchokes.notices, vec![unchoke(0), unchoke(1), unchoke(2), unchoke(3)]);
}

#[test]
fn optimistic_peer_is_left_alone() {
    let mut torrent = torrent(&[1, 2, 3]);
    torrent.optimistic_unchoke_peer = Some(address(2));
    let statuses: Vec<PeerStatus> = [1, 9, 5].iter().map(|r| status(*r, false, true)).collect();
    let unchokes = torrent.regular_unchoke(&statuses);
    assert_eq!(unchokes.order, vec![1, 2, 0]);
    assert_eq!(unchokes.notices, vec![unchoke(1), unchoke(2)]);
}

#[test]
fn interested_peer_counts_at_once() {
    let mut torrent = torrent(&[1, 2, 3, 4, 5]);
    let mut statuses: Vec<PeerStatus> = (0..5).map(|i| status(i, false, i != 4)).collect();
    let unchokes = torrent.regular_unchoke(&statuses);
    assert_eq!(unchokes.order, vec![4, 3, 2, 1, 0]);
    assert_eq!(unchokes.notices, vec![unchoke(0), unchoke(1), unchoke(2), unchoke(3)]);
    statuses.reverse();
    statuses[0].peer_interested = true;
    let unchokes = torrent.interested_peer(&statuses);
    assert_eq!(unchokes.order, vec![0, 1, 2, 3, 4]);
    assert_eq!(torrent.peers[0], address(5));
    assert_eq!(unchokes.notices, vec![unchoke(0), unchoke(1), unchoke(2)]);
}

#[test]
fn last_status_of_an_address_counts() {
    let mut torrent = torrent(&[1, 2, 1]);
    let statuses = vec![status(9, true, true), status(5, true, true), status(1, true, true)];
    assert_eq!(torrent.regular_unchoke(&statuses).order, vec![1, 2, 0]);
}

#[test]
fn candidates_are_choked_peers() {
    let mut torrent = torrent(&[1, 2, 3]);
    torrent.optimistic_unchoke_peer = Some(address(1));
    let statuses = vec![status(0, true, false), status(0, false, false), status(0, true, false)];
    assert_eq!(torrent.optimistic_candidates(&statuses), vec![2]);
}

#[test]
fn optimistic_turn_moves_on() {
    let mut torrent = torrent(&[1, 2, 3]);
    torrent.optimistic_unchoke_peer = Some(address(1));
    let statuses = vec![status(0, false, false), status(0, false, false), status(0, true, false)];
    let notices = torrent.optimistic_unchoke(&statuses);
    assert_eq!(
        notices,
        vec![Notice { peer: 0, message: ClientMessage::Choke }, unchoke(2)]
    );
    assert_eq!(torrent.optimistic_unchoke_peer, Some(address(3)));
}

#[test]
fn optimistic_turn_without_candidates() {
    let mut torrent = torrent(&[1]);
    torrent.optimistic_unchoke_peer = Some(address(1));
    let notices = torrent.optimistic_unchoke(&vec![status(0, true, true)]);
    assert_eq!(notices, vec![Notice { peer: 0, message: ClientMessage::Choke }]);
    assert_eq!(torrent.optimistic_unchoke_peer, None);
    assert_eq!(torrent.optimistic_unchoke_of(None), vec![]);
}

#[test]
fn chance_reaches_every_candidate() {
    let mut seen = [false; 4];
    for _ in 0..400 {
        let mut torrent = torrent(&[0, 1, 2, 3]);
        let statuses = vec![status(0, true, false); 4];
        let notices = torrent.optimistic_unchoke(&statuses);
        assert_eq!(notices.len(), 1);
        seen[notices[0].peer] = true;
    }
    assert_eq!(seen, [true; 4]);
}

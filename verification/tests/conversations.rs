use bittorrent::address::{Ipv4, PeerAddress};
use bittorrent::bytes::sha1_hash;
use bittorrent::client_message::{ClientMessage, Notice};
use bittorrent::metainfo::{File, MetaInfo};
use bittorrent::peer::{Next, Peer, Reaction};
use bittorrent::peer_message::{Block, BlockInfo, PeerMessage};
use bittorrent::torrent::{PieceStep, Torrent};

fn address(d: u8) -> PeerAddress {
    PeerAddress { ip: Ipv4 { a: 10, b: 0, c: 0, d }, port: 1000 }
}

fn data() -> Vec<u8> {
    (0..80000u32).map(|i| (i % 251) as u8).collect()
}

/// Two pieces, of three and of two blocks.
fn torrent() -> Torrent {
    let data = data();
    let metainfo = MetaInfo {
        announce: String::new(),
        announce_list: None,
        creation_date: None,
        comment: None,
        created_by: None,
        piece_length: 49152,
        pieces: vec![sha1_hash(&data[..49152]), sha1_hash(&data[49152..])],
        files: vec![File { length: 80000, path: vec!["a".to_string()] }],
        info_hash: [7; 20],
    };
    let mut torrent = Torrent::with_peer_id(metainfo, 6969, [b'x'; 20]);
    torrent.peers = vec![address(1), address(2)];
    torrent.choose_first_piece();
    torrent
}

fn info(index: u32, begin: u32, length: u32) -> BlockInfo {
    BlockInfo { index, begin, length }
}

fn first(n: u32) -> BlockInfo {
    info(0, 16384 * n, 16384)
}

fn block(info: BlockInfo) -> Block {
    let from = (info.index * 49152 + info.begin) as usize;
    Block { info, bytes: data()[from..from + info.length as usize].to_vec() }
}

fn sent(reaction: &Reaction) -> Vec<Vec<u8>> {
    reaction.send.iter().map(|m| m.as_bytes()).collect()
}

fn handle(peer: &mut Peer, torrent: &mut Torrent, message: PeerMessage) -> Reaction {
    assert!(peer.accepts_peer_message(torrent, &message));
    peer.handle_peer_message_if_accepted(torrent, message).unwrap()
}

fn tell(peer: &mut Peer, torrent: &mut Torrent, message: ClientMessage) -> Reaction {
    assert!(peer.accepts_client_message(torrent, message));
    peer.handle_client_message(torrent, message)
}

#[test]
fn new_peers_choke_each_other() {
    let torrent = torrent();
    let peer = Peer::new(address(1), &torrent);
    assert!(peer.am_choking && peer.peer_choking);
    assert!(!peer.am_interested && !peer.peer_interested);
    assert_eq!(peer.piece_availability, vec![false, false]);
    assert!(peer.requested_blocks.is_empty());
    assert_eq!(peer.address, address(1));
}

#[test]
fn greeting_is_the_bitfield() {
    let mut torrent = torrent();
    torrent.set_downloaded(vec![false, true]);
    assert_eq!(Peer::greeting(&torrent).as_bytes(), vec![0, 0, 0, 2, 5, 0b0100_0000]);
}

#[test]
fn handshake_has_the_name_of_the_protocol() {
    let mut expected: Vec<u8> = vec![19];
    expected.extend(b"BitTorrent protocol");
    expected.extend([0; 8]);
    expected.extend([7; 20]);
    expected.extend([9; 20]);
    assert_eq!(Peer::handshake_message(&[7; 20], &[9; 20]), expected);
    assert_eq!(expected.len(), 68);
}

#[test]
fn handshakes_are_checked() {
    let torrent = torrent();
    let mut peer = Peer::new(address(1), &torrent);
    let mut bytes = Peer::handshake_message(&[7; 20], &[9; 20]);
    bytes[25] = 0xff;
    assert!(Peer::check_handshake(&bytes, &[7; 20]));
    assert!(!Peer::check_handshake(&bytes, &[8; 20]));
    assert!(!Peer::check_handshake(&bytes[..67], &[7; 20]));
    peer.receive_handshake(&bytes, &[7; 20]);
    assert_eq!(peer.peer_id, Some([9; 20]));
    bytes[3] = b'x';
    assert!(!Peer::check_handshake(&bytes, &[7; 20]));
    bytes[3] = b't';
    bytes[0] = 18;
    assert!(!Peer::check_handshake(&bytes, &[7; 20]));
}

#[test]
fn bitfield_makes_interesting() {
    let mut torrent = torrent();
    let mut peer = Peer::new(address(1), &torrent);
    let mut bits = vec![false; 8];
    bits[0] = true;
    let reaction = handle(&mut peer, &mut torrent, PeerMessage::Bitfield(bits));
    assert_eq!(peer.piece_availability, vec![true, false]);
    assert!(peer.am_interested);
    assert_eq!(sent(&reaction), vec![PeerMessage::Interested.as_bytes()]);
    assert!(reaction.ask.is_empty());
    assert!(matches!(reaction.next, Next::GoOn));
    let reaction = handle(&mut peer, &mut torrent, PeerMessage::Bitfield(vec![false; 2]));
    assert_eq!(sent(&reaction), vec![PeerMessage::NotInterested.as_bytes()]);
    assert!(!peer.accepts_peer_message(&torrent, &PeerMessage::Bitfield(vec![true])));
}

#[test]
fn bitfield_of_another_torrent_disconnects() {
    let mut torrent = torrent();
    let mut peer = Peer::new(address(1), &torrent);
    peer.piece_availability = vec![false; 3];
    let reaction = handle(&mut peer, &mut torrent, PeerMessage::Bitfield(vec![true; 8]));
    assert!(matches!(reaction.next, Next::Disconnect));
    assert_eq!(peer.piece_availability, vec![false; 3]);
}

#[test]
fn have_makes_interesting() {
    let mut torrent = torrent();
    let mut peer = Peer::new(address(1), &torrent);
    peer.peer_choking = false;
    let reaction = handle(&mut peer, &mut torrent, PeerMessage::Have(0));
    assert_eq!(peer.piece_availability, vec![true, false]);
    assert_eq!(sent(&reaction), vec![PeerMessage::Interested.as_bytes()]);
    assert_eq!(reaction.ask, vec![first(0), first(1)]);
    assert_eq!(torrent.blocks_to_download, vec![first(2)]);
    let reaction = handle(&mut peer, &mut torrent, PeerMessage::Have(1));
    assert!(reaction.send.is_empty() && reaction.ask.is_empty());
    assert!(!peer.accepts_peer_message(&torrent, &PeerMessage::Have(2)));
}

#[test]
fn unchoked_client_asks_for_blocks() {
    let mut torrent = torrent();
    let mut peer = Peer::new(address(1), &torrent);
    peer.piece_availability = vec![true, true];
    let reaction = handle(&mut peer, &mut torrent, PeerMessage::Unchoke);
    assert!(!peer.peer_choking);
    assert_eq!(reaction.ask, vec![first(0), first(1)]);
    assert_eq!(peer.requested_blocks, vec![first(0), first(1)]);
    assert_eq!(torrent.blocks_to_download, vec![first(2)]);
    let reaction = tell(&mut peer, &mut torrent, ClientMessage::UpdatedJobQueue);
    assert!(reaction.ask.is_empty());
    handle(&mut peer, &mut torrent, PeerMessage::Choke);
    assert!(peer.peer_choking);
    peer.requested_blocks.clear();
    let reaction = tell(&mut peer, &mut torrent, ClientMessage::UpdatedJobQueue);
    assert!(reaction.ask.is_empty());
    assert_eq!(peer.try_update_job_queue(&mut torrent.blocks_to_download), vec![]);
}

#[test]
fn blocks_of_unknown_pieces_cannot_be_asked_for() {
    let mut torrent = torrent();
    let mut peer = Peer::new(address(1), &torrent);
    peer.peer_choking = false;
    torrent.blocks_to_download = vec![info(2, 0, 1)];
    assert!(!peer.accepts_client_message(&torrent, ClientMessage::UpdatedJobQueue));
    assert!(!peer.accepts_peer_message(&torrent, &PeerMessage::Unchoke));
    peer.peer_choking = true;
    assert!(peer.accepts_client_message(&torrent, ClientMessage::UpdatedJobQueue));
}

#[test]
fn interest_of_the_peer_is_noted() {
    let mut torrent = torrent();
    let mut peer = Peer::new(address(1), &torrent);
    let reaction = handle(&mut peer, &mut torrent, PeerMessage::Interested);
    assert!(peer.peer_interested);
    assert!(matches!(reaction.next, Next::Unchoke));
    let reaction = handle(&mut peer, &mut torrent, PeerMessage::NotInterested);
    assert!(!peer.peer_interested);
    assert!(reaction.send.is_empty());
    let reaction = handle(&mut peer, &mut torrent, PeerMessage::Cancel(first(0)));
    assert!(matches!(reaction.next, Next::GoOn));
}

#[test]
fn choked_peers_get_nothing() {
    let mut torrent = torrent();
    let mut peer = Peer::new(address(1), &torrent);
    let reaction = handle(&mut peer, &mut torrent, PeerMessage::Request(first(0)));
    assert!(matches!(reaction.next, Next::GoOn));
    let reaction = handle(&mut peer, &mut torrent, PeerMessage::Request(info(0, 0, u32::MAX)));
    assert!(matches!(reaction.next, Next::GoOn));
}

#[test]
fn unchoked_peers_get_blocks() {
    let mut torrent = torrent();
    let mut peer = Peer::new(address(1), &torrent);
    peer.am_choking = false;
    let reaction = handle(&mut peer, &mut torrent, PeerMessage::Request(info(1, 2, 131072)));
    assert!(matches!(reaction.next, Next::Upload(asked) if asked == info(1, 2, 131072)));
    let message = peer.upload(info(1, 2, 3), vec![7, 8, 9]);
    assert_eq!(
        message.as_bytes(),
        vec![0, 0, 0, 12, 7, 0, 0, 0, 1, 0, 0, 0, 2, 7, 8, 9]
    );
    assert_eq!(peer.uploaded_to, 3);
    let reaction = handle(&mut peer, &mut torrent, PeerMessage::Request(info(1, 2, 131073)));
    assert!(matches!(reaction.next, Next::Disconnect));
}

#[test]
fn only_requested_blocks_are_taken() {
    let mut torrent = torrent();
    let mut peer = Peer::new(address(1), &torrent);
    let reaction = handle(&mut peer, &mut torrent, PeerMessage::Piece(block(first(0))));
    assert!(matches!(reaction.next, Next::GoOn));
    assert_eq!(peer.downloaded_from, 0);
    assert!(torrent.downloading_piece.iter().all(|b| b.is_none()));
}

#[test]
fn whole_conversation() {
    let mut torrent = torrent();
    let mut peer = Peer::new(address(1), &torrent);
    handle(&mut peer, &mut torrent, PeerMessage::Bitfield(vec![true; 8]));
    let reaction = handle(&mut peer, &mut torrent, PeerMessage::Unchoke);
    assert_eq!(reaction.ask, vec![first(0), first(1)]);
    let reaction = handle(&mut peer, &mut torrent, PeerMessage::Piece(block(first(1))));
    assert!(matches!(reaction.next, Next::Downloaded(PieceStep::Unfinished)));
    assert_eq!(reaction.ask, vec![first(2)]);
    assert_eq!(peer.requested_blocks, vec![first(0), first(2)]);
    handle(&mut peer, &mut torrent, PeerMessage::Piece(block(first(0))));
    let reaction = handle(&mut peer, &mut torrent, PeerMessage::Piece(block(first(2))));
    match reaction.next {
        Next::Downloaded(PieceStep::Good { index, finished, .. }) => {
            assert_eq!((index, finished), (0, false))
        }
        _ => panic!("not a good piece"),
    }
    assert_eq!(reaction.ask, vec![info(1, 0, 16384), info(1, 16384, 14464)]);
    assert_eq!(peer.downloaded_from, 49152);
    handle(&mut peer, &mut torrent, PeerMessage::Piece(block(info(1, 0, 16384))));
    let reaction =
        handle(&mut peer, &mut torrent, PeerMessage::Piece(block(info(1, 16384, 14464))));
    match reaction.next {
        Next::Downloaded(PieceStep::Good { index, finished, .. }) => {
            assert_eq!((index, finished), (1, true))
        }
        _ => panic!("not a good piece"),
    }
    assert!(reaction.ask.is_empty());
    assert!(peer.requested_blocks.is_empty());
    let reaction = tell(&mut peer, &mut torrent, ClientMessage::PieceDownloaded(1));
    assert_eq!(
        sent(&reaction),
        vec![PeerMessage::Have(1).as_bytes(), PeerMessage::NotInterested.as_bytes()]
    );
}

#[test]
fn every_block_is_in_one_place() {
    let mut torrent = torrent();
    let mut fast = Peer::new(address(1), &torrent);
    let mut slow = Peer::new(address(2), &torrent);
    for peer in [&mut fast, &mut slow] {
        handle(peer, &mut torrent, PeerMessage::Bitfield(vec![true; 8]));
        handle(peer, &mut torrent, PeerMessage::Unchoke);
    }
    assert_eq!(fast.requested_blocks, vec![first(0), first(1)]);
    assert_eq!(slow.requested_blocks, vec![first(2)]);
    assert!(torrent.blocks_to_download.is_empty());
    handle(&mut fast, &mut torrent, PeerMessage::Piece(block(first(0))));
    slow.request_timed_out(&mut torrent, first(2));
    assert_eq!(torrent.blocks_to_download, vec![first(2)]);
    let reaction = tell(&mut fast, &mut torrent, ClientMessage::UpdatedJobQueue);
    assert_eq!(reaction.ask, vec![first(2)]);
    assert!(torrent.blocks_to_download.is_empty());
    let late = handle(&mut slow, &mut torrent, PeerMessage::Piece(block(first(2))));
    assert!(matches!(late.next, Next::GoOn));
    assert_eq!(fast.requested_blocks, vec![first(1), first(2)]);
}

#[test]
fn messages_that_do_not_fit_change_nothing() {
    let mut torrent = torrent();
    let mut peer = Peer::new(address(1), &torrent);
    let reaction = peer.handle_peer_message_if_accepted(&mut torrent, PeerMessage::Have(2));
    assert!(reaction.is_none());
    assert_eq!(peer.piece_availability, vec![false, false]);
    let reaction = peer.handle_peer_message(&mut torrent, PeerMessage::Have(1));
    assert_eq!(peer.piece_availability, vec![false, true]);
    assert_eq!(sent(&reaction), vec![PeerMessage::Interested.as_bytes()]);
}

#[test]
fn last_block_of_a_bad_piece_is_taken() {
    let mut torrent = torrent();
    let mut peer = Peer::new(address(1), &torrent);
    torrent.metainfo.pieces = vec![[0; 20]; 3];
    torrent.downloaded_pieces = vec![true, false, false];
    torrent.blocks_to_download.clear();
    torrent.choose_first_piece();
    torrent.downloaded_pieces = vec![true, false, false];
    peer.piece_availability = vec![true, true, true];
    handle(&mut peer, &mut torrent, PeerMessage::Unchoke);
    handle(&mut peer, &mut torrent, PeerMessage::Piece(block(info(1, 0, 16384))));
    let last = block(info(1, 16384, 14464));
    let good = sha1_hash(&data()[49152..]);
    torrent.metainfo.pieces[1] = good;
    assert!(!peer.accepts_peer_message(&torrent, &PeerMessage::Piece(block(last.info))));
    torrent.metainfo.pieces[1] = [0; 20];
    let reaction = handle(&mut peer, &mut torrent, PeerMessage::Piece(last));
    assert!(matches!(reaction.next, Next::Downloaded(PieceStep::Bad(1))));
    assert_eq!(reaction.ask, vec![info(1, 0, 16384), info(1, 16384, 14464)]);
}

#[test]
fn requests_time_out() {
    let mut torrent = torrent();
    let mut peer = Peer::new(address(1), &torrent);
    peer.requested_blocks = vec![first(0), first(1)];
    torrent.blocks_to_download = vec![first(2)];
    let notices = peer.request_timed_out(&mut torrent, first(0));
    assert_eq!(
        notices,
        vec![
            Notice { peer: 0, message: ClientMessage::UpdatedJobQueue },
            Notice { peer: 1, message: ClientMessage::UpdatedJobQueue },
        ]
    );
    assert_eq!(peer.requested_blocks, vec![first(1)]);
    assert_eq!(torrent.blocks_to_download, vec![first(2), first(0)]);
    assert_eq!(peer.request_timed_out(&mut torrent, first(0)), vec![]);
    assert_eq!(torrent.blocks_to_download, vec![first(2), first(0)]);
}

#[test]
fn choking_is_told_once() {
    let mut torrent = torrent();
    let mut peer = Peer::new(address(1), &torrent);
    assert!(tell(&mut peer, &mut torrent, ClientMessage::Choke).send.is_empty());
    let reaction = tell(&mut peer, &mut torrent, ClientMessage::Unchoke);
    assert_eq!(sent(&reaction), vec![PeerMessage::Unchoke.as_bytes()]);
    assert!(!peer.am_choking);
    assert!(tell(&mut peer, &mut torrent, ClientMessage::Unchoke).send.is_empty());
    let reaction = tell(&mut peer, &mut torrent, ClientMessage::Choke);
    assert_eq!(sent(&reaction), vec![PeerMessage::Choke.as_bytes()]);
    assert!(tell(&mut peer, &mut torrent, ClientMessage::Choke).send.is_empty());
}

#[test]
fn requests_are_sent() {
    let mut torrent = torrent();
    let mut peer = Peer::new(address(1), &torrent);
    let reaction = tell(&mut peer, &mut torrent, ClientMessage::RequestPiece(first(1)));
    assert_eq!(sent(&reaction), vec![PeerMessage::Request(first(1)).as_bytes()]);
}

#[test]
fn rates_of_a_peer() {
    let torrent = torrent();
    let mut peer = Peer::new(address(1), &torrent);
    peer.downloaded_from = 300;
    peer.uploaded_to = 90;
    peer.tick();
    assert_eq!((peer.downloaded_from_rate, peer.uploaded_to_rate), (300, 90));
    peer.downloaded_from = 400;
    peer.tick();
    assert_eq!(peer.rolling_download, vec![100, 300]);
    assert_eq!((peer.downloaded_from_rate, peer.uploaded_to_rate), (200, 45));
}

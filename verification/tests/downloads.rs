use bittorrent::address::{Ipv4, PeerAddress};
use bittorrent::bytes::sha1_hash;
use bittorrent::client_message::{ClientMessage, Notice};
use bittorrent::files::FileSection;
use bittorrent::metainfo::{File, MetaInfo};
use bittorrent::peer_message::{Block, BlockInfo};
use bittorrent::torrent::{PieceStep, Torrent};

fn address(d: u8) -> PeerAddress {
    PeerAddress { ip: Ipv4 { a: 10, b: 0, c: 0, d }, port: 1000 }
}

fn data() -> Vec<u8> {
    (0..40000u32).map(|i| (i % 251) as u8).collect()
}

fn torrent() -> Torrent {
    let data = data();
    let metainfo = MetaInfo {
        announce: "http://t.org/a".to_string(),
        announce_list: None,
        creation_date: None,
        comment: None,
        created_by: None,
        piece_length: 32768,
        pieces: vec![sha1_hash(&data[..32768]), sha1_hash(&data[32768..])],
        files: vec![
            File { length: 30000, path: vec!["d".to_string(), "a".to_string()] },
            File { length: 10000, path: vec!["d".to_string(), "b".to_string()] },
        ],
        info_hash: [7; 20],
    };
    Torrent::with_peer_id(metainfo, 6969, [b'x'; 20])
}

fn info(index: u32, begin: u32, length: u32) -> BlockInfo {
    BlockInfo { index, begin, length }
}

fn block(index: u32, begin: u32, length: u32) -> Block {
    let from = (index * 32768 + begin) as usize;
    Block { info: info(index, begin, length), bytes: data()[from..from + length as usize].to_vec() }
}

#[test]
fn new_torrents_have_nothing() {
    let torrent = torrent();
    assert_eq!(torrent.downloaded_pieces, vec![false, false]);
    assert_eq!(torrent.files[1].offset, 30000);
    assert_eq!(torrent.bytes_left(), 65536);
    assert_eq!(torrent.bytes_left_if_it_fits(), Some(65536));
    assert!(torrent.peers.is_empty());
    assert!(torrent.blocks_to_download.is_empty());
    assert_eq!(torrent.downloading_piece_index, None);
    assert_eq!(torrent.optimistic_unchoke_peer, None);
}

#[test]
fn first_piece_is_chosen() {
    let mut torrent = torrent();
    assert!(torrent.can_choose_first_piece());
    assert_eq!(torrent.choose_first_piece(), Some(0));
    assert_eq!(torrent.downloading_piece_index, Some(0));
    assert_eq!(torrent.downloading_piece.len(), 2);
    assert_eq!(torrent.blocks_to_download, vec![info(0, 0, 16384), info(0, 16384, 16384)]);
}

#[test]
fn no_piece_is_chosen_when_all_are_there() {
    let mut torrent = torrent();
    torrent.set_downloaded(vec![true, true]);
    assert_eq!(torrent.choose_first_piece(), None);
    assert!(torrent.blocks_to_download.is_empty());
    assert_eq!(torrent.bytes_left(), 0);
}

#[test]
fn last_piece_is_shorter() {
    let mut torrent = torrent();
    torrent.set_downloaded(vec![true, false]);
    assert_eq!(torrent.choose_first_piece(), Some(1));
    assert_eq!(torrent.blocks_to_download, vec![info(1, 0, 7232)]);
}

#[test]
fn pieces_that_cannot_begin() {
    let torrent = torrent();
    assert!(torrent.can_start_piece(0));
    assert!(torrent.can_start_piece(1));
    assert!(!torrent.can_start_piece(2));
    assert!(!torrent.can_start_piece(usize::MAX));
}

#[test]
fn whole_download() {
    let mut torrent = torrent();
    torrent.set_peers(&vec![address(1), address(2)]);
    torrent.choose_first_piece();
    torrent.blocks_to_download.clear();
    assert!(matches!(torrent.block_downloaded(block(0, 16384, 16384)), PieceStep::Unfinished));
    assert!(torrent.accepts_block(&block(0, 0, 16384)));
    match torrent.block_downloaded(block(0, 0, 16384)) {
        PieceStep::Good { index, writes, notices, finished } => {
            assert_eq!(index, 0);
            assert!(!finished);
            assert_eq!(writes.len(), 2);
            assert_eq!((writes[0].file, writes[0].offset), (0, 0));
            assert_eq!(writes[0].bytes, data()[..30000].to_vec());
            assert_eq!((writes[1].file, writes[1].offset), (1, 0));
            assert_eq!(writes[1].bytes, data()[30000..32768].to_vec());
            assert_eq!(
                notices,
                vec![
                    Notice { peer: 0, message: ClientMessage::PieceDownloaded(0) },
                    Notice { peer: 1, message: ClientMessage::PieceDownloaded(0) },
                    Notice { peer: 0, message: ClientMessage::UpdatedJobQueue },
                    Notice { peer: 1, message: ClientMessage::UpdatedJobQueue },
                ]
            );
        }
        _ => panic!("not a good piece"),
    }
    assert_eq!(torrent.downloaded_pieces, vec![true, false]);
    assert_eq!(torrent.downloading_piece_index, Some(1));
    assert_eq!(torrent.blocks_to_download, vec![info(1, 0, 7232)]);
    assert_eq!(torrent.bytes_left(), 32768);
    torrent.blocks_to_download.clear();
    match torrent.block_downloaded(block(1, 0, 7232)) {
        PieceStep::Good { index, finished, .. } => assert_eq!((index, finished), (1, true)),
        _ => panic!("not a good piece"),
    }
    assert_eq!(torrent.downloaded_pieces, vec![true, true]);
    assert_eq!(torrent.downloading_piece_index, None);
    assert_eq!(torrent.bytes_left(), 0);
}

#[test]
fn bad_pieces_are_fetched_again() {
    let mut torrent = torrent();
    torrent.choose_first_piece();
    torrent.blocks_to_download.clear();
    torrent.block_downloaded(block(0, 0, 16384));
    let mut wrong = block(0, 16384, 16384);
    wrong.bytes[5] ^= 1;
    assert!(matches!(torrent.block_downloaded(wrong), PieceStep::Bad(0)));
    assert_eq!(torrent.downloaded_pieces, vec![false, false]);
    assert_eq!(torrent.downloading_piece_index, Some(0));
    assert!(torrent.downloading_piece.iter().all(|b| b.is_none()));
    assert_eq!(torrent.blocks_to_download, vec![info(0, 0, 16384), info(0, 16384, 16384)]);
}

#[test]
fn digest_decides_what_becomes_of_a_piece() {
    let mut torrent = torrent();
    torrent.choose_first_piece();
    torrent.blocks_to_download.clear();
    torrent.block_downloaded(block(0, 0, 16384));
    torrent.downloading_piece[1] = Some(block(0, 16384, 16384));
    assert!(matches!(torrent.piece_finished(&vec![1, 2, 3], &[0; 20]), PieceStep::Bad(0)));
    torrent.blocks_to_download.clear();
    torrent.downloading_piece = vec![Some(block(0, 0, 16384)), Some(block(0, 16384, 16384))];
    let digest = torrent.metainfo.pieces[0];
    match torrent.piece_finished(&vec![1, 2, 3], &digest) {
        PieceStep::Good { index, writes, notices, finished } => {
            assert_eq!((index, finished), (0, false));
            assert_eq!(writes.len(), 1);
            assert_eq!(writes[0].bytes, vec![1, 2, 3]);
            assert!(notices.is_empty());
        }
        _ => panic!("not a good piece"),
    }
}

#[test]
fn bad_pieces_need_no_piece_behind_them() {
    let mut torrent = torrent();
    torrent.metainfo.pieces.push([0; 20]);
    torrent.downloaded_pieces = vec![true, false, false];
    torrent.choose_first_piece();
    torrent.blocks_to_download.clear();
    assert!(!torrent.can_start_piece(2));
    assert!(torrent.block_downloaded_if_accepted(block(1, 0, 7232)).is_none());
    assert!(torrent.downloading_piece[0].is_none());
    let mut wrong = block(1, 0, 7232);
    wrong.bytes[5] ^= 1;
    assert_eq!(torrent.bytes_with(&wrong), wrong.bytes);
    assert!(matches!(torrent.block_downloaded_if_accepted(wrong), Some(PieceStep::Bad(1))));
    assert_eq!(torrent.blocks_to_download, vec![info(1, 0, 7232)]);
    assert!(torrent.downloading_piece[0].is_none());
    assert_eq!(torrent.downloaded_pieces, vec![true, false, false]);
}

#[test]
fn incomplete_pieces_stay() {
    let mut torrent = torrent();
    assert!(matches!(torrent.try_choose_new_piece(), PieceStep::Unfinished));
    torrent.choose_first_piece();
    assert!(matches!(torrent.try_choose_new_piece(), PieceStep::Unfinished));
    assert_eq!(torrent.downloading_piece_index, Some(0));
}

#[test]
fn blocks_without_a_place_are_not_accepted() {
    let mut torrent = torrent();
    torrent.choose_first_piece();
    assert!(torrent.accepts_block(&block(0, 0, 16384)));
    let far = Block { info: info(0, 32768, 1), bytes: vec![0] };
    assert!(!torrent.accepts_block(&far));
    torrent.block_downloaded(block(0, 0, 16384));
    assert!(!torrent.accepts_block(&block(0, 16384, 16384)));
}

#[test]
fn blocks_are_found_in_the_files() {
    let torrent = torrent();
    assert_eq!(
        torrent.read_block(&info(0, 16384, 16384)),
        vec![
            FileSection { file: 0, offset: 16384, length: 13616 },
            FileSection { file: 1, offset: 0, length: 2768 },
        ]
    );
    assert_eq!(
        torrent.piece_sections(1),
        vec![FileSection { file: 1, offset: 2768, length: 7232 }]
    );
    assert!(torrent.can_read_block(&info(1, 0, 7232)));
    assert!(!torrent.can_read_block(&info(u32::MAX, 0, 1)));
}

#[test]
fn checked_pieces() {
    let torrent = torrent();
    let first = data()[..32768].to_vec();
    let second = data()[32768..].to_vec();
    assert!(torrent.check_piece_hash(0, &first));
    assert!(!torrent.check_piece_hash(1, &first));
    assert_eq!(torrent.check_whole_hash(&vec![first.clone(), second]), vec![true, true]);
    assert_eq!(torrent.check_whole_hash(&vec![vec![0; 32768], first]), vec![false, false]);
}

#[test]
fn written_pieces_pass_the_check() {
    let torrent = torrent();
    let mut disk = vec![vec![0u8; 30000], vec![0u8; 10000]];
    for (index, range) in [(0u32, 0..32768usize), (1, 32768..40000)] {
        for write in torrent.write_piece(index, &data()[range.clone()].to_vec()) {
            let at = write.offset as usize;
            disk[write.file][at..at + write.bytes.len()].copy_from_slice(&write.bytes);
        }
    }
    for index in 0..2 {
        let held: Vec<u8> = torrent
            .piece_sections(index)
            .iter()
            .flat_map(|p| {
                disk[p.file][p.offset as usize..(p.offset + p.length) as usize].to_vec()
            })
            .collect();
        assert!(torrent.check_piece_hash(index, &held));
    }
}

#[test]
fn peers_come_and_go() {
    let mut torrent = torrent();
    let own = PeerAddress { ip: Ipv4 { a: 127, b: 0, c: 0, d: 1 }, port: 6969 };
    torrent.set_peers(&vec![address(1), own, address(2)]);
    assert_eq!(torrent.peers, vec![address(1), address(2)]);
    torrent.add_peer(address(1));
    torrent.disconnect_peer(address(1));
    assert_eq!(torrent.peers, vec![address(2)]);
    assert_eq!(
        torrent.alert_peers_updated_job_queue(),
        vec![Notice { peer: 0, message: ClientMessage::UpdatedJobQueue }]
    );
}

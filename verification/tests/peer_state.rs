use bittorrent::constants::MAX_ALLOWED_BLOCK_SIZE;
use bittorrent::metainfo::MetaInfo;
use bittorrent::peer_info::PeerInfo;
use bittorrent::peer_message::BlockInfo;
use bittorrent::rolling::{record, rolling_average};

fn metainfo(pieces: usize) -> MetaInfo {
    MetaInfo {
        announce: String::new(),
        announce_list: None,
        creation_date: None,
        comment: None,
        created_by: None,
        piece_length: 1,
        pieces: vec![[0; 20]; pieces],
        files: vec![],
        info_hash: [0; 20],
    }
}

fn job(index: u32, begin: u32) -> BlockInfo {
    BlockInfo { index, begin, length: 1 }
}

#[test]
fn unknown_peer() {
    let info = PeerInfo::new(&metainfo(3));
    assert!(info.am_choking && info.peer_choking && info.in_slow_start);
    assert!(!info.am_interested && !info.peer_interested);
    assert_eq!(info.queue_size, 2);
    assert_eq!(info.piece_availability, vec![false; 3]);
    assert_eq!((info.download_rate(), info.upload_rate()), (0, 0));
    assert_eq!(MAX_ALLOWED_BLOCK_SIZE, 131072);
}

#[test]
fn peer_id_is_noted() {
    let mut info = PeerInfo::new(&metainfo(0));
    info.add_peer_id([3; 20]);
    assert_eq!(info.peer_id, Some([3; 20]));
}

#[test]
fn jobs_are_handed_out() {
    let mut info = PeerInfo::new(&metainfo(3));
    let mut jobs = vec![job(0, 0), job(1, 0), job(0, 1), job(1, 1), job(1, 2)];
    assert!(info.try_get_new_jobs(&mut jobs).is_none());
    info.peer_choking = false;
    info.piece_availability = vec![false, true, false];
    assert_eq!(info.try_get_new_jobs(&mut jobs), Some(vec![job(1, 0), job(1, 1)]));
    assert_eq!(jobs, vec![job(0, 0), job(0, 1), job(1, 2)]);
    assert_eq!(info.requested_blocks, vec![job(1, 0), job(1, 1)]);
    assert!(info.try_get_new_jobs(&mut jobs).is_none());
    info.requested_blocks.clear();
    assert!(info.try_get_new_jobs(&mut vec![]).is_none());
    let mut unavailable = vec![job(0, 0)];
    assert_eq!(info.try_get_new_jobs(&mut unavailable), Some(vec![]));
    assert_eq!(unavailable, vec![job(0, 0)]);
}

#[test]
fn jobs_are_given_back() {
    let mut info = PeerInfo::new(&metainfo(3));
    info.requested_blocks = vec![job(1, 0), job(2, 0), job(1, 0)];
    let mut jobs = vec![job(0, 0)];
    assert!(info.try_remove_job(job(1, 0), &mut jobs));
    assert_eq!(info.requested_blocks, vec![job(2, 0), job(1, 0)]);
    assert_eq!(jobs, vec![job(0, 0), job(1, 0)]);
    assert!(!info.try_remove_job(job(9, 0), &mut jobs));
    assert_eq!(jobs, vec![job(0, 0), job(1, 0)]);
}

#[test]
fn peers_with_missing_pieces_are_interesting() {
    let mut info = PeerInfo::new(&metainfo(3));
    info.piece_availability = vec![true, false, true];
    assert!(info.check_if_interested(&[false, true, false]));
    assert!(info.check_if_interested(&[true, false, false]));
    assert!(!info.check_if_interested(&[true, true, true]));
    assert!(!info.check_if_interested(&[true, false, true]));
}

#[test]
fn rates_are_averages() {
    let mut info = PeerInfo::new(&metainfo(0));
    info.downloaded_chunk(1000);
    info.uploaded_chunk(301);
    assert_eq!(info.queue_size, 3);
    info.tick();
    assert_eq!(info.rolling_download, vec![1000, 0]);
    assert_eq!((info.download_rate(), info.upload_rate()), (500, 150));
    info.tick();
    assert_eq!(info.rolling_download, vec![0, 1000, 0]);
    assert_eq!(info.download_rate(), 333);
    assert!(info.download_rate() <= info.total_downloaded_from);
    assert_eq!(info.queue_size, 3);
}

#[test]
fn rates_are_averages_of_the_newest_seconds() {
    let mut info = PeerInfo::new(&metainfo(0));
    for second in 1..=25u32 {
        info.downloaded_chunk(second);
        info.downloaded_chunk(second);
        info.uploaded_chunk(3);
        info.tick();
        let first = if second > 20 { second - 19 } else { 1 };
        let sum: u32 = (first..=second).map(|s| 2 * s).sum();
        assert_eq!(info.download_rate(), sum / (second + 1).min(20));
        assert_eq!(info.rolling_download.len(), info.rolling_upload.len());
    }
    info.downloaded_chunk(1000);
    assert_eq!((info.download_rate(), info.upload_rate()), (31, 3));
}

#[test]
fn slow_start_ends_with_a_bad_second() {
    let mut info = PeerInfo::new(&metainfo(0));
    info.downloaded_chunk(100_000);
    info.tick();
    assert!(info.in_slow_start);
    info.tick();
    assert!(!info.in_slow_start);
    assert_eq!(info.download_rate(), 33333);
    info.update_queue_size();
    assert_eq!(info.queue_size, 2);
    info.tick();
    assert_eq!(info.queue_size, 1);
}

#[test]
fn windows_have_twenty_seconds() {
    let mut amounts = vec![];
    for i in 1..=25 {
        record(&mut amounts, i);
    }
    assert_eq!(amounts.len(), 20);
    assert_eq!((amounts[0], amounts[19]), (25, 6));
    assert_eq!(rolling_average(&amounts), 15);
}

use bittorrent::bencode::Bencode;
use bittorrent::bytes::sha1_hash;
use bittorrent::manager::TorrentManager;
use bittorrent::metainfo::{MetaInfo, MetaInfoError};
use bittorrent::torrent::{check_size, Torrent};

fn single_file(length: &str) -> Vec<u8> {
    let mut bytes = b"d8:announce14:http://t.org/a4:infod6:length".to_vec();
    bytes.extend(length.as_bytes());
    bytes.extend(b"4:name5:a.txt12:piece lengthi16384e6:pieces45:");
    bytes.extend([1u8; 20]);
    bytes.extend([2u8; 20]);
    bytes.extend([3u8; 5]);
    bytes.extend(b"ee");
    bytes
}

fn error_of(bytes: &[u8]) -> String {
    match MetaInfo::from_bytes(bytes) {
        Ok(_) => panic!("a torrent file"),
        Err(e) => e.message(),
    }
}

#[test]
fn single_file_torrent() {
    let bytes = single_file("i20000e");
    let metainfo = MetaInfo::from_bytes(&bytes).unwrap();
    assert_eq!(metainfo.announce, "http://t.org/a");
    assert!(metainfo.announce_list.is_none());
    assert_eq!(metainfo.creation_date, None);
    assert_eq!(metainfo.piece_length, 16384);
    assert_eq!(metainfo.pieces, vec![[1u8; 20], [2u8; 20]]);
    assert_eq!(metainfo.files.len(), 1);
    assert_eq!(metainfo.files[0].length, 20000);
    assert_eq!(metainfo.files[0].path, vec!["a.txt".to_string()]);
    let info = bytes.windows(6).position(|w| w == b"4:info").unwrap() + 6;
    assert_eq!(metainfo.info_hash, sha1_hash(&bytes[info..bytes.len() - 1]));
}

#[test]
fn torrent_with_several_files() {
    let bytes = b"d8:announce1:a13:announce-listl1:b1:ce7:comment2:hi10:created by2:me13:creation \
datei7e4:infod5:filesld6:lengthi3e4:pathl1:x1:yeed6:lengthi4e4:pathl1:zeee4:name3:dir12:piece \
lengthi8e6:pieces0:ee";
    let metainfo = MetaInfo::from_bytes(bytes).unwrap();
    assert_eq!(metainfo.announce_list, Some(vec!["b".to_string(), "c".to_string()]));
    assert_eq!(metainfo.comment, Some("hi".to_string()));
    assert_eq!(metainfo.created_by, Some("me".to_string()));
    assert_eq!(metainfo.creation_date, Some(7));
    assert_eq!(metainfo.files[0].path, vec!["dir", "x", "y"]);
    assert_eq!(metainfo.files[1].path, vec!["dir", "z"]);
    assert_eq!(metainfo.files[1].length, 4);
    assert!(metainfo.files.iter().all(|f| !f.path.is_empty()));
}

#[test]
fn what_is_wrong_with_a_torrent_file() {
    assert_eq!(error_of(b"i1e"), "Bad metainfo file");
    assert_eq!(error_of(b"de"), "Announce missing");
    assert_eq!(error_of(b"d8:announce1:ae"), "Info missing");
    assert_eq!(error_of(b"d8:announce1:a4:infoi1ee"), "Info missing");
    assert_eq!(
        error_of(b"d8:announce1:a4:infodee"),
        "Piece length missing or not a positive integer"
    );
    assert_eq!(
        error_of(b"d8:announce1:a4:infod12:piece lengthi-1eee"),
        "Piece length missing or not a positive integer"
    );
    assert_eq!(error_of(b"d8:announce1:a4:infod12:piece lengthi8eee"), "Pieces missing");
    assert_eq!(error_of(b"d8:announce1:a4:infod12:piece lengthi8e6:pieces0:ee"), "Name missing");
    assert_eq!(
        error_of(b"d8:announce1:a4:infod4:name1:n12:piece lengthi8e6:pieces0:ee"),
        "Files (and length) missing"
    );
    assert_eq!(
        error_of(b"d8:announce1:a4:infod6:lengthi-5e4:name1:n12:piece lengthi8e6:pieces0:ee"),
        "Length is negative"
    );
    assert_eq!(
        error_of(b"d8:announce1:a4:infod5:filesli1ee4:name1:n12:piece lengthi8e6:pieces0:ee"),
        "File dictionary is malformed"
    );
}

#[test]
fn what_is_not_bencoded_is_no_torrent_file() {
    let result = MetaInfo::from_bytes(b"nonsense");
    assert!(matches!(result, Err(MetaInfoError::NotBencode(_))));
}

#[test]
fn decoded_values() {
    let value = Bencode::decode(b"d1:ai5e1:bl1:xi-2eee").unwrap();
    let entries = value.as_dict().unwrap();
    assert_eq!(entries.len(), 2);
    assert_eq!(entries[0].key, b"a".to_vec());
    assert_eq!(entries[0].value.as_int(), Some(5));
    assert_eq!(entries[0].value.as_u32(), Some(5));
    let list = entries[1].value.as_list().unwrap();
    assert_eq!(list[0].as_str(), Some("x".to_string()));
    assert_eq!(list[0].as_bytes().unwrap(), &b"x".to_vec());
    assert_eq!(list[1].as_int(), Some(-2));
    assert_eq!(list[1].as_u32(), None);
    assert_eq!(entries[1].value.buffer(), &b"l1:xi-2ee".to_vec());
    assert!(Bencode::decode(b"i5").is_err());
}

#[test]
fn byte_strings_that_are_no_text() {
    let value = Bencode::decode(&[b'2', b':', 0xff, 0xfe]).unwrap();
    assert_eq!(value.as_bytes().unwrap(), &vec![0xff, 0xfe]);
    assert_eq!(value.as_str(), None);
}

#[test]
fn manager_adds_torrents() {
    let mut manager = TorrentManager::new();
    assert_eq!(manager.torrents.len(), 0);
    assert_eq!(manager.free_port(), 6969);
    let result = manager.add_torrent_if_it_fits(&single_file("i20000e"));
    assert!(matches!(result, Some(Ok(()))));
    assert_eq!(manager.torrents.len(), 1);
    let torrent = &manager.torrents[0];
    assert_eq!(torrent.port, 6969);
    assert_eq!(torrent.downloaded_pieces, vec![false, false]);
    assert_eq!(torrent.files[0].length, 20000);
    assert!(torrent.peer_id.iter().all(|b| b.is_ascii_alphanumeric()));
    assert!(matches!(manager.add_torrent_if_it_fits(b"de"), Some(Err(MetaInfoError::AnnounceMissing))));
    assert_eq!(manager.torrents.len(), 1);
    assert!(manager.add_torrent(&single_file("i1e")).is_ok());
    assert!(manager.torrents[1].peer_id.iter().all(|b| b.is_ascii_alphanumeric()));
    assert_eq!(manager.torrents.len(), 2);
}

#[test]
fn torrents_that_are_too_long_do_not_fit() {
    let bytes = b"d8:announce1:a4:infod5:filesld6:lengthi4294967295e4:pathl1:xeed6:lengthi1e4:pathl1\
:yeee4:name1:n12:piece lengthi8e6:pieces0:ee";
    assert!(Torrent::from_bytes_if_it_fits(bytes, 1).is_none());
    assert!(!check_size(&MetaInfo::from_bytes(bytes).unwrap()));
    let mut manager = TorrentManager::new();
    assert!(manager.add_torrent_if_it_fits(bytes).is_none());
    assert_eq!(manager.torrents.len(), 0);
    let fits = Torrent::from_bytes_if_it_fits(&single_file("i4294967295e"), 1).unwrap().unwrap();
    assert_eq!(fits.files[0].length, 4294967295);
    assert!(Torrent::from_bytes(b"i1e", 1).is_err());
}

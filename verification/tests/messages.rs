use bittorrent::message_reader::PeerMessageReader;
use bittorrent::peer_message::{Block, BlockInfo, PeerMessage};

fn info(index: u32, begin: u32, length: u32) -> BlockInfo {
    BlockInfo { index, begin, length }
}

#[test]
fn messages_as_bytes() {
    assert_eq!(PeerMessage::Choke.as_bytes(), vec![0, 0, 0, 1, 0]);
    assert_eq!(PeerMessage::Unchoke.as_bytes(), vec![0, 0, 0, 1, 1]);
    assert_eq!(PeerMessage::Interested.as_bytes(), vec![0, 0, 0, 1, 2]);
    assert_eq!(PeerMessage::NotInterested.as_bytes(), vec![0, 0, 0, 1, 3]);
    assert_eq!(PeerMessage::Have(0x01020304).as_bytes(), vec![0, 0, 0, 5, 4, 1, 2, 3, 4]);
    assert_eq!(
        PeerMessage::Request(info(1, 2, 3)).as_bytes(),
        vec![0, 0, 0, 13, 6, 0, 0, 0, 1, 0, 0, 0, 2, 0, 0, 0, 3]
    );
    assert_eq!(
        PeerMessage::Cancel(info(1, 2, 3)).as_bytes(),
        vec![0, 0, 0, 13, 8, 0, 0, 0, 1, 0, 0, 0, 2, 0, 0, 0, 3]
    );
    let block = Block { info: info(1, 2, 2), bytes: vec![7, 8] };
    assert_eq!(
        PeerMessage::Piece(block).as_bytes(),
        vec![0, 0, 0, 11, 7, 0, 0, 0, 1, 0, 0, 0, 2, 7, 8]
    );
}

#[test]
fn bitfields_are_padded() {
    let bits = vec![true, false, false, false, false, false, false, true, true];
    assert_eq!(
        PeerMessage::Bitfield(bits).as_bytes(),
        vec![0, 0, 0, 3, 5, 0b1000_0001, 0b1000_0000]
    );
    assert_eq!(PeerMessage::Bitfield(vec![]).as_bytes(), vec![0, 0, 0, 1, 5]);
    match PeerMessage::from_bytes(&[5, 0b1000_0001]) {
        Some(PeerMessage::Bitfield(bits)) => {
            assert_eq!(bits, vec![true, false, false, false, false, false, false, true])
        }
        _ => panic!("not a bitfield"),
    }
}

#[test]
fn messages_from_bytes() {
    assert!(matches!(PeerMessage::from_bytes(&[0]), Some(PeerMessage::Choke)));
    assert!(matches!(PeerMessage::from_bytes(&[1, 9]), Some(PeerMessage::Unchoke)));
    assert!(matches!(PeerMessage::from_bytes(&[4, 0, 0, 1, 0]), Some(PeerMessage::Have(256))));
    match PeerMessage::from_bytes(&[7, 0, 0, 0, 1, 0, 0, 0, 2, 7, 8]) {
        Some(PeerMessage::Piece(block)) => {
            assert_eq!(block.info, info(1, 2, 2));
            assert_eq!(block.bytes, vec![7, 8]);
        }
        _ => panic!("not a piece"),
    }
}

#[test]
fn bytes_that_are_no_message() {
    assert!(PeerMessage::from_bytes(&[]).is_none());
    assert!(PeerMessage::from_bytes(&[9]).is_none());
    assert!(PeerMessage::from_bytes(&[4, 0, 0, 1]).is_none());
    assert!(PeerMessage::from_bytes(&[6, 0, 0, 0, 1, 0, 0, 0, 2, 0, 0, 0]).is_none());
    assert!(PeerMessage::from_bytes(&[7, 0, 0, 0, 1, 0, 0, 0]).is_none());
}

#[test]
fn messages_survive_the_round_trip() {
    let bytes = PeerMessage::Request(info(9, 16384, 16384)).as_bytes();
    match PeerMessage::from_bytes(&bytes[4..]) {
        Some(PeerMessage::Request(back)) => assert_eq!(back, info(9, 16384, 16384)),
        _ => panic!("not a request"),
    }
}

#[test]
fn reader_puts_chunks_together() {
    let mut reader = PeerMessageReader::new();
    let mut stream = PeerMessage::Have(5).as_bytes();
    stream.extend([0, 0, 0, 0]);
    stream.extend(PeerMessage::Choke.as_bytes());
    let mut messages = vec![];
    let mut at = 0;
    while at < stream.len() {
        let n = reader.wanted().min(2).min(stream.len() - at);
        if let Some(message) = reader.receive(&stream[at..at + n]).unwrap() {
            messages.push(message.as_bytes());
        }
        at += n;
    }
    assert_eq!(messages, vec![PeerMessage::Have(5).as_bytes(), PeerMessage::Choke.as_bytes()]);
}

fn read_in_chunks(stream: &[u8], size: usize) -> (Vec<Vec<u8>>, Vec<usize>, usize) {
    let mut reader = PeerMessageReader::new();
    let mut messages = vec![];
    let mut ends = vec![];
    let mut at = 0;
    while at < stream.len() {
        let n = reader.wanted().min(size).min(stream.len() - at);
        at += n;
        if let Some(message) = reader.receive(&stream[at - n..at]).unwrap() {
            messages.push(message.as_bytes());
            ends.push(at);
        }
    }
    (messages, ends, reader.wanted())
}

#[test]
fn cuts_make_no_difference() {
    let stream = [
        0, 0, 0, 0, 0, 0, 0, 3, 1, 8, 9, 0, 0, 0, 0, 0, 0, 0, 0, 0, 0, 0, 2, 5, 128, 0, 0, 0, 5, 4,
        0,
    ];
    let whole = read_in_chunks(&stream, 100);
    assert_eq!(
        whole.0,
        vec![vec![0, 0, 0, 1, 1], vec![0, 0, 0, 2, 5, 128]]
    );
    assert_eq!(whole.1, vec![11, 25]);
    assert_eq!(whole.2, 3);
    for size in 1..6 {
        assert_eq!(read_in_chunks(&stream, size), whole);
    }
}

#[test]
fn reader_reports_what_it_cannot_read() {
    let mut reader = PeerMessageReader::new();
    assert_eq!(reader.wanted(), 4);
    assert!(reader.receive(&[0, 0, 0, 1]).unwrap().is_none());
    assert_eq!(reader.wanted(), 1);
    match reader.receive(&[200]) {
        Err(e) => assert_eq!(e.message(), "Couldn't parse peer message"),
        Ok(_) => panic!("a message"),
    }
}

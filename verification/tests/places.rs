use bittorrent::address::{get_addresses, other_peers, remove_address, Ipv4, PeerAddress};
use bittorrent::files::{
    get_file_sections, join_parts, lay_out, spread_bytes, FileInfo, FileSection,
};
use bittorrent::metainfo::File;
use bittorrent::peer_message::BlockInfo;
use bittorrent::pieces::{count_missing, find_first_missing, push_piece_blocks};

fn files() -> Vec<FileInfo> {
    lay_out(&vec![
        File { length: 10, path: vec!["a".to_string()] },
        File { length: 0, path: vec!["b".to_string()] },
        File { length: 5, path: vec!["c".to_string()] },
    ])
}

#[test]
fn files_lie_end_to_end() {
    let files = files();
    assert_eq!(files.iter().map(|f| f.offset).collect::<Vec<u32>>(), vec![0, 10, 10]);
    assert_eq!(files[2].path, vec!["c".to_string()]);
}

#[test]
fn sections_of_a_range() {
    let parts = get_file_sections(&files(), 8, 4);
    assert_eq!(
        parts,
        vec![
            FileSection { file: 0, offset: 8, length: 2 },
            FileSection { file: 1, offset: 0, length: 0 },
            FileSection { file: 2, offset: 0, length: 2 },
        ]
    );
    assert_eq!(
        get_file_sections(&files(), 12, 100),
        vec![FileSection { file: 2, offset: 2, length: 3 }]
    );
    assert_eq!(get_file_sections(&files(), 15, 3), vec![]);
    assert_eq!(
        get_file_sections(&files(), 3, 0),
        vec![FileSection { file: 0, offset: 3, length: 0 }]
    );
}

#[test]
fn written_bytes_are_read_back() {
    let files = files();
    let mut disk = vec![vec![0u8; 10], vec![], vec![0u8; 5]];
    let parts = get_file_sections(&files, 7, 6);
    for write in spread_bytes(&parts, &vec![1, 2, 3, 4, 5, 6]) {
        let at = write.offset as usize;
        disk[write.file][at..at + write.bytes.len()].copy_from_slice(&write.bytes);
    }
    assert_eq!(disk[0], vec![0, 0, 0, 0, 0, 0, 0, 1, 2, 3]);
    assert_eq!(disk[2], vec![4, 5, 6, 0, 0]);
    let read: Vec<Vec<u8>> = get_file_sections(&files, 8, 4)
        .iter()
        .map(|p| disk[p.file][p.offset as usize..(p.offset + p.length) as usize].to_vec())
        .collect();
    assert_eq!(join_parts(&read), vec![2, 3, 4, 5]);
}

#[test]
fn blocks_of_a_piece() {
    let mut blocks = vec![];
    assert_eq!(push_piece_blocks(&mut blocks, 3, 40000), 3);
    assert_eq!(
        blocks,
        vec![
            BlockInfo { index: 3, begin: 0, length: 16384 },
            BlockInfo { index: 3, begin: 16384, length: 16384 },
            BlockInfo { index: 3, begin: 32768, length: 7232 },
        ]
    );
    assert_eq!(blocks.iter().map(|b| b.length).sum::<u32>(), 40000);
    assert_eq!(push_piece_blocks(&mut blocks, 4, 16384), 1);
    assert_eq!(blocks[3], BlockInfo { index: 4, begin: 0, length: 16384 });
}

#[test]
fn missing_pieces() {
    assert_eq!(find_first_missing(&vec![true, false, false]), Some(1));
    assert_eq!(find_first_missing(&vec![true, true]), None);
    assert_eq!(find_first_missing(&vec![]), None);
    assert_eq!(count_missing(&vec![true, false, false]), 2);
    assert_eq!(count_missing(&vec![true]), 0);
}

fn address(d: u8, port: u16) -> PeerAddress {
    PeerAddress { ip: Ipv4 { a: 127, b: 0, c: 0, d }, port }
}

#[test]
fn addresses_in_six_bytes() {
    let bytes = [9, 127, 0, 0, 1, 0x1b, 0x39, 127, 0, 0, 2, 0, 80];
    assert_eq!(get_addresses(&bytes, 1, 2), vec![address(1, 6969), address(2, 80)]);
    assert_eq!(get_addresses(&bytes, 1, 0), vec![]);
}

#[test]
fn this_client_is_no_peer_of_its_own() {
    let all = vec![address(1, 6969), address(1, 6970), address(2, 6969), address(1, 6969)];
    assert_eq!(other_peers(&all, 6969), vec![address(1, 6970), address(2, 6969)]);
    assert_eq!(
        remove_address(&all, address(2, 6969)),
        vec![address(1, 6969), address(1, 6970), address(1, 6969)]
    );
}

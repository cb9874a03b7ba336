use bittorrent::bytes::{
    bytes_to_hexadecimal, encode_bytes, id_range, nibble_to_hexadeximal, random_bytes, random_id,
    sha1_hash,
};

#[test]
fn sha1_of_abc() {
    assert_eq!(
        bytes_to_hexadecimal(&sha1_hash(b"abc")),
        "A9993E364706816ABA3E25717850C26C9CD0D89D"
    );
}

#[test]
fn sha1_of_nothing() {
    assert_eq!(
        bytes_to_hexadecimal(&sha1_hash(b"")),
        "DA39A3EE5E6B4B0D3255BFEF95601890AFD80709"
    );
}

#[test]
fn hexadecimal_digits() {
    assert_eq!(nibble_to_hexadeximal(0), '0');
    assert_eq!(nibble_to_hexadeximal(9), '9');
    assert_eq!(nibble_to_hexadeximal(10), 'A');
    assert_eq!(nibble_to_hexadeximal(15), 'F');
    assert_eq!(bytes_to_hexadecimal(&[0x00, 0x7f, 0xff]), "007FFF");
    assert_eq!(bytes_to_hexadecimal(&[]), "");
}

#[test]
fn different_bytes_have_different_hexadecimals() {
    assert_ne!(bytes_to_hexadecimal(&[1, 2]), bytes_to_hexadecimal(&[1, 3]));
    assert_ne!(bytes_to_hexadecimal(&[1]), bytes_to_hexadecimal(&[0, 1]));
}

#[test]
fn percent_encoding_keeps_unreserved_bytes() {
    assert_eq!(encode_bytes(b"azAZ09-_.~"), "azAZ09-_.~");
    assert_eq!(encode_bytes(&[0x00, 0x20, 0x2f, 0xff]), "%00%20%2F%FF");
    assert_eq!(encode_bytes(b"a b"), "a%20b");
    assert_eq!(encode_bytes(b""), "");
}

#[test]
fn percent_encodings_differ() {
    assert_ne!(encode_bytes(b"%20"), encode_bytes(b" "));
    assert!(encode_bytes(&[1, 2, 3]).chars().all(|c| c.is_ascii_alphanumeric() || c == '%'));
}

#[test]
fn random_ids_are_letters_and_digits() {
    for _ in 0..50 {
        assert!(random_id().iter().all(|b| b.is_ascii_alphanumeric()));
    }
    assert_ne!(random_id(), random_id());
}

#[test]
fn id_ranges_are_the_letters_and_digits() {
    let mut all: Vec<(u8, u8)> = (0..3).map(id_range).collect();
    all.sort();
    assert_eq!(all, vec![(b'0', b'9'), (b'A', b'Z'), (b'a', b'z')]);
}

#[test]
fn random_bytes_differ() {
    assert_ne!(random_bytes(), random_bytes());
}

use bittorrent::bencode::{BencodeValue, decode_exact};
use bittorrent::error::MyError;
use bittorrent::torrent::{parse_torrent, Info, Pieces, Torrent};
use sha1::{Digest, Sha1};

fn metadata_file(pieces: &[u8]) -> Vec<u8> {
    let mut b = b"d8:announce31:http://tracker.example/announce4:infod6:lengthi40000e4:name8:file.bin12:piece lengthi32768e6:pieces".to_vec();
    b.extend_from_slice(format!("{}:", pieces.len()).as_bytes());
    b.extend_from_slice(pieces);
    b.extend_from_slice(b"ee");
    b
}

#[test]
fn reads_metadata_file() {
    let mut pieces = vec![1u8; 20];
    pieces.extend_from_slice(&[2u8; 20]);
    let t = parse_torrent(&metadata_file(&pieces)).unwrap();
    assert_eq!(t.announce, "http://tracker.example/announce".to_string());
    assert_eq!(t.info.length, 40000);
    assert_eq!(t.info.name, "file.bin".to_string());
    assert_eq!(t.info.pieces_length, 32768);
    assert_eq!(t.info.pieces, Pieces(vec![[1u8; 20], [2u8; 20]]));
    assert!(t.info.is_consistent());
}

#[test]
fn info_hash_is_sha1_of_sorted_info_dictionary() {
    let mut pieces = vec![1u8; 20];
    pieces.extend_from_slice(&[2u8; 20]);
    let t = parse_torrent(&metadata_file(&pieces)).unwrap();
    let mut info = b"d6:lengthi40000e4:name8:file.bin12:piece lengthi32768e6:pieces40:".to_vec();
    info.extend_from_slice(&pieces);
    info.push(b'e');
    assert_eq!(t.info.to_bencode().encode(), info);
    let d = Sha1::digest(&info);
    assert_eq!(t.info_hash().to_vec(), d.to_vec());
}

#[test]
fn sha1_of_known_input() {
    let t = Torrent {
        announce: String::new(),
        info: Info { length: 0, name: String::new(), pieces_length: 0, pieces: Pieces(vec![]) },
    };
    let expected = Sha1::digest(b"d6:lengthi0e4:name0:12:piece lengthi0e6:pieces0:e");
    assert_eq!(t.info_hash().to_vec(), expected.to_vec());
    assert_ne!(t.info_hash(), [0u8; 20]);
}

#[test]
fn pieces_not_multiple_of_twenty() {
    assert_eq!(parse_torrent(&metadata_file(&[1u8; 21])), Err(MyError::PiecesLengthNotDivisible));
}

#[test]
fn missing_fields_are_invalid_input() {
    assert_eq!(parse_torrent(&b"d4:infod6:lengthi1eee".to_vec()), Err(MyError::InvalidInput));
    assert_eq!(parse_torrent(&b"garbage".to_vec()), Err(MyError::InvalidInput));
    let v = decode_exact(&b"d6:lengthi-1e4:name1:a12:piece lengthi1e6:pieces0:e".to_vec()).unwrap();
    assert_eq!(Info::from_bencode(&v), Err(MyError::InvalidInput));
}

#[test]
fn name_must_be_utf8() {
    let v = BencodeValue::Dictionary(vec![
        (b"length".to_vec(), BencodeValue::Integer(1)),
        (b"name".to_vec(), BencodeValue::ByteString(vec![0xff, 0xfe])),
        (b"piece length".to_vec(), BencodeValue::Integer(1)),
        (b"pieces".to_vec(), BencodeValue::ByteString(vec![0; 20])),
    ]);
    assert_eq!(Info::from_bencode(&v), Err(MyError::InvalidInput));
}

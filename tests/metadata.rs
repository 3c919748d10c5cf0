use bittorrent::extension::DataMetaData;
use bittorrent::metadata::{MetadataAssembly, MetadataError};
use bittorrent::torrent::{Info, Pieces};
use sha1::{Digest, Sha1};

fn sha1(data: &[u8]) -> [u8; 20] {
    let d = Sha1::digest(data);
    let mut out = [0u8; 20];
    out.copy_from_slice(&d);
    out
}

fn fixture() -> (Info, Vec<u8>) {
    let info = Info {
        length: 92063,
        name: "sample.txt".to_string(),
        pieces_length: 32768,
        pieces: Pieces(vec![[0xe8; 20], [0x76; 20], [0x1a; 20]]),
    };
    let bytes = info.to_bencode().encode();
    (info, bytes)
}

fn header(piece: u8, total: usize) -> DataMetaData {
    DataMetaData { msg_type: 1, piece, total_size: total as u32 }
}

#[test]
fn chunks_in_order_reassemble_and_verify() {
    let (info, bytes) = fixture();
    let hash = sha1(&bytes);
    let mut assembly = MetadataAssembly::new();
    let mid = bytes.len() / 2;
    assert_eq!(assembly.next_request().piece, 0);
    assembly.on_data(&header(0, bytes.len()), &bytes[..mid].to_vec()).unwrap();
    assert!(!assembly.is_complete());
    assert_eq!(assembly.next_request().piece, 1);
    assembly.on_data(&header(1, bytes.len()), &bytes[mid..].to_vec()).unwrap();
    assert!(assembly.is_complete());
    assert_eq!(assembly.bytes, bytes);
    assert_eq!(assembly.finish(&hash), Ok(info));
}

#[test]
fn out_of_order_chunk_is_refused() {
    let (_, bytes) = fixture();
    let mut assembly = MetadataAssembly::new();
    assert_eq!(assembly.on_data(&header(1, bytes.len()), &bytes[..10].to_vec()), Err(MetadataError::OutOfOrder));
    assert_eq!(assembly.next_piece, 0);
    assert!(assembly.bytes.is_empty());
}

#[test]
fn size_disagreement_is_refused() {
    let (_, bytes) = fixture();
    let mut assembly = MetadataAssembly::new();
    assembly.on_data(&header(0, bytes.len()), &bytes[..10].to_vec()).unwrap();
    assert_eq!(assembly.on_data(&header(1, bytes.len() + 1), &bytes[10..].to_vec()), Err(MetadataError::SizeMismatch));
    let mut other = MetadataAssembly::new();
    assert_eq!(other.on_data(&header(0, 5), &bytes[..10].to_vec()), Err(MetadataError::SizeMismatch));
}

#[test]
fn wrong_hash_is_integrity_failure() {
    let (_, bytes) = fixture();
    let mut assembly = MetadataAssembly::new();
    assembly.on_data(&header(0, bytes.len()), &bytes).unwrap();
    let mut wrong = sha1(&bytes);
    wrong[0] ^= 1;
    assert_eq!(assembly.finish(&wrong), Err(MetadataError::MetadataIntegrityFailure));
}

#[test]
fn hashed_garbage_is_malformed() {
    let bytes = b"not bencode".to_vec();
    let mut assembly = MetadataAssembly::new();
    assembly.on_data(&header(0, bytes.len()), &bytes).unwrap();
    assert_eq!(assembly.finish(&sha1(&bytes)), Err(MetadataError::MalformedMetadata));
}

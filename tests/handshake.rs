use bittorrent::handshake::{Handshake, HandshakeError};

fn response(info_hash: [u8; 20], reserved: [u8; 8]) -> [u8; 68] {
    let mut r = [0u8; 68];
    r[0] = 19;
    r[1..20].copy_from_slice(b"BitTorrent protocol");
    r[20..28].copy_from_slice(&reserved);
    r[28..48].copy_from_slice(&info_hash);
    r[48..68].copy_from_slice(b"ABCDEFGHIJKLMNOPQRST");
    r
}

#[test]
fn greeting_layout() {
    let h = Handshake::new([7u8; 20], *b"ABCDEFGHIJKLMNOPQRST", [0, 0, 0, 0, 0, 0x10, 0, 0]);
    let b = h.as_bytes();
    assert_eq!(b[0], 19);
    assert_eq!(&b[1..20], b"BitTorrent protocol");
    assert_eq!(b[25], 0x10);
    assert_eq!(&b[28..48], &[7u8; 20]);
    assert_eq!(&b[48..68], b"ABCDEFGHIJKLMNOPQRST");
    assert!(h.supports_extensions());
    assert_eq!(Handshake::from_bytes(&b), h);
}

#[test]
fn matching_response_gives_peer_id() {
    let r = response([3u8; 20], [0; 8]);
    assert_eq!(
        Handshake::check_response(&r, &[3u8; 20]),
        Ok("4142434445464748494a4b4c4d4e4f5051525354".to_string())
    );
}

#[test]
fn mismatched_info_hash_is_refused() {
    let r = response([3u8; 20], [0; 8]);
    assert_eq!(Handshake::check_response(&r, &[4u8; 20]), Err(HandshakeError::HandshakeMismatch));
}

#[test]
fn other_protocol_is_refused() {
    let mut r = response([3u8; 20], [0; 8]);
    r[1] = b'b';
    assert_eq!(Handshake::check_response(&r, &[3u8; 20]), Err(HandshakeError::ProtocolMismatch));
}

#[test]
fn extension_bit_absent() {
    let h = Handshake::new([0u8; 20], [0u8; 20], [0xff, 0xff, 0xff, 0xff, 0xff, 0xef, 0xff, 0xff]);
    assert!(!h.supports_extensions());
}

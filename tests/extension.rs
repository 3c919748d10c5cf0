use bittorrent::bencode::decode_exact;
use bittorrent::extension::{
    decode_metadata_message, DataMetaData, ExtensionHandshake, ExtensionMetadata, ExtensionPayload,
    ExtensionType, MetaData, PeerIP, M,
};

fn handshake_fixture() -> Vec<u8> {
    let mut b = b"d1:md11:ut_metadatai1e6:ut_pexi2ee13:metadata_sizei132e4:reqqi250e1:v10:Rain 0.0.06:yourip4:".to_vec();
    b.extend_from_slice(&[127, 0, 0, 1]);
    b.push(b'e');
    b
}

#[test]
fn test_extension_handshake_serialization() {
    let content = handshake_fixture();
    let value = decode_exact(&content).expect("Convert file to a struct");
    let extension_handshake = ExtensionHandshake::from_bencode(&value).expect("Convert file to a struct");
    let payload_vec = extension_handshake.to_bencode().encode();
    let utf_8 = String::from_utf8_lossy(&payload_vec).to_string();
    let extension_payload = ExtensionPayload {
        extension_id: 0,
        payload: ExtensionType::ExtensionHandshakeMessage(extension_handshake),
    };
    let payload_vec_2 = extension_payload.to_vec()[1..].to_vec();
    let utf_8_2 = String::from_utf8_lossy(&payload_vec_2).to_string();
    assert_eq!(utf_8, utf_8_2, "Should be equal");
    assert_eq!(payload_vec, content);
}

#[test]
fn test_bencode_enum() {
    let meta_data = MetaData { msg_type: 0, piece: 0 };
    let extension_meta_data = ExtensionMetadata::Request(meta_data);
    let bencoded_bytes = extension_meta_data.to_vec();
    let decoded_utf8 = String::from_utf8(bencoded_bytes.clone()).expect("Conversion to string failed");
    let back = decode_exact(&bencoded_bytes).expect("Conversion failed");
    let _ = back;
    assert_eq!(decoded_utf8.contains("Request"), false, "Incorrect serialization");
}

#[test]
fn handshake_defaults_and_minimal_encoding() {
    let v = decode_exact(&b"d1:md11:ut_metadatai16eee".to_vec()).unwrap();
    let h = ExtensionHandshake::from_bencode(&v).unwrap();
    assert_eq!(h.m, M { ut_metadata: 16, ut_pex: 0 });
    assert_eq!(h.v, String::new());
    assert_eq!(h.yourip, PeerIP::Ipv4([0, 0, 0, 0]));
    assert_eq!(h.ipv6, [0u8; 16]);
    assert_eq!(h.to_bencode().encode(), b"d1:md11:ut_metadatai16eee".to_vec());
}

#[test]
fn handshake_rejects_bad_fields() {
    let missing_m = decode_exact(&b"d1:pi5ee".to_vec()).unwrap();
    assert!(ExtensionHandshake::from_bencode(&missing_m).is_none());
    let big = decode_exact(&b"d1:md11:ut_metadatai300eee".to_vec()).unwrap();
    assert!(ExtensionHandshake::from_bencode(&big).is_none());
    let bad_ip = decode_exact(&b"d1:md11:ut_metadatai1ee6:yourip3:abce".to_vec()).unwrap();
    assert!(ExtensionHandshake::from_bencode(&bad_ip).is_none());
}

#[test]
fn ipv6_yourip_is_read() {
    let mut b = b"d1:md11:ut_metadatai1ee6:yourip16:".to_vec();
    b.extend_from_slice(&[0, 0, 0, 0, 0, 0, 0, 0, 0, 0, 0, 0, 0, 0, 0, 1]);
    b.push(b'e');
    let h = ExtensionHandshake::from_bencode(&decode_exact(&b).unwrap()).unwrap();
    assert_eq!(h.yourip, PeerIP::Ipv6([0, 0, 0, 0, 0, 0, 0, 0, 0, 0, 0, 0, 0, 0, 0, 1]));
    assert_eq!(h.to_bencode().encode(), b);
}

#[test]
fn metadata_messages_decode() {
    let mut data = vec![9u8];
    data.extend_from_slice(b"d8:msg_typei1e5:piecei2e10:total_sizei9ee");
    data.extend_from_slice(b"xyz");
    assert_eq!(
        decode_metadata_message(&data, 1),
        Some(ExtensionMetadata::Data(DataMetaData { msg_type: 1, piece: 2, total_size: 9 }, b"xyz".to_vec()))
    );
    let mut reject = vec![9u8];
    reject.extend_from_slice(b"d8:msg_typei2e5:piecei4ee");
    assert_eq!(
        decode_metadata_message(&reject, 1),
        Some(ExtensionMetadata::Reject(MetaData { msg_type: 2, piece: 4 }))
    );
    let mut unknown = vec![9u8];
    unknown.extend_from_slice(b"d8:msg_typei5e5:piecei4ee");
    assert_eq!(decode_metadata_message(&unknown, 1), None);
}

#[test]
fn data_message_bytes() {
    let m = ExtensionMetadata::Data(DataMetaData { msg_type: 1, piece: 0, total_size: 2 }, vec![1, 2]);
    let mut expected = b"d8:msg_typei1e5:piecei0e10:total_sizei2ee".to_vec();
    expected.extend_from_slice(&[1, 2]);
    assert_eq!(m.to_vec(), expected);
}

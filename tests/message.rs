use bittorrent::extension::{
    DataMetaData, ExtensionHandshake, ExtensionMetadata, ExtensionPayload, ExtensionType, MetaData, PeerIP, M,
};
use bittorrent::message::{FrameError, Message, MessageFramer, MessageTag, Payload, ReceivePayload, RequestPayload};

fn handshake_fixture() -> Vec<u8> {
    let mut b = b"d1:md11:ut_metadatai1e6:ut_pexi2ee13:metadata_sizei132e4:reqqi250e1:v10:Rain 0.0.06:yourip4:".to_vec();
    b.extend_from_slice(&[127, 0, 0, 1]);
    b.push(b'e');
    b
}

fn fixture_handshake() -> ExtensionHandshake {
    let v = bittorrent::bencode::decode_exact(&handshake_fixture()).expect("Convert file to a struct");
    ExtensionHandshake::from_bencode(&v).expect("Convert file to a struct")
}

fn frame(tag: u8, payload: &[u8]) -> Vec<u8> {
    let mut buf = (payload.len() as u32 + 1).to_be_bytes().to_vec();
    buf.push(tag);
    buf.extend_from_slice(payload);
    buf
}

#[test]
fn test_my_message_decoder() {
    let payload = vec![0xDE, 0xAD, 0xBE, 0xEF, 0xDE, 0xAD, 0xBE, 0xEF];
    let length = payload.len() as u32 + 1;
    let mut buf: Vec<u8> = Vec::new();
    buf.extend_from_slice(&length.to_be_bytes());
    buf.extend_from_slice(&[5]);
    buf.extend_from_slice(&payload);
    let mut decoder = MessageFramer { metadata_extension_id: 0 };
    let result = decoder.decode(&mut buf).expect("Decoding failed");
    match result {
        Some(msg) => {
            assert_eq!(msg.message_tag, MessageTag::Bitfield);
            assert_eq!(msg.payload, Payload::SimplePayload(payload));
        }
        None => panic!("Expected a decoded message, got None"),
    }
}

#[test]
fn test_my_message_decoder_2() {
    let payload = vec![0xDE, 0xAD, 0xBE, 0xEF, 0xDE, 0xAD, 0xBE];
    let length = 8 as u32 + 1;
    let mut buf: Vec<u8> = Vec::new();
    buf.extend_from_slice(&length.to_be_bytes());
    buf.extend_from_slice(&[5]);
    buf.extend_from_slice(&payload);
    let mut decoder = MessageFramer { metadata_extension_id: 0 };
    let result = decoder.decode(&mut buf).expect("Decoding failed");
    assert_eq!(result, None::<Message>);
}

#[test]
fn test_my_message_decoder_3() {
    let length = 4 as u32;
    let mut buf: Vec<u8> = Vec::new();
    buf.extend_from_slice(&length.to_be_bytes());
    let mut decoder = MessageFramer { metadata_extension_id: 0 };
    let result = decoder.decode(&mut buf).expect("Decoding failed");
    assert_eq!(result, None::<Message>)
}

#[test]
fn test_my_message_decoder_4() {
    let extension_payload_payload = ExtensionPayload {
        extension_id: 0,
        payload: ExtensionType::ExtensionHandshakeMessage(fixture_handshake()),
    };
    let bytes_payload = extension_payload_payload.to_vec();
    assert_eq!(bytes_payload[0], 0, "payload length mimatch");
}

#[test]
fn frame_with_trailing_bytes_leaves_exactly_them() {
    let mut buf = frame(7, &[0, 0, 0, 1, 0, 0, 0, 0, 9, 9]);
    buf.extend_from_slice(&[1, 2, 3]);
    let mut framer = MessageFramer { metadata_extension_id: 0 };
    let m = framer.decode(&mut buf).unwrap().unwrap();
    assert_eq!(m.message_tag, MessageTag::Piece);
    assert_eq!(m.payload, Payload::SimplePayload(vec![0, 0, 0, 1, 0, 0, 0, 0, 9, 9]));
    assert_eq!(buf, vec![1, 2, 3]);
}

#[test]
fn every_short_prefix_waits_without_consuming() {
    let full = frame(5, &[1, 2, 3, 4, 5, 6]);
    for n in 0..full.len() {
        let mut buf = full[..n].to_vec();
        let mut framer = MessageFramer { metadata_extension_id: 0 };
        assert_eq!(framer.decode(&mut buf), Ok(None));
        assert_eq!(buf, full[..n].to_vec());
    }
}

#[test]
fn frame_errors() {
    let mut framer = MessageFramer { metadata_extension_id: 0 };
    let mut big = vec![0, 0, 0x9c, 0x40, 5];
    assert_eq!(framer.decode(&mut big), Err(FrameError::FrameTooLarge));
    let mut empty = vec![0, 0, 0, 0, 5];
    assert_eq!(framer.decode(&mut empty), Err(FrameError::EmptyFrame));
    let mut unknown = frame(9, &[1]);
    assert_eq!(framer.decode(&mut unknown), Err(FrameError::UnknownMessageTag));
    let mut ext = frame(20, &[7, b'd', b'e']);
    assert_eq!(framer.decode(&mut ext), Err(FrameError::MalformedExtension));
}

#[test]
fn encode_writes_length_tag_payload() {
    let mut framer = MessageFramer { metadata_extension_id: 0 };
    let mut dst: Vec<u8> = Vec::new();
    let msg = Message { message_tag: MessageTag::Interested, payload: Payload::SimplePayload(vec![]) };
    framer.encode(msg, &mut dst).unwrap();
    assert_eq!(dst, vec![0, 0, 0, 1, 2]);
    let too_big = Message { message_tag: MessageTag::Piece, payload: Payload::SimplePayload(vec![0; 32768]) };
    let mut dst2: Vec<u8> = Vec::new();
    assert_eq!(framer.encode(too_big, &mut dst2), Err(FrameError::FrameTooLarge));
    assert!(dst2.is_empty());
}

#[test]
fn encode_then_decode_gives_the_message_back() {
    let mut framer = MessageFramer { metadata_extension_id: 0 };
    let mut buf: Vec<u8> = Vec::new();
    let req = RequestPayload { index: 1, begin: 16384, length: 744 };
    let msg = Message { message_tag: MessageTag::Request, payload: Payload::SimplePayload(req.to_vec()) };
    framer.encode(msg, &mut buf).unwrap();
    let back = framer.decode(&mut buf).unwrap().unwrap();
    assert_eq!(back.message_tag, MessageTag::Request);
    assert_eq!(back.payload, Payload::SimplePayload(vec![0, 0, 0, 1, 0, 0, 0x40, 0, 0, 0, 2, 0xe8]));
    assert!(buf.is_empty());
}

#[test]
fn extension_handshake_through_framer() {
    let mut body = vec![0u8];
    body.extend_from_slice(&handshake_fixture());
    let mut buf = frame(20, &body);
    let mut framer = MessageFramer { metadata_extension_id: 0 };
    let m = framer.decode(&mut buf).unwrap().unwrap();
    assert_eq!(m.message_tag, MessageTag::Extension);
    match m.payload {
        Payload::ExtendedPayload(p) => {
            assert_eq!(p.extension_id, 0);
            match p.payload {
                ExtensionType::ExtensionHandshakeMessage(h) => {
                    assert_eq!(h.m, M { ut_metadata: 1, ut_pex: 2 });
                    assert_eq!(h.metadata_size, 132);
                    assert_eq!(h.reqq, 250);
                    assert_eq!(h.v, "Rain 0.0.0".to_string());
                    assert_eq!(h.yourip, PeerIP::Ipv4([127, 0, 0, 1]));
                    assert_eq!(h.p, 0);
                }
                _ => panic!("expected a handshake"),
            }
        }
        _ => panic!("expected an extension payload"),
    }
}

#[test]
fn metadata_data_through_framer_uses_negotiated_id() {
    let mut body = vec![3u8];
    body.extend_from_slice(b"d8:msg_typei1e5:piecei0e10:total_sizei4ee");
    body.extend_from_slice(b"abcd");
    let mut framer = MessageFramer { metadata_extension_id: 3 };
    let mut buf = frame(20, &body);
    let m = framer.decode(&mut buf).unwrap().unwrap();
    match m.payload {
        Payload::ExtendedPayload(p) => {
            assert_eq!(p.extension_id, 3);
            assert_eq!(
                p.payload,
                ExtensionType::MetaDataMessage(ExtensionMetadata::Data(
                    DataMetaData { msg_type: 1, piece: 0, total_size: 4 },
                    b"abcd".to_vec()
                ))
            );
        }
        _ => panic!("expected an extension payload"),
    }
    let mut other = MessageFramer { metadata_extension_id: 5 };
    let mut buf2 = frame(20, &body);
    assert_eq!(other.decode(&mut buf2), Err(FrameError::MalformedExtension));
}

#[test]
fn tags_map_both_ways() {
    let all = [
        MessageTag::Choke, MessageTag::Unchoke, MessageTag::Interested, MessageTag::NotInterested,
        MessageTag::Have, MessageTag::Bitfield, MessageTag::Request, MessageTag::Piece,
        MessageTag::Cancel, MessageTag::Extension,
    ];
    for t in all {
        assert_eq!(MessageTag::tag_to_type(&t.type_to_tag()), Some(t));
    }
    assert_eq!(MessageTag::Extension.type_to_tag(), 20);
    assert_eq!(MessageTag::tag_to_type(&9), None);
}

#[test]
fn request_and_piece_payloads() {
    let r = RequestPayload { index: 2, begin: 32768, length: 16384 };
    assert_eq!(r.to_vec(), vec![0, 0, 0, 2, 0, 0, 0x80, 0, 0, 0, 0x40, 0]);
    let mut p = vec![0, 0, 0, 2, 0, 0, 0x40, 0, 7, 8, 9];
    let rp = ReceivePayload::new(&mut p);
    assert_eq!(rp.index, 2);
    assert_eq!(rp.begin, 16384);
    assert_eq!(rp.block, vec![7, 8, 9]);
    assert_eq!(p.len(), 8);
}

#[test]
fn metadata_request_bytes() {
    let req = ExtensionMetadata::Request(MetaData { msg_type: 0, piece: 3 });
    assert_eq!(req.to_vec(), b"d8:msg_typei0e5:piecei3ee".to_vec());
}

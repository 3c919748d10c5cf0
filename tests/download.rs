use bittorrent::download::{
    block_count, block_size, check_piece, piece_size, Action, DownloadError, PieceDownload, Session, Stage,
};
use bittorrent::message::{MessageTag, ReceivePayload, RequestPayload};
use bittorrent::torrent::{Info, Pieces};
use sha1::{Digest, Sha1};

fn sha1(data: &[u8]) -> [u8; 20] {
    let d = Sha1::digest(data);
    let mut out = [0u8; 20];
    out.copy_from_slice(&d);
    out
}

fn info(length: usize, pieces_length: usize, hashes: Vec<[u8; 20]>) -> Info {
    Info { length, name: "file".to_string(), pieces_length, pieces: Pieces(hashes) }
}

#[test]
fn sizes_without_remainder() {
    let i = info(1048576, 262144, vec![[0u8; 20]; 4]);
    assert!(i.is_consistent());
    for p in 0..4 {
        let size = piece_size(&i, p);
        assert_eq!(size, 262144);
        assert_eq!(block_count(size), 16);
        for b in 0..16 {
            assert_eq!(block_size(size, b), 16384);
        }
    }
}

#[test]
fn sizes_with_remainder() {
    let i = info(1000000, 262144, vec![[0u8; 20]; 4]);
    assert!(i.is_consistent());
    assert_eq!(piece_size(&i, 2), 262144);
    let last = piece_size(&i, 3);
    assert_eq!(last, 213568);
    assert_eq!(block_count(last), 14);
    assert_eq!(block_size(last, 13), 213568 - 16384 * 13);
    assert_eq!(block_size(last, 13), 576);
    assert_eq!(block_size(last, 12), 16384);
}

#[test]
fn inconsistent_info_is_detected() {
    assert!(!info(1000000, 262144, vec![[0u8; 20]; 3]).is_consistent());
    assert!(!info(1000000, 262144, vec![[0u8; 20]; 5]).is_consistent());
    assert!(!info(10, 0, vec![[0u8; 20]; 1]).is_consistent());
}

#[test]
fn piece_verification_accepts_and_rejects() {
    let data: Vec<u8> = (0..1000u32).map(|x| (x % 251) as u8).collect();
    let good = sha1(&data);
    assert_eq!(check_piece(data.clone(), &good, &good, 0), Ok(data.clone()));
    let i = info(1000, 1000, vec![good]);
    let mut pd = PieceDownload::new(&i, 0);
    let q = pd.next_request().unwrap();
    assert_eq!(q, RequestPayload { index: 0, begin: 0, length: 1000 });
    pd.on_block(&ReceivePayload { index: 0, begin: 0, block: data.clone() }).unwrap();
    assert!(pd.is_done());
    assert_eq!(pd.next_request(), None);
    assert_eq!(pd.finish(&good), Ok(data.clone()));

    let mut flipped = data.clone();
    flipped[500] ^= 0x01;
    let mut pd2 = PieceDownload::new(&i, 0);
    pd2.on_block(&ReceivePayload { index: 0, begin: 0, block: flipped }).unwrap();
    assert_eq!(pd2.finish(&good), Err(DownloadError::HashMismatch(0)));
}

#[test]
fn mismatched_block_is_desync() {
    let i = info(40000, 40000, vec![[0u8; 20]]);
    let mut pd = PieceDownload::new(&i, 0);
    assert_eq!(pd.next_request(), Some(RequestPayload { index: 0, begin: 0, length: 16384 }));
    let wrong = ReceivePayload { index: 0, begin: 16384, block: vec![0; 16384] };
    assert_eq!(pd.on_block(&wrong), Err(DownloadError::ProtocolDesync));
    let ok = ReceivePayload { index: 0, begin: 0, block: vec![0; 16384] };
    pd.on_block(&ok).unwrap();
    assert_eq!(pd.next_request(), Some(RequestPayload { index: 0, begin: 16384, length: 16384 }));
}

fn piece_body(index: u32, begin: u32, block: &[u8]) -> Vec<u8> {
    let mut v = index.to_be_bytes().to_vec();
    v.extend_from_slice(&begin.to_be_bytes());
    v.extend_from_slice(block);
    v
}

#[test]
fn session_downloads_all_pieces() {
    let data: Vec<u8> = (0..20000u32).map(|x| (x * 7 % 256) as u8).collect();
    let h0 = sha1(&data[..16384]);
    let h1 = sha1(&data[16384..]);
    let i = info(20000, 16384, vec![h0, h1]);
    let mut s = Session::new(&i, 0, 2);
    assert_eq!(s.stage, Stage::AwaitBitfield);
    assert_eq!(s.on_message(&i, MessageTag::Bitfield, vec![0xc0]), Ok(Action::SendInterested));
    assert_eq!(
        s.on_message(&i, MessageTag::Unchoke, vec![]),
        Ok(Action::SendRequest(RequestPayload { index: 0, begin: 0, length: 16384 }))
    );
    assert_eq!(s.on_message(&i, MessageTag::Have, vec![0, 0, 0, 1]), Ok(Action::Wait));
    assert_eq!(
        s.on_message(&i, MessageTag::Piece, piece_body(0, 0, &data[..16384])),
        Ok(Action::SendRequest(RequestPayload { index: 1, begin: 0, length: 3616 }))
    );
    assert_eq!(s.on_message(&i, MessageTag::Piece, piece_body(1, 0, &data[16384..])), Ok(Action::Finished));
    assert_eq!(s.stage, Stage::Complete);
    assert_eq!(s.output, data);
}

#[test]
fn session_errors() {
    let i = info(100, 100, vec![[1u8; 20]]);
    let mut s = Session::new(&i, 0, 1);
    assert_eq!(s.on_message(&i, MessageTag::Unchoke, vec![]), Err(DownloadError::UnexpectedMessage));
    let mut s2 = Session::new(&i, 0, 1);
    s2.on_message(&i, MessageTag::Bitfield, vec![]).unwrap();
    s2.on_message(&i, MessageTag::Unchoke, vec![]).unwrap();
    assert_eq!(s2.on_message(&i, MessageTag::Piece, vec![0, 0, 0, 1]), Err(DownloadError::ProtocolDesync));
    assert_eq!(
        s2.on_message(&i, MessageTag::Piece, piece_body(0, 0, &[0u8; 100])),
        Err(DownloadError::HashMismatch(0))
    );
}

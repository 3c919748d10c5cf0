use bittorrent::error::MyError;
use bittorrent::tracker::{parse_response, PeerAddress, Peers, Request};

#[test]
fn compact_peers_are_read() {
    let b = vec![127, 0, 0, 1, 0x1a, 0xe1, 10, 0, 0, 2, 0, 80];
    let p = Peers::from_compact(&b).unwrap();
    assert_eq!(
        p.0,
        vec![PeerAddress { ip: [127, 0, 0, 1], port: 6881 }, PeerAddress { ip: [10, 0, 0, 2], port: 80 }]
    );
    assert_eq!(p.to_compact(), b);
    assert_eq!(Peers::from_compact(&vec![1, 2, 3, 4, 5, 6, 7]), None);
}

#[test]
fn tracker_answer_is_read() {
    let mut body = b"d8:intervali1800e5:peers6:".to_vec();
    body.extend_from_slice(&[192, 168, 1, 1, 0x1a, 0xe1]);
    body.push(b'e');
    let r = parse_response(&body).unwrap();
    assert_eq!(r.interval, 1800);
    assert_eq!(r.peers.0, vec![PeerAddress { ip: [192, 168, 1, 1], port: 6881 }]);
    assert_eq!(parse_response(&b"d8:intervali1800e5:peers5:abcdee".to_vec()), Err(MyError::InvalidInput));
}

#[test]
fn first_announce_request() {
    let r = Request::new("123456789abcdefghijk".to_string(), 6881, 1000);
    assert_eq!(r.left, 1000);
    assert_eq!(r.compact, 1);
    assert_eq!(r.uploaded, 0);
}

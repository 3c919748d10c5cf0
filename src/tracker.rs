use crate::bencode::{decode_exact, BVal, BencodeValue};
use crate::error::MyError;
use crate::torrent::{bytes_field, decoded_whole, get, size_field};
use vstd::prelude::*;

verus! {

/// What this client tells the tracker.
pub struct Request {
    pub peer_id: String,
    pub port: u16,
    pub uploaded: usize,
    pub downloaded: usize,
    pub left: usize,
    pub compact: u8,
}

impl Request {
    /// A first announce for content of which `left` bytes are still missing.
    pub fn new(peer_id: String, port: u16, left: usize) -> (r: Request)
        ensures
            r.peer_id@ == peer_id@,
            r.port == port,
            r.uploaded == 0,
            r.downloaded == 0,
            r.left == left,
            r.compact == 1,
    {
        Request { peer_id, port, uploaded: 0, downloaded: 0, left, compact: 1 }
    }
}

/// An IPv4 peer: address and port.
#[derive(Debug, PartialEq, Eq, Clone, Copy)]
pub struct PeerAddress {
    pub ip: [u8; 4],
    pub port: u16,
}

/// The peers a tracker returned.
#[derive(Debug, PartialEq, Eq)]
pub struct Peers(pub Vec<PeerAddress>);

/// The tracker's answer.
#[derive(Debug, PartialEq, Eq)]
pub struct Response {
    /// Seconds to wait before the next announce.
    pub interval: usize,
    pub peers: Peers,
}

/// Six bytes per peer: the address, then the port big-endian.
pub open spec fn compact_bytes(peers: Seq<PeerAddress>) -> Seq<u8>
    decreases peers.len(),
{
    if peers.len() == 0 {
        seq![]
    } else {
        let p = peers[peers.len() - 1];
        compact_bytes(peers.subrange(0, peers.len() - 1)) + p.ip@ + seq![
            (p.port / 256) as u8,
            (p.port % 256) as u8,
        ]
    }
}

/// `interval`
pub open spec fn key_interval() -> Seq<u8> {
    seq![105u8, 110, 116, 101, 114, 118, 97, 108]
}

/// `peers`
pub open spec fn key_peers() -> Seq<u8> {
    seq![112u8, 101, 101, 114, 115]
}

/// `v` is a tracker answer: an interval, and a compact peer list of whole entries.
pub open spec fn response_accepted(v: BVal) -> bool {
    &&& size_field(v, key_interval()) is Some
    &&& bytes_field(v, key_peers()) matches Some(p) && p.len() % 6 == 0
}

impl Peers {
    /// Reads a compact peer list.
    pub fn from_compact(b: &Vec<u8>) -> (r: Option<Peers>)
        ensures
            match r {
                Some(p) => compact_bytes(p.0@) == b@,
                None => b@.len() % 6 != 0,
            },
    {
        if b.len() % 6 != 0 {
            return None;
        }
        let mut peers: Vec<PeerAddress> = Vec::new();
        let mut at: usize = 0;
        while at < b.len()
            invariant
                at <= b.len(),
                at % 6 == 0,
                b.len() % 6 == 0,
                compact_bytes(peers@) == b@.subrange(0, at as int),
            decreases b.len() - at,
        {
            let ip: [u8; 4] = [b[at], b[at + 1], b[at + 2], b[at + 3]];
            let port: u16 = b[at + 4] as u16 * 256 + b[at + 5] as u16;
            let p = PeerAddress { ip, port };
            proof {
                assert(peers@.push(p).subrange(0, peers@.len() as int) =~= peers@);
                assert(b@.subrange(0, at + 6) =~= b@.subrange(0, at as int) + p.ip@ + seq![
                    (p.port / 256) as u8,
                    (p.port % 256) as u8,
                ]);
            }
            peers.push(p);
            at = at + 6;
        }
        assert(b@.subrange(0, at as int) =~= b@);
        Some(Peers(peers))
    }

    /// The compact form of the list.
    pub fn to_compact(&self) -> (r: Vec<u8>)
        ensures
            r@ == compact_bytes(self.0@),
    {
        let mut out: Vec<u8> = Vec::new();
        let mut i: usize = 0;
        while i < self.0.len()
            invariant
                i <= self.0.len(),
                out@ == compact_bytes(self.0@.subrange(0, i as int)),
            decreases self.0.len() - i,
        {
            let p = self.0[i];
            out.push(p.ip[0]);
            out.push(p.ip[1]);
            out.push(p.ip[2]);
            out.push(p.ip[3]);
            out.push((p.port / 256) as u8);
            out.push((p.port % 256) as u8);
            proof {
                let done = self.0@.subrange(0, i + 1);
                assert(done.subrange(0, i as int) =~= self.0@.subrange(0, i as int));
                assert(p.ip@ =~= seq![p.ip@[0], p.ip@[1], p.ip@[2], p.ip@[3]]);
            }
            i = i + 1;
            assert(out@ =~= compact_bytes(self.0@.subrange(0, i as int)));
        }
        assert(self.0@.subrange(0, i as int) =~= self.0@);
        out
    }
}

impl Response {
    /// This value holds what `v` says.
    pub open spec fn read_from(&self, v: BVal) -> bool {
        &&& size_field(v, key_interval()) == Some(self.interval as int)
        &&& bytes_field(v, key_peers()) == Some(compact_bytes(self.peers.0@))
    }

    /// Reads a tracker answer.
    pub fn from_bencode(v: &BencodeValue) -> (r: Result<Response, MyError>)
        ensures
            match r {
                Ok(resp) => resp.read_from(v@),
                Err(e) => e == MyError::InvalidInput && !response_accepted(v@),
            },
    {
        let interval = match get(v, &key_bytes_interval()) {
            Some(BencodeValue::Integer(n)) => {
                if *n >= 0 && (*n as u64) <= (usize::MAX as u64) {
                    *n as usize
                } else {
                    return Err(MyError::InvalidInput);
                }
            },
            _ => {
                return Err(MyError::InvalidInput);
            },
        };
        let peers = match get(v, &key_bytes_peers()) {
            Some(BencodeValue::ByteString(b)) => match Peers::from_compact(b) {
                Some(p) => p,
                None => {
                    return Err(MyError::InvalidInput);
                },
            },
            _ => {
                return Err(MyError::InvalidInput);
            },
        };
        Ok(Response { interval, peers })
    }
}

/// Reads the body of the tracker's answer: one bencoded dictionary and nothing after it.
pub fn parse_response(body: &Vec<u8>) -> (r: Result<Response, MyError>)
    ensures
        match r {
            Ok(resp) => decoded_whole(body@) matches Some(v) && resp.read_from(v),
            Err(_) => !(decoded_whole(body@) matches Some(v) && response_accepted(v)),
        },
{
    match decode_exact(body) {
        Ok(v) => Response::from_bencode(&v),
        Err(_) => Err(MyError::InvalidInput),
    }
}

fn key_bytes_interval() -> (r: Vec<u8>)
    ensures
        r@ == key_interval(),
{
    let r = vec![105u8, 110, 116, 101, 114, 118, 97, 108];
    assert(r@ =~= key_interval());
    r
}

fn key_bytes_peers() -> (r: Vec<u8>)
    ensures
        r@ == key_peers(),
{
    let r = vec![112u8, 101, 101, 114, 115];
    assert(r@ =~= key_peers());
    r
}

} // verus!

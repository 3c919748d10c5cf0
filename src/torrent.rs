use crate::bencode::{
    bytes_range, decode_exact, encode_value, parse_value, entries_view, BVal, BencodeValue, value_view,
};
use crate::bytes::bytes_equal;
use crate::digest::{sha1_digest, sha1_of};
use crate::error::MyError;
use crate::text::{string_bytes, utf8_to_string};
use vstd::prelude::*;
use vstd::utf8::{encode_utf8, valid_utf8};

verus! {

/// The SHA-1 hashes of the pieces, in piece order.
#[derive(Debug, PartialEq, Eq)]
pub struct Pieces(pub Vec<[u8; 20]>);

/// What a metadata file says of the content.
#[derive(Debug, PartialEq, Eq)]
pub struct Info {
    /// Total size of the content in bytes.
    pub length: usize,
    /// Suggested name.
    pub name: String,
    /// Size of every piece but the last.
    pub pieces_length: usize,
    pub pieces: Pieces,
}

/// A metadata file: the tracker's URL and the content's description.
#[derive(Debug, PartialEq, Eq)]
pub struct Torrent {
    pub announce: String,
    pub info: Info,
}

/// The hashes laid end to end.
pub open spec fn concat_hashes(h: Seq<[u8; 20]>) -> Seq<u8>
    decreases h.len(),
{
    if h.len() == 0 {
        seq![]
    } else {
        concat_hashes(h.subrange(0, h.len() - 1)) + h[h.len() - 1]@
    }
}

/// The value stored under `key`: the first entry with that key.
pub open spec fn lookup(entries: Seq<(Seq<u8>, BVal)>, key: Seq<u8>) -> Option<BVal>
    decreases entries.len(),
{
    if entries.len() == 0 {
        None
    } else if entries[0].0 == key {
        Some(entries[0].1)
    } else {
        lookup(entries.subrange(1, entries.len() as int), key)
    }
}

pub open spec fn field(v: BVal, key: Seq<u8>) -> Option<BVal> {
    match v {
        BVal::Dict(entries) => lookup(entries, key),
        _ => None,
    }
}

/// A non-negative integer field that fits in `usize`.
pub open spec fn size_field(v: BVal, key: Seq<u8>) -> Option<int> {
    match field(v, key) {
        Some(BVal::Int(n)) => if 0 <= n <= usize::MAX {
            Some(n as int)
        } else {
            None
        },
        _ => None,
    }
}

pub open spec fn bytes_field(v: BVal, key: Seq<u8>) -> Option<Seq<u8>> {
    match field(v, key) {
        Some(BVal::Bytes(b)) => Some(b),
        _ => None,
    }
}

/// A byte-string field that holds valid UTF-8.
pub open spec fn text_field(v: BVal, key: Seq<u8>) -> Option<Seq<u8>> {
    match bytes_field(v, key) {
        Some(b) => if valid_utf8(b) {
            Some(b)
        } else {
            None
        },
        None => None,
    }
}

/// `length`
pub open spec fn key_length() -> Seq<u8> {
    seq![108u8, 101, 110, 103, 116, 104]
}

/// `name`
pub open spec fn key_name() -> Seq<u8> {
    seq![110u8, 97, 109, 101]
}

/// `piece length`
pub open spec fn key_piece_length() -> Seq<u8> {
    seq![112u8, 105, 101, 99, 101, 32, 108, 101, 110, 103, 116, 104]
}

/// `pieces`
pub open spec fn key_pieces() -> Seq<u8> {
    seq![112u8, 105, 101, 99, 101, 115]
}

/// `announce`
pub open spec fn key_announce() -> Seq<u8> {
    seq![97u8, 110, 110, 111, 117, 110, 99, 101]
}

/// `info`
pub open spec fn key_info() -> Seq<u8> {
    seq![105u8, 110, 102, 111]
}

/// The `pieces` field is present but its length is not a multiple of 20.
pub open spec fn pieces_misaligned(v: BVal) -> bool {
    bytes_field(v, key_pieces()) matches Some(p) && p.len() % 20 != 0
}

/// `v` is a dictionary with every field that an info dictionary needs, each well formed.
pub open spec fn info_accepted(v: BVal) -> bool {
    &&& size_field(v, key_length()) is Some
    &&& text_field(v, key_name()) is Some
    &&& size_field(v, key_piece_length()) is Some
    &&& bytes_field(v, key_pieces()) matches Some(p) && p.len() % 20 == 0
}

/// `v` is a metadata dictionary: a tracker URL and an acceptable info dictionary.
pub open spec fn torrent_accepted(v: BVal) -> bool {
    &&& text_field(v, key_announce()) is Some
    &&& field(v, key_info()) matches Some(i) && info_accepted(i)
}

/// The info dictionary with the given fields, keys in sorted order.
pub open spec fn info_dict(length: int, name: Seq<u8>, piece_length: int, pieces: Seq<u8>) -> BVal {
    BVal::Dict(
        seq![
            (key_length(), BVal::Int(length as i64)),
            (key_name(), BVal::Bytes(name)),
            (key_piece_length(), BVal::Int(piece_length as i64)),
            (key_pieces(), BVal::Bytes(pieces)),
        ],
    )
}

impl Info {
    /// The info dictionary that describes this value.
    pub open spec fn spec_value(&self) -> BVal {
        info_dict(
            self.length as int,
            encode_utf8(self.name@),
            self.pieces_length as int,
            concat_hashes(self.pieces.0@),
        )
    }

    /// This value holds what `v` says.
    pub open spec fn read_from(&self, v: BVal) -> bool {
        &&& size_field(v, key_length()) == Some(self.length as int)
        &&& text_field(v, key_name()) == Some(encode_utf8(self.name@))
        &&& size_field(v, key_piece_length()) == Some(self.pieces_length as int)
        &&& bytes_field(v, key_pieces()) == Some(concat_hashes(self.pieces.0@))
    }

    /// Reads an info dictionary.
    pub fn from_bencode(v: &BencodeValue) -> (r: Result<Info, MyError>)
        ensures
            match r {
                Ok(info) => info.read_from(v@),
                Err(e) => !info_accepted(v@) && (e is PiecesLengthNotDivisible <==> pieces_misaligned(
                    v@,
                )),
            },
            info_accepted(v@) ==> r is Ok,
    {
        let pieces = match get_bytes(v, &key_pieces_bytes()) {
            Some(p) => p,
            None => {
                return Err(MyError::InvalidInput);
            },
        };
        if pieces.len() % 20 != 0 {
            return Err(MyError::PiecesLengthNotDivisible);
        }
        let length = match get_size(v, &key_length_bytes()) {
            Some(n) => n,
            None => {
                return Err(MyError::InvalidInput);
            },
        };
        let name = match get_text(v, &key_name_bytes()) {
            Some(s) => s,
            None => {
                return Err(MyError::InvalidInput);
            },
        };
        let pieces_length = match get_size(v, &key_piece_length_bytes()) {
            Some(n) => n,
            None => {
                return Err(MyError::InvalidInput);
            },
        };
        Ok(Info { length, name, pieces_length, pieces: Pieces(split_hashes(&pieces)) })
    }

    /// The info dictionary that describes this value.
    pub fn to_bencode(&self) -> (r: BencodeValue)
        requires
            self.length <= i64::MAX,
            self.pieces_length <= i64::MAX,
        ensures
            r@ == self.spec_value(),
    {
        let mut entries: Vec<(Vec<u8>, BencodeValue)> = Vec::new();
        entries.push((key_length_bytes(), BencodeValue::Integer(self.length as i64)));
        entries.push((key_name_bytes(), BencodeValue::ByteString(string_bytes(&self.name))));
        entries.push(
            (key_piece_length_bytes(), BencodeValue::Integer(self.pieces_length as i64)),
        );
        entries.push((key_pieces_bytes(), BencodeValue::ByteString(join_hashes(&self.pieces.0))));
        let r = BencodeValue::Dictionary(entries);
        proof {
            let ev = entries_view(entries@);
            reveal_with_fuel(entries_view, 5);
            assert(ev =~= seq![
                (key_length(), BVal::Int(self.length as i64)),
                (key_name(), BVal::Bytes(encode_utf8(self.name@))),
                (key_piece_length(), BVal::Int(self.pieces_length as i64)),
                (key_pieces(), BVal::Bytes(concat_hashes(self.pieces.0@))),
            ]);
        }
        r
    }
}

impl Torrent {
    /// This value holds what `v` says.
    pub open spec fn read_from(&self, v: BVal) -> bool {
        &&& text_field(v, key_announce()) == Some(encode_utf8(self.announce@))
        &&& field(v, key_info()) matches Some(i) && self.info.read_from(i)
    }

    /// Reads a metadata dictionary.
    pub fn from_bencode(v: &BencodeValue) -> (r: Result<Torrent, MyError>)
        ensures
            match r {
                Ok(t) => t.read_from(v@),
                Err(e) => !torrent_accepted(v@) && (e is PiecesLengthNotDivisible <==> (text_field(
                    v@,
                    key_announce(),
                ) is Some && (field(v@, key_info()) matches Some(i) && pieces_misaligned(i)))),
            },
            torrent_accepted(v@) ==> r is Ok,
    {
        let announce = match get_text(v, &key_announce_bytes()) {
            Some(s) => s,
            None => {
                return Err(MyError::InvalidInput);
            },
        };
        let info_value = match get(v, &key_info_bytes()) {
            Some(i) => i,
            None => {
                return Err(MyError::InvalidInput);
            },
        };
        match Info::from_bencode(info_value) {
            Ok(info) => Ok(Torrent { announce, info }),
            Err(e) => Err(e),
        }
    }

    /// The SHA-1 digest of the encoded info dictionary: the content's identifier.
    pub fn info_hash(&self) -> (r: [u8; 20])
        requires
            self.info.length <= i64::MAX,
            self.info.pieces_length <= i64::MAX,
        ensures
            r@ == sha1_of(encode_value(self.info.spec_value())),
    {
        let encoded = self.info.to_bencode().encode();
        sha1_digest(&encoded)
    }
}

/// The single value that `content` encodes, when nothing follows it.
pub open spec fn decoded_whole(content: Seq<u8>) -> Option<BVal> {
    match parse_value(content, 0) {
        Some((v, end)) => if end == content.len() {
            Some(v)
        } else {
            None
        },
        None => None,
    }
}

/// Reads a metadata file's contents: one bencoded dictionary and nothing after it.
pub fn parse_torrent(content: &Vec<u8>) -> (r: Result<Torrent, MyError>)
    ensures
        match r {
            Ok(t) => decoded_whole(content@) matches Some(v) && t.read_from(v),
            Err(_) => !(decoded_whole(content@) matches Some(v) && torrent_accepted(v)),
        },
{
    match decode_exact(content) {
        Ok(v) => Torrent::from_bencode(&v),
        Err(_) => Err(MyError::InvalidInput),
    }
}

fn key_length_bytes() -> (r: Vec<u8>)
    ensures
        r@ == key_length(),
{
    let r = vec![108u8, 101, 110, 103, 116, 104];
    assert(r@ =~= key_length());
    r
}

fn key_name_bytes() -> (r: Vec<u8>)
    ensures
        r@ == key_name(),
{
    let r = vec![110u8, 97, 109, 101];
    assert(r@ =~= key_name());
    r
}

fn key_piece_length_bytes() -> (r: Vec<u8>)
    ensures
        r@ == key_piece_length(),
{
    let r = vec![112u8, 105, 101, 99, 101, 32, 108, 101, 110, 103, 116, 104];
    assert(r@ =~= key_piece_length());
    r
}

fn key_pieces_bytes() -> (r: Vec<u8>)
    ensures
        r@ == key_pieces(),
{
    let r = vec![112u8, 105, 101, 99, 101, 115];
    assert(r@ =~= key_pieces());
    r
}

fn key_announce_bytes() -> (r: Vec<u8>)
    ensures
        r@ == key_announce(),
{
    let r = vec![97u8, 110, 110, 111, 117, 110, 99, 101];
    assert(r@ =~= key_announce());
    r
}

fn key_info_bytes() -> (r: Vec<u8>)
    ensures
        r@ == key_info(),
{
    let r = vec![105u8, 110, 102, 111];
    assert(r@ =~= key_info());
    r
}

/// The value stored under `key` in a dictionary.
pub fn get<'a>(v: &'a BencodeValue, key: &Vec<u8>) -> (r: Option<&'a BencodeValue>)
    ensures
        match r {
            Some(x) => field(v@, key@) == Some(x@),
            None => field(v@, key@) is None,
        },
{
    match v {
        BencodeValue::Dictionary(entries) => {
            let ghost ev = entries_view(entries@);
            proof {
                crate::bencode::lemma_entries_view_facts(entries@);
                assert(ev.subrange(0, ev.len() as int) =~= ev);
            }
            let mut i: usize = 0;
            while i < entries.len()
                invariant
                    i <= entries.len(),
                    ev == entries_view(entries@),
                    v@ == BVal::Dict(ev),
                    ev.len() == entries.len(),
                    forall|t: int|
                        0 <= t < entries.len() ==> #[trigger] ev[t] == (
                            entries@[t].0@,
                            value_view(entries@[t].1),
                        ),
                    lookup(ev, key@) == lookup(ev.subrange(i as int, ev.len() as int), key@),
                decreases entries.len() - i,
            {
                let ghost rest = ev.subrange(i as int, ev.len() as int);
                assert(rest[0] == ev[i as int]);
                if bytes_equal(&entries[i].0, key) {
                    let x = &entries[i].1;
                    assert(rest[0].0 == key@);
                    assert(lookup(rest, key@) == Some(rest[0].1));
                    assert(rest[0].1 == x@);
                    return Some(x);
                }
                assert(rest.subrange(1, rest.len() as int) =~= ev.subrange(
                    i + 1,
                    ev.len() as int,
                ));
                i = i + 1;
            }
            None
        },
        _ => None,
    }
}

fn get_size(v: &BencodeValue, key: &Vec<u8>) -> (r: Option<usize>)
    ensures
        match r {
            Some(n) => size_field(v@, key@) == Some(n as int),
            None => size_field(v@, key@) is None,
        },
{
    match get(v, key) {
        Some(BencodeValue::Integer(n)) => {
            if *n >= 0 && (*n as u64) <= (usize::MAX as u64) {
                Some(*n as usize)
            } else {
                None
            }
        },
        _ => None,
    }
}

fn get_bytes(v: &BencodeValue, key: &Vec<u8>) -> (r: Option<Vec<u8>>)
    ensures
        match r {
            Some(b) => bytes_field(v@, key@) == Some(b@),
            None => bytes_field(v@, key@) is None,
        },
{
    match get(v, key) {
        Some(BencodeValue::ByteString(b)) => Some(bytes_range(b, 0, b.len())),
        _ => None,
    }
}

fn get_text(v: &BencodeValue, key: &Vec<u8>) -> (r: Option<String>)
    ensures
        match r {
            Some(s) => text_field(v@, key@) == Some(encode_utf8(s@)),
            None => text_field(v@, key@) is None,
        },
{
    match get_bytes(v, key) {
        Some(b) => utf8_to_string(b),
        None => None,
    }
}

/// Cuts `b` into 20-byte hashes.
fn split_hashes(b: &Vec<u8>) -> (r: Vec<[u8; 20]>)
    requires
        b.len() % 20 == 0,
    ensures
        concat_hashes(r@) == b@,
{
    let mut r: Vec<[u8; 20]> = Vec::new();
    let mut at: usize = 0;
    while at < b.len()
        invariant
            at <= b.len(),
            at % 20 == 0,
            b.len() % 20 == 0,
            concat_hashes(r@) == b@.subrange(0, at as int),
        decreases b.len() - at,
    {
        let mut h = [0u8; 20];
        let mut k: usize = 0;
        while k < 20
            invariant
                k <= 20,
                at + 20 <= b.len(),
                forall|t: int| 0 <= t < k ==> h@[t] == b@[at + t],
            decreases 20 - k,
        {
            h[k] = b[at + k];
            k = k + 1;
        }
        proof {
            assert(r@.push(h).subrange(0, r@.len() as int) =~= r@);
            assert(b@.subrange(0, at + 20) =~= b@.subrange(0, at as int) + h@);
        }
        r.push(h);
        at = at + 20;
    }
    assert(b@.subrange(0, at as int) =~= b@);
    r
}

/// Lays the hashes end to end.
fn join_hashes(h: &Vec<[u8; 20]>) -> (r: Vec<u8>)
    ensures
        r@ == concat_hashes(h@),
{
    let mut r: Vec<u8> = Vec::new();
    let mut i: usize = 0;
    while i < h.len()
        invariant
            i <= h.len(),
            r@ == concat_hashes(h@.subrange(0, i as int)),
        decreases h.len() - i,
    {
        let mut k: usize = 0;
        let ghost before = r@;
        while k < 20
            invariant
                k <= 20,
                i < h.len(),
                r@ == before + h@[i as int]@.subrange(0, k as int),
            decreases 20 - k,
        {
            r.push(h[i][k]);
            k = k + 1;
            assert(r@ =~= before + h@[i as int]@.subrange(0, k as int));
        }
        proof {
            assert(h@.subrange(0, i + 1).subrange(0, i as int) =~= h@.subrange(0, i as int));
            assert(h@[i as int]@.subrange(0, 20) =~= h@[i as int]@);
        }
        i = i + 1;
    }
    assert(h@.subrange(0, i as int) =~= h@);
    r
}

} // verus!

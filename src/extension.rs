use crate::bencode::{
    bytes_range, decode_at, encode_value, entries_view, parse_value, value_view, BVal,
    BencodeValue,
};
use crate::text::{string_bytes, utf8_to_string};
use crate::torrent::{field, get};
use vstd::array::array_fill_for_copy_types;
use vstd::prelude::*;
use vstd::utf8::{encode_utf8, valid_utf8};

verus! {

/// Extension names mapped to the numeric message ids that the sender assigned them.
#[derive(Debug, PartialEq, Eq)]
pub struct M {
    pub ut_metadata: u8,
    pub ut_pex: u8,
}

/// An address as raw bytes: four for IPv4, sixteen for IPv6.
#[derive(Debug, PartialEq, Eq)]
pub enum PeerIP {
    Ipv4([u8; 4]),
    Ipv6([u8; 16]),
}

/// The dictionary exchanged once per connection to negotiate extensions.
#[derive(Debug, PartialEq, Eq)]
pub struct ExtensionHandshake {
    pub m: M,
    /// Local TCP listen port.
    pub p: u8,
    pub metadata_size: u8,
    /// Client name and version.
    pub v: String,
    /// The address of the receiving peer as the sender sees it.
    pub yourip: PeerIP,
    pub ipv6: [u8; 16],
    pub ipv4: [u8; 4],
    /// Number of outstanding requests the sender accepts.
    pub reqq: u8,
}

pub open spec fn key_m() -> Seq<u8> {
    seq![109u8]
}

pub open spec fn key_p() -> Seq<u8> {
    seq![112u8]
}

pub open spec fn key_v() -> Seq<u8> {
    seq![118u8]
}

pub open spec fn key_metadata_size() -> Seq<u8> {
    seq![109u8, 101, 116, 97, 100, 97, 116, 97, 95, 115, 105, 122, 101]
}

pub open spec fn key_yourip() -> Seq<u8> {
    seq![121u8, 111, 117, 114, 105, 112]
}

pub open spec fn key_ipv6() -> Seq<u8> {
    seq![105u8, 112, 118, 54]
}

pub open spec fn key_ipv4() -> Seq<u8> {
    seq![105u8, 112, 118, 52]
}

pub open spec fn key_reqq() -> Seq<u8> {
    seq![114u8, 101, 113, 113]
}

pub open spec fn key_ut_metadata() -> Seq<u8> {
    seq![117u8, 116, 95, 109, 101, 116, 97, 100, 97, 116, 97]
}

pub open spec fn key_ut_pex() -> Seq<u8> {
    seq![117u8, 116, 95, 112, 101, 120]
}

/// A required integer field in `0..=255`.
pub open spec fn u8_field(v: BVal, key: Seq<u8>) -> Option<u8> {
    match field(v, key) {
        Some(BVal::Int(n)) => if 0 <= n <= 255 {
            Some(n as u8)
        } else {
            None
        },
        _ => None,
    }
}

/// An optional integer field in `0..=255`; absent means 0.
pub open spec fn opt_u8_field(v: BVal, key: Seq<u8>) -> Option<u8> {
    match field(v, key) {
        None => Some(0u8),
        Some(_) => u8_field(v, key),
    }
}

/// An optional UTF-8 text field; absent means empty.
pub open spec fn opt_text_field(v: BVal, key: Seq<u8>) -> Option<Seq<u8>> {
    match field(v, key) {
        None => Some(seq![]),
        Some(BVal::Bytes(b)) => if valid_utf8(b) {
            Some(b)
        } else {
            None
        },
        _ => None,
    }
}

/// An optional byte-string field of one of the allowed lengths; absent means `default`.
pub open spec fn opt_fixed_field(v: BVal, key: Seq<u8>, n1: nat, n2: nat, default: Seq<u8>) -> Option<
    Seq<u8>,
> {
    match field(v, key) {
        None => Some(default),
        Some(BVal::Bytes(b)) => if b.len() == n1 || b.len() == n2 {
            Some(b)
        } else {
            None
        },
        _ => None,
    }
}

pub open spec fn zeros(n: nat) -> Seq<u8> {
    Seq::new(n, |i: int| 0u8)
}

/// The raw bytes of an address.
pub open spec fn peer_ip_bytes(ip: PeerIP) -> Seq<u8> {
    match ip {
        PeerIP::Ipv4(a) => a@,
        PeerIP::Ipv6(a) => a@,
    }
}

/// The unspecified IPv6 address, `::`.
pub fn ipv6_default() -> (r: [u8; 16])
    ensures
        r@ == zeros(16),
{
    let r = [0u8; 16];
    assert(r@ =~= zeros(16));
    r
}

/// The unspecified IPv4 address, `0.0.0.0`.
pub fn ipv4_default() -> (r: [u8; 4])
    ensures
        r@ == zeros(4),
{
    let r = [0u8; 4];
    assert(r@ =~= zeros(4));
    r
}

/// The address assumed when a handshake gives none: the unspecified IPv4 address.
pub fn default_peer() -> (r: PeerIP)
    ensures
        r matches PeerIP::Ipv4(a) && a@ == zeros(4),
{
    PeerIP::Ipv4(ipv4_default())
}

/// An address of all zero bytes: the default, which is left out when written.
pub open spec fn is_unspecified(ip: PeerIP) -> bool {
    peer_ip_bytes(ip) == zeros(peer_ip_bytes(ip).len())
}

/// `v` is a handshake dictionary whose fields all have acceptable values.
pub open spec fn handshake_accepted(v: BVal) -> bool {
    &&& field(v, key_m()) matches Some(m) && u8_field(m, key_ut_metadata()) is Some
        && opt_u8_field(m, key_ut_pex()) is Some
    &&& opt_u8_field(v, key_p()) is Some
    &&& opt_u8_field(v, key_metadata_size()) is Some
    &&& opt_u8_field(v, key_reqq()) is Some
    &&& opt_text_field(v, key_v()) is Some
    &&& opt_fixed_field(v, key_yourip(), 4, 16, zeros(4)) is Some
    &&& opt_fixed_field(v, key_ipv6(), 16, 16, zeros(16)) is Some
    &&& opt_fixed_field(v, key_ipv4(), 4, 4, zeros(4)) is Some
}

/// Entry `(key, value)` when `present`, else nothing.
pub open spec fn entry_if(present: bool, key: Seq<u8>, value: BVal) -> Seq<(Seq<u8>, BVal)> {
    if present {
        seq![(key, value)]
    } else {
        seq![]
    }
}

impl M {
    pub open spec fn spec_value(&self) -> BVal {
        BVal::Dict(
            seq![(key_ut_metadata(), BVal::Int(self.ut_metadata as i64))] + entry_if(
                self.ut_pex != 0,
                key_ut_pex(),
                BVal::Int(self.ut_pex as i64),
            ),
        )
    }
}

impl ExtensionHandshake {
    /// This value holds what `v` says, with absent fields at their defaults.
    pub open spec fn read_from(&self, v: BVal) -> bool {
        &&& field(v, key_m()) matches Some(m) && u8_field(m, key_ut_metadata()) == Some(
            self.m.ut_metadata,
        ) && opt_u8_field(m, key_ut_pex()) == Some(self.m.ut_pex)
        &&& opt_u8_field(v, key_p()) == Some(self.p)
        &&& opt_u8_field(v, key_metadata_size()) == Some(self.metadata_size)
        &&& opt_u8_field(v, key_reqq()) == Some(self.reqq)
        &&& opt_text_field(v, key_v()) == Some(encode_utf8(self.v@))
        &&& opt_fixed_field(v, key_yourip(), 4, 16, zeros(4)) == Some(peer_ip_bytes(self.yourip))
        &&& opt_fixed_field(v, key_ipv6(), 16, 16, zeros(16)) == Some(self.ipv6@)
        &&& opt_fixed_field(v, key_ipv4(), 4, 4, zeros(4)) == Some(self.ipv4@)
    }

    /// The dictionary that describes this value: keys in sorted order, fields at their
    /// defaults left out.
    pub open spec fn spec_value(&self) -> BVal {
        BVal::Dict(
            entry_if(self.ipv4@ != zeros(4), key_ipv4(), BVal::Bytes(self.ipv4@)) + entry_if(
                self.ipv6@ != zeros(16),
                key_ipv6(),
                BVal::Bytes(self.ipv6@),
            ) + seq![(key_m(), self.m.spec_value())] + entry_if(
                self.metadata_size != 0,
                key_metadata_size(),
                BVal::Int(self.metadata_size as i64),
            ) + entry_if(self.p != 0, key_p(), BVal::Int(self.p as i64)) + entry_if(
                self.reqq != 0,
                key_reqq(),
                BVal::Int(self.reqq as i64),
            ) + entry_if(self.v@.len() != 0, key_v(), BVal::Bytes(encode_utf8(self.v@)))
                + entry_if(
                !is_unspecified(self.yourip),
                key_yourip(),
                BVal::Bytes(peer_ip_bytes(self.yourip)),
            ),
        )
    }

    /// Reads a handshake dictionary.
    pub fn from_bencode(v: &BencodeValue) -> (r: Option<ExtensionHandshake>)
        ensures
            match r {
                Some(h) => h.read_from(v@),
                None => !handshake_accepted(v@),
            },
    {
        let m_value = get(v, &key_bytes_m())?;
        let ut_metadata = get_u8(m_value, &key_bytes_ut_metadata())?;
        let ut_pex = get_opt_u8(m_value, &key_bytes_ut_pex())?;
        let p = get_opt_u8(v, &key_bytes_p())?;
        let metadata_size = get_opt_u8(v, &key_bytes_metadata_size())?;
        let reqq = get_opt_u8(v, &key_bytes_reqq())?;
        let text = get_opt_text(v, &key_bytes_v())?;
        let yourip_bytes = get_opt_fixed(v, &key_bytes_yourip(), 4, 16)?;
        let ipv6_bytes = get_opt_fixed(v, &key_bytes_ipv6(), 16, 16)?;
        let ipv4_bytes = get_opt_fixed(v, &key_bytes_ipv4(), 4, 4)?;
        let yourip = if yourip_bytes.len() == 4 {
            PeerIP::Ipv4(to_array::<4>(&yourip_bytes))
        } else {
            PeerIP::Ipv6(to_array::<16>(&yourip_bytes))
        };
        Some(
            ExtensionHandshake {
                m: M { ut_metadata, ut_pex },
                p,
                metadata_size,
                v: text,
                yourip,
                ipv6: to_array::<16>(&ipv6_bytes),
                ipv4: to_array::<4>(&ipv4_bytes),
                reqq,
            },
        )
    }
}

impl M {
    /// The dictionary that describes this value.
    pub fn to_bencode(&self) -> (r: BencodeValue)
        ensures
            r@ == self.spec_value(),
    {
        let mut entries: Vec<(Vec<u8>, BencodeValue)> = Vec::new();
        assert(entries_view(entries@) =~= Seq::<(Seq<u8>, BVal)>::empty());
        push_entry_if(
            &mut entries,
            true,
            key_bytes_ut_metadata(),
            BencodeValue::Integer(self.ut_metadata as i64),
        );
        push_entry_if(
            &mut entries,
            self.ut_pex != 0,
            key_bytes_ut_pex(),
            BencodeValue::Integer(self.ut_pex as i64),
        );
        let r = BencodeValue::Dictionary(entries);
        assert(r@ =~= self.spec_value());
        r
    }
}

impl ExtensionHandshake {
    /// The dictionary that describes this value: keys in sorted order, fields at their
    /// defaults left out.
    pub fn to_bencode(&self) -> (r: BencodeValue)
        ensures
            r@ == self.spec_value(),
    {
        let mut entries: Vec<(Vec<u8>, BencodeValue)> = Vec::new();
        let text = string_bytes(&self.v);
        let ip = match &self.yourip {
            PeerIP::Ipv4(a) => array_bytes(a),
            PeerIP::Ipv6(a) => array_bytes(a),
        };
        let ip_zero = is_zero_vec(&ip);
        proof {
            lemma_utf8_empty(self.v@);
            assert(entries_view(entries@) =~= Seq::<(Seq<u8>, BVal)>::empty());
        }
        push_entry_if(
            &mut entries,
            !is_zero_bytes(&self.ipv4),
            key_bytes_ipv4(),
            BencodeValue::ByteString(array_bytes(&self.ipv4)),
        );
        push_entry_if(
            &mut entries,
            !is_zero_bytes(&self.ipv6),
            key_bytes_ipv6(),
            BencodeValue::ByteString(array_bytes(&self.ipv6)),
        );
        push_entry_if(&mut entries, true, key_bytes_m(), self.m.to_bencode());
        push_entry_if(
            &mut entries,
            self.metadata_size != 0,
            key_bytes_metadata_size(),
            BencodeValue::Integer(self.metadata_size as i64),
        );
        push_entry_if(&mut entries, self.p != 0, key_bytes_p(), BencodeValue::Integer(self.p as i64));
        push_entry_if(
            &mut entries,
            self.reqq != 0,
            key_bytes_reqq(),
            BencodeValue::Integer(self.reqq as i64),
        );
        let has_text = text.len() != 0;
        push_entry_if(&mut entries, has_text, key_bytes_v(), BencodeValue::ByteString(text));
        push_entry_if(&mut entries, !ip_zero, key_bytes_yourip(), BencodeValue::ByteString(ip));
        let r = BencodeValue::Dictionary(entries);
        assert(r@ =~= self.spec_value());
        r
    }
}

/// Appends `(key, value)` when `present`.
fn push_entry_if(
    entries: &mut Vec<(Vec<u8>, BencodeValue)>,
    present: bool,
    key: Vec<u8>,
    value: BencodeValue,
)
    ensures
        entries_view(final(entries)@) == entries_view(old(entries)@) + entry_if(
            present,
            key@,
            value@,
        ),
{
    let ghost e = (key@, value@);
    if present {
        entries.push((key, value));
        assert(entries@.subrange(0, entries@.len() - 1) =~= old(entries)@);
    }
    assert(entries_view(entries@) =~= entries_view(old(entries)@) + entry_if(present, e.0, e.1));
}

proof fn lemma_utf8_empty(c: Seq<char>)
    ensures
        (encode_utf8(c).len() == 0) == (c.len() == 0),
{
    if c.len() > 0 {
        assert(vstd::utf8::encode_scalar(c[0] as u32).len() >= 1);
    }
}

fn is_zero_bytes<const N: usize>(a: &[u8; N]) -> (r: bool)
    ensures
        r == (a@ == zeros(N as nat)),
{
    let b = array_bytes(a);
    is_zero_vec(&b)
}

fn is_zero_vec(b: &Vec<u8>) -> (r: bool)
    ensures
        r == (b@ == zeros(b.len() as nat)),
{
    let mut i: usize = 0;
    while i < b.len()
        invariant
            i <= b.len(),
            forall|t: int| 0 <= t < i ==> b@[t] == 0,
        decreases b.len() - i,
    {
        if b[i] != 0 {
            assert(b@[i as int] != zeros(b.len() as nat)[i as int]);
            return false;
        }
        i = i + 1;
    }
    assert(b@ =~= zeros(b.len() as nat));
    true
}

/// The bytes of an array, as a vector.
pub fn array_bytes<const N: usize>(a: &[u8; N]) -> (r: Vec<u8>)
    ensures
        r@ == a@,
{
    vstd::slice::slice_to_vec(a.as_slice())
}

/// The bytes of `b`, as an array.
pub fn to_array<const N: usize>(b: &Vec<u8>) -> (r: [u8; N])
    requires
        b.len() == N,
    ensures
        r@ == b@,
{
    let mut a: [u8; N] = array_fill_for_copy_types(0u8);
    let mut i: usize = 0;
    while i < N
        invariant
            i <= N,
            b.len() == N,
            a@.len() == N,
            forall|t: int| 0 <= t < i ==> a@[t] == b@[t],
        decreases N - i,
    {
        a[i] = b[i];
        i = i + 1;
    }
    assert(a@ =~= b@);
    a
}

fn get_u8(v: &BencodeValue, key: &Vec<u8>) -> (r: Option<u8>)
    ensures
        r == u8_field(v@, key@),
{
    match get(v, key) {
        Some(BencodeValue::Integer(n)) => {
            if 0 <= *n && *n <= 255 {
                Some(*n as u8)
            } else {
                None
            }
        },
        _ => None,
    }
}

fn get_opt_u8(v: &BencodeValue, key: &Vec<u8>) -> (r: Option<u8>)
    ensures
        r == opt_u8_field(v@, key@),
{
    match get(v, key) {
        None => Some(0),
        Some(_) => get_u8(v, key),
    }
}

fn get_opt_text(v: &BencodeValue, key: &Vec<u8>) -> (r: Option<String>)
    ensures
        match r {
            Some(s) => opt_text_field(v@, key@) == Some(encode_utf8(s@)),
            None => opt_text_field(v@, key@) is None,
        },
{
    match get(v, key) {
        None => {
            let s = String::new();
            proof {
                lemma_utf8_empty(s@);
                assert(encode_utf8(s@) =~= Seq::<u8>::empty());
            }
            Some(s)
        },
        Some(BencodeValue::ByteString(b)) => {
            let copy = bytes_range(b, 0, b.len());
            assert(copy@ =~= b@);
            utf8_to_string(copy)
        },
        Some(_) => None,
    }
}

fn get_opt_fixed(v: &BencodeValue, key: &Vec<u8>, n1: usize, n2: usize) -> (r: Option<Vec<u8>>)
    ensures
        match r {
            Some(b) => opt_fixed_field(v@, key@, n1 as nat, n2 as nat, zeros(n1 as nat)) == Some(
                b@,
            ) && (b.len() == n1 || b.len() == n2),
            None => opt_fixed_field(v@, key@, n1 as nat, n2 as nat, zeros(n1 as nat)) is None,
        },
{
    match get(v, key) {
        None => {
            let mut z: Vec<u8> = Vec::new();
            let mut i: usize = 0;
            while i < n1
                invariant
                    i <= n1,
                    z@ == zeros(i as nat),
                decreases n1 - i,
            {
                z.push(0);
                i = i + 1;
                assert(z@ =~= zeros(i as nat));
            }
            Some(z)
        },
        Some(BencodeValue::ByteString(b)) => {
            if b.len() == n1 || b.len() == n2 {
                let copy = bytes_range(b, 0, b.len());
                assert(copy@ =~= b@);
                Some(copy)
            } else {
                None
            }
        },
        Some(_) => None,
    }
}

fn key_bytes_m() -> (r: Vec<u8>)
    ensures
        r@ == key_m(),
{
    let r = vec![109u8];
    assert(r@ =~= key_m());
    r
}

fn key_bytes_p() -> (r: Vec<u8>)
    ensures
        r@ == key_p(),
{
    let r = vec![112u8];
    assert(r@ =~= key_p());
    r
}

fn key_bytes_v() -> (r: Vec<u8>)
    ensures
        r@ == key_v(),
{
    let r = vec![118u8];
    assert(r@ =~= key_v());
    r
}

fn key_bytes_metadata_size() -> (r: Vec<u8>)
    ensures
        r@ == key_metadata_size(),
{
    let r = vec![109u8, 101, 116, 97, 100, 97, 116, 97, 95, 115, 105, 122, 101];
    assert(r@ =~= key_metadata_size());
    r
}

fn key_bytes_yourip() -> (r: Vec<u8>)
    ensures
        r@ == key_yourip(),
{
    let r = vec![121u8, 111, 117, 114, 105, 112];
    assert(r@ =~= key_yourip());
    r
}

fn key_bytes_ipv6() -> (r: Vec<u8>)
    ensures
        r@ == key_ipv6(),
{
    let r = vec![105u8, 112, 118, 54];
    assert(r@ =~= key_ipv6());
    r
}

fn key_bytes_ipv4() -> (r: Vec<u8>)
    ensures
        r@ == key_ipv4(),
{
    let r = vec![105u8, 112, 118, 52];
    assert(r@ =~= key_ipv4());
    r
}

fn key_bytes_reqq() -> (r: Vec<u8>)
    ensures
        r@ == key_reqq(),
{
    let r = vec![114u8, 101, 113, 113];
    assert(r@ =~= key_reqq());
    r
}

fn key_bytes_ut_metadata() -> (r: Vec<u8>)
    ensures
        r@ == key_ut_metadata(),
{
    let r = vec![117u8, 116, 95, 109, 101, 116, 97, 100, 97, 116, 97];
    assert(r@ =~= key_ut_metadata());
    r
}

fn key_bytes_ut_pex() -> (r: Vec<u8>)
    ensures
        r@ == key_ut_pex(),
{
    let r = vec![117u8, 116, 95, 112, 101, 120];
    assert(r@ =~= key_ut_pex());
    r
}

/// `{msg_type, piece}`: a request for a metadata chunk, or its refusal.
#[derive(Debug, PartialEq, Eq)]
pub struct MetaData {
    pub msg_type: u8,
    pub piece: u8,
}

/// `{msg_type, piece, total_size}`: the header in front of a metadata chunk.
#[derive(Debug, PartialEq, Eq)]
pub struct DataMetaData {
    pub msg_type: u8,
    pub piece: u8,
    pub total_size: u32,
}

/// A message of the metadata exchange.
#[derive(Debug, PartialEq, Eq)]
pub enum ExtensionMetadata {
    /// `msg_type` 0.
    Request(MetaData),
    /// `msg_type` 1, followed by the raw bytes of the chunk.
    Data(DataMetaData, Vec<u8>),
    /// `msg_type` 2.
    Reject(MetaData),
}

/// What an extension message carries.
#[derive(Debug, PartialEq, Eq)]
pub enum ExtensionType {
    ExtensionHandshakeMessage(ExtensionHandshake),
    MetaDataMessage(ExtensionMetadata),
}

/// An extension message: the id it is sent under, then its body.
#[derive(Debug, PartialEq, Eq)]
pub struct ExtensionPayload {
    /// 0 for the handshake; the negotiated id for metadata messages.
    pub extension_id: u8,
    pub payload: ExtensionType,
}

pub open spec fn key_msg_type() -> Seq<u8> {
    seq![109u8, 115, 103, 95, 116, 121, 112, 101]
}

pub open spec fn key_piece() -> Seq<u8> {
    seq![112u8, 105, 101, 99, 101]
}

pub open spec fn key_total_size() -> Seq<u8> {
    seq![116u8, 111, 116, 97, 108, 95, 115, 105, 122, 101]
}

/// A required integer field that fits in `u32`.
pub open spec fn u32_field(v: BVal, key: Seq<u8>) -> Option<u32> {
    match field(v, key) {
        Some(BVal::Int(n)) => if 0 <= n <= u32::MAX {
            Some(n as u32)
        } else {
            None
        },
        _ => None,
    }
}

/// The header dictionary of a metadata message, keys in sorted order.
pub open spec fn metadata_header(msg_type: u8, piece: u8, total_size: Option<u32>) -> BVal {
    BVal::Dict(
        seq![
            (key_msg_type(), BVal::Int(msg_type as i64)),
            (key_piece(), BVal::Int(piece as i64)),
        ] + match total_size {
            Some(t) => seq![(key_total_size(), BVal::Int(t as i64))],
            None => seq![],
        },
    )
}

impl ExtensionMetadata {
    /// The bytes of this message: its header, then for a data message the chunk.
    pub open spec fn spec_bytes(&self) -> Seq<u8> {
        match self {
            ExtensionMetadata::Request(m) => encode_value(metadata_header(m.msg_type, m.piece, None)),
            ExtensionMetadata::Reject(m) => encode_value(metadata_header(m.msg_type, m.piece, None)),
            ExtensionMetadata::Data(d, chunk) => encode_value(
                metadata_header(d.msg_type, d.piece, Some(d.total_size)),
            ) + chunk@,
        }
    }

    /// This message is what the bytes `s[start..]` say.
    pub open spec fn read_from(&self, s: Seq<u8>, start: int) -> bool {
        parse_value(s, start) matches Some((h, end)) && match self {
            ExtensionMetadata::Request(m) => m.msg_type == 0 && u8_field(h, key_msg_type()) == Some(
                0u8,
            ) && u8_field(h, key_piece()) == Some(m.piece) && end == s.len(),
            ExtensionMetadata::Reject(m) => m.msg_type == 2 && u8_field(h, key_msg_type()) == Some(
                2u8,
            ) && u8_field(h, key_piece()) == Some(m.piece) && end == s.len(),
            ExtensionMetadata::Data(d, chunk) => d.msg_type == 1 && u8_field(h, key_msg_type())
                == Some(1u8) && u8_field(h, key_piece()) == Some(d.piece) && u32_field(
                h,
                key_total_size(),
            ) == Some(d.total_size) && chunk@ == s.subrange(end, s.len() as int),
        }
    }

    /// The bytes of this message.
    pub fn to_vec(&self) -> (r: Vec<u8>)
        ensures
            r@ == self.spec_bytes(),
    {
        match self {
            ExtensionMetadata::Request(m) => metadata_header_value(m.msg_type, m.piece, None).encode(),
            ExtensionMetadata::Reject(m) => metadata_header_value(m.msg_type, m.piece, None).encode(),
            ExtensionMetadata::Data(d, chunk) => {
                let mut out = metadata_header_value(d.msg_type, d.piece, Some(d.total_size)).encode();
                let ghost head = out@;
                let mut i: usize = 0;
                while i < chunk.len()
                    invariant
                        i <= chunk.len(),
                        out@ == head + chunk@.subrange(0, i as int),
                    decreases chunk.len() - i,
                {
                    out.push(chunk[i]);
                    i = i + 1;
                    assert(out@ =~= head + chunk@.subrange(0, i as int));
                }
                assert(chunk@.subrange(0, i as int) =~= chunk@);
                out
            },
        }
    }
}

/// `s[start..]` is a metadata message: a header with an acceptable `msg_type` and
/// `piece`, nothing after a request or a refusal, and a `total_size` on a data message.
pub open spec fn metadata_accepted(s: Seq<u8>, start: int) -> bool {
    parse_value(s, start) matches Some((h, end)) && u8_field(h, key_piece()) is Some && match u8_field(
        h,
        key_msg_type(),
    ) {
        Some(t) => (t == 0 && end == s.len()) || (t == 2 && end == s.len()) || (t == 1 && u32_field(
            h,
            key_total_size(),
        ) is Some),
        None => false,
    }
}

/// Reads the metadata message held by `b[start..]`.
pub fn decode_metadata_message(b: &Vec<u8>, start: usize) -> (r: Option<ExtensionMetadata>)
    ensures
        match r {
            Some(m) => m.read_from(b@, start as int),
            None => !metadata_accepted(b@, start as int),
        },
{
    let (header, end) = match decode_at(b, start) {
        Ok(x) => x,
        Err(_) => {
            return None;
        },
    };
    let msg_type = get_u8(&header, &key_bytes_msg_type())?;
    let piece = get_u8(&header, &key_bytes_piece())?;
    if msg_type == 0 && end == b.len() {
        Some(ExtensionMetadata::Request(MetaData { msg_type, piece }))
    } else if msg_type == 2 && end == b.len() {
        Some(ExtensionMetadata::Reject(MetaData { msg_type, piece }))
    } else if msg_type == 1 {
        let total_size = get_u32(&header, &key_bytes_total_size())?;
        Some(
            ExtensionMetadata::Data(
                DataMetaData { msg_type, piece, total_size },
                bytes_range(b, end, b.len()),
            ),
        )
    } else {
        None
    }
}

impl ExtensionType {
    /// The bytes of the body.
    pub open spec fn spec_bytes(&self) -> Seq<u8> {
        match self {
            ExtensionType::ExtensionHandshakeMessage(h) => encode_value(h.spec_value()),
            ExtensionType::MetaDataMessage(m) => m.spec_bytes(),
        }
    }
}

impl ExtensionPayload {
    /// The bytes of this message: the id, then the body.
    pub open spec fn spec_bytes(&self) -> Seq<u8> {
        seq![self.extension_id] + self.payload.spec_bytes()
    }

    /// The bytes of this message: the id, then the body.
    pub fn to_vec(&self) -> (r: Vec<u8>)
        ensures
            r@ == self.spec_bytes(),
    {
        let mut a: Vec<u8> = Vec::new();
        a.push(self.extension_id);
        let body = match &self.payload {
            ExtensionType::ExtensionHandshakeMessage(h) => h.to_bencode().encode(),
            ExtensionType::MetaDataMessage(m) => m.to_vec(),
        };
        let ghost first = a@;
        let mut i: usize = 0;
        while i < body.len()
            invariant
                i <= body.len(),
                a@ == first + body@.subrange(0, i as int),
            decreases body.len() - i,
        {
            a.push(body[i]);
            i = i + 1;
            assert(a@ =~= first + body@.subrange(0, i as int));
        }
        assert(body@.subrange(0, i as int) =~= body@);
        assert(a@ =~= self.spec_bytes());
        a
    }
}

/// The header dictionary of a metadata message.
fn metadata_header_value(msg_type: u8, piece: u8, total_size: Option<u32>) -> (r: BencodeValue)
    ensures
        r@ == metadata_header(msg_type, piece, total_size),
{
    let mut entries: Vec<(Vec<u8>, BencodeValue)> = Vec::new();
    assert(entries_view(entries@) =~= Seq::<(Seq<u8>, BVal)>::empty());
    push_entry_if(&mut entries, true, key_bytes_msg_type(), BencodeValue::Integer(msg_type as i64));
    push_entry_if(&mut entries, true, key_bytes_piece(), BencodeValue::Integer(piece as i64));
    match total_size {
        Some(t) => {
            push_entry_if(&mut entries, true, key_bytes_total_size(), BencodeValue::Integer(t as i64));
        },
        None => {},
    }
    let r = BencodeValue::Dictionary(entries);
    assert(entries_view(entries@) =~= seq![
        (key_msg_type(), BVal::Int(msg_type as i64)),
        (key_piece(), BVal::Int(piece as i64)),
    ] + match total_size {
        Some(t) => seq![(key_total_size(), BVal::Int(t as i64))],
        None => Seq::<(Seq<u8>, BVal)>::empty(),
    });
    r
}

fn get_u32(v: &BencodeValue, key: &Vec<u8>) -> (r: Option<u32>)
    ensures
        r == u32_field(v@, key@),
{
    match get(v, key) {
        Some(BencodeValue::Integer(n)) => {
            if 0 <= *n && *n <= 4294967295 {
                Some(*n as u32)
            } else {
                None
            }
        },
        _ => None,
    }
}

fn key_bytes_msg_type() -> (r: Vec<u8>)
    ensures
        r@ == key_msg_type(),
{
    let r = vec![109u8, 115, 103, 95, 116, 121, 112, 101];
    assert(r@ =~= key_msg_type());
    r
}

fn key_bytes_piece() -> (r: Vec<u8>)
    ensures
        r@ == key_piece(),
{
    let r = vec![112u8, 105, 101, 99, 101];
    assert(r@ =~= key_piece());
    r
}

fn key_bytes_total_size() -> (r: Vec<u8>)
    ensures
        r@ == key_total_size(),
{
    let r = vec![116u8, 111, 116, 97, 108, 95, 115, 105, 122, 101];
    assert(r@ =~= key_total_size());
    r
}

} // verus!

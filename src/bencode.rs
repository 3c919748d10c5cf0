use vstd::prelude::*;
use vstd::slice::{slice_subrange, slice_to_vec};

verus! {

/// Abstract bencode value: what an encoded byte string denotes.
pub enum BVal {
    Int(i64),
    Bytes(Seq<u8>),
    List(Seq<BVal>),
    Dict(Seq<(Seq<u8>, BVal)>),
}

pub open spec fn is_digit(c: u8) -> bool {
    48 <= c <= 57
}

/// Decimal text of a natural number, most significant digit first.
pub open spec fn decimal(n: nat) -> Seq<u8>
    decreases n,
{
    if n < 10 {
        seq![(48 + n) as u8]
    } else {
        decimal(n / 10).push((48 + n % 10) as u8)
    }
}

/// Decimal text of an integer, with a leading `-` when negative.
pub open spec fn int_text(n: int) -> Seq<u8> {
    if n < 0 {
        seq![45u8] + decimal((-n) as nat)
    } else {
        decimal(n as nat)
    }
}

/// A byte string as `<length>:<bytes>`.
pub open spec fn encode_bytes(b: Seq<u8>) -> Seq<u8> {
    decimal(b.len()) + seq![58u8] + b
}

/// The bencoding of a value.
pub open spec fn encode_value(v: BVal) -> Seq<u8>
    decreases v,
{
    match v {
        BVal::Int(n) => seq![105u8] + int_text(n as int) + seq![101u8],
        BVal::Bytes(b) => encode_bytes(b),
        BVal::List(items) => seq![108u8] + encode_items(items) + seq![101u8],
        BVal::Dict(entries) => seq![100u8] + encode_entries(entries) + seq![101u8],
    }
}

/// The encodings of the items, one after the other.
pub open spec fn encode_items(items: Seq<BVal>) -> Seq<u8>
    decreases items,
{
    if items.len() == 0 {
        seq![]
    } else {
        encode_value(items[0]) + encode_items(items.subrange(1, items.len() as int))
    }
}

/// Each key, as a byte string, followed by its value.
pub open spec fn encode_entries(entries: Seq<(Seq<u8>, BVal)>) -> Seq<u8>
    decreases entries,
{
    if entries.len() == 0 {
        seq![]
    } else {
        encode_bytes(entries[0].0) + encode_value(entries[0].1) + encode_entries(
            entries.subrange(1, entries.len() as int),
        )
    }
}

/// First index at or after `i` whose byte is not a decimal digit (or the end of `s`).
pub open spec fn digits_end(s: Seq<u8>, i: int) -> int
    decreases s.len() - i,
{
    if i < 0 || i >= s.len() || !is_digit(s[i]) {
        i
    } else {
        digits_end(s, i + 1)
    }
}

/// Value of the decimal digits `s[i..j]`.
pub open spec fn digits_value(s: Seq<u8>, i: int, j: int) -> int
    decreases j - i,
{
    if j <= i {
        0
    } else {
        digits_value(s, i, j - 1) * 10 + (s[j - 1] - 48)
    }
}

/// An integer `i<decimal>e` starting at `i`, where `s[i]` is `i`.
pub open spec fn parse_int(s: Seq<u8>, i: int) -> Option<(BVal, int)> {
    let neg = i + 1 < s.len() && s[i + 1] == 45;
    let k = if neg {
        i + 2
    } else {
        i + 1
    };
    let e = digits_end(s, k);
    let mag = digits_value(s, k, e);
    let val = if neg {
        -mag
    } else {
        mag
    };
    if k < e < s.len() && s[e] == 101 && i64::MIN <= val <= i64::MAX {
        Some((BVal::Int(val as i64), e + 1))
    } else {
        None
    }
}

/// A byte string `<length>:<bytes>` starting at `i`, where `s[i]` is a digit.
pub open spec fn parse_bytes(s: Seq<u8>, i: int) -> Option<(BVal, int)> {
    let e = digits_end(s, i);
    let n = digits_value(s, i, e);
    if i < e < s.len() && s[e] == 58 && e + 1 + n <= s.len() {
        Some((BVal::Bytes(s.subrange(e + 1, e + 1 + n)), e + 1 + n))
    } else {
        None
    }
}

/// The value encoded at position `i` of `s`, with the position just past it.
pub open spec fn parse_value(s: Seq<u8>, i: int) -> Option<(BVal, int)>
    decreases s.len() - i, 0int,
{
    if i < 0 || i >= s.len() {
        None
    } else if s[i] == 105 {
        parse_int(s, i)
    } else if is_digit(s[i]) {
        parse_bytes(s, i)
    } else if s[i] == 108 {
        match parse_list(s, i + 1) {
            Some((items, j)) => Some((BVal::List(items), j)),
            None => None,
        }
    } else if s[i] == 100 {
        match parse_dict(s, i + 1) {
            Some((entries, j)) => Some((BVal::Dict(entries), j)),
            None => None,
        }
    } else {
        None
    }
}

/// The items of a list from position `j` up to and including its `e` terminator.
pub open spec fn parse_list(s: Seq<u8>, j: int) -> Option<(Seq<BVal>, int)>
    decreases s.len() - j, 1int,
{
    if j < 0 || j >= s.len() {
        None
    } else if s[j] == 101 {
        Some((seq![], j + 1))
    } else {
        match parse_value(s, j) {
            Some((v, k)) => if j < k <= s.len() {
                match parse_list(s, k) {
                    Some((rest, m)) => Some((seq![v] + rest, m)),
                    None => None,
                }
            } else {
                None
            },
            None => None,
        }
    }
}

/// The entries of a dictionary from position `j` up to and including its `e` terminator.
/// Every key must be a byte string.
pub open spec fn parse_dict(s: Seq<u8>, j: int) -> Option<(Seq<(Seq<u8>, BVal)>, int)>
    decreases s.len() - j, 1int,
{
    if j < 0 || j >= s.len() {
        None
    } else if s[j] == 101 {
        Some((seq![], j + 1))
    } else {
        match parse_value(s, j) {
            Some((BVal::Bytes(key), k)) => if j < k <= s.len() {
                match parse_value(s, k) {
                    Some((v, m)) => if k < m <= s.len() {
                        match parse_dict(s, m) {
                            Some((rest, n)) => Some((seq![(key, v)] + rest, n)),
                            None => None,
                        }
                    } else {
                        None
                    },
                    None => None,
                }
            } else {
                None
            },
            _ => None,
        }
    }
}

proof fn lemma_split(s: Seq<u8>, i: int, x: Seq<u8>, y: Seq<u8>)
    requires
        0 <= i,
        i + x.len() + y.len() <= s.len(),
        s.subrange(i, i + x.len() + y.len()) == x + y,
    ensures
        s.subrange(i, i + x.len()) == x,
        s.subrange(i + x.len(), i + x.len() + y.len()) == y,
{
    let w = s.subrange(i, i + x.len() + y.len());
    assert forall|t: int| 0 <= t < x.len() implies s[i + t] == x[t] by {
        assert(w[t] == s[i + t]);
        assert((x + y)[t] == x[t]);
    }
    assert forall|t: int| 0 <= t < y.len() implies s[i + x.len() + t] == y[t] by {
        assert(w[x.len() + t] == s[i + x.len() + t]);
        assert((x + y)[x.len() + t] == y[t]);
    }
    assert(s.subrange(i, i + x.len()) =~= x);
    assert(s.subrange(i + x.len(), i + x.len() + y.len()) =~= y);
}

proof fn lemma_decimal_digits(n: nat)
    ensures
        decimal(n).len() >= 1,
        forall|t: int| 0 <= t < decimal(n).len() ==> is_digit(#[trigger] decimal(n)[t]),
    decreases n,
{
    if n >= 10 {
        lemma_decimal_digits(n / 10);
    }
}

proof fn lemma_digits_end(s: Seq<u8>, k: int, m: int)
    requires
        0 <= k <= m <= s.len(),
        forall|t: int| k <= t < m ==> is_digit(#[trigger] s[t]),
        m == s.len() || !is_digit(s[m]),
    ensures
        digits_end(s, k) == m,
    decreases m - k,
{
    if k < m {
        lemma_digits_end(s, k + 1, m);
    }
}

/// Reading back the decimal text of `n`, placed at `k`, gives `n`.
proof fn lemma_decimal_value(n: nat, s: Seq<u8>, k: int)
    requires
        0 <= k,
        k + decimal(n).len() <= s.len(),
        s.subrange(k, k + decimal(n).len()) == decimal(n),
    ensures
        digits_value(s, k, k + decimal(n).len()) == n,
    decreases n,
{
    let d = decimal(n);
    if n < 10 {
        assert(s[k] == s.subrange(k, k + 1)[0]);
        assert(digits_value(s, k, k) == 0);
    } else {
        let h = decimal(n / 10);
        assert(d == h.push((48 + n % 10) as u8));
        assert(s.subrange(k, k + h.len()) =~= h) by {
            assert forall|t: int| 0 <= t < h.len() implies s.subrange(k, k + h.len())[t] == h[t] by {
                assert(s.subrange(k, k + d.len())[t] == d[t]);
            }
        }
        lemma_decimal_value(n / 10, s, k);
        assert(s[k + h.len()] == s.subrange(k, k + d.len())[h.len() as int]);
        assert(digits_value(s, k, k + d.len()) == digits_value(s, k, k + h.len()) * 10 + (s[k
            + h.len()] - 48));
    }
}

/// A number's decimal text, placed at `k` and followed by a non-digit, is read back whole.
proof fn lemma_read_decimal(n: nat, s: Seq<u8>, k: int)
    requires
        0 <= k,
        k + decimal(n).len() < s.len(),
        s.subrange(k, k + decimal(n).len()) == decimal(n),
        !is_digit(s[k + decimal(n).len()]),
    ensures
        digits_end(s, k) == k + decimal(n).len(),
        digits_value(s, k, k + decimal(n).len()) == n,
{
    let d = decimal(n);
    lemma_decimal_digits(n);
    assert forall|t: int| k <= t < k + d.len() implies is_digit(#[trigger] s[t]) by {
        assert(s.subrange(k, k + d.len())[t - k] == d[t - k]);
    }
    lemma_digits_end(s, k, k + d.len());
    lemma_decimal_value(n, s, k);
}

/// A value's encoding, found at position `i` of any buffer, decodes back to that value.
pub proof fn lemma_parse_encoded(v: BVal, s: Seq<u8>, i: int)
    requires
        0 <= i,
        i + encode_value(v).len() <= s.len(),
        s.subrange(i, i + encode_value(v).len()) == encode_value(v),
    ensures
        parse_value(s, i) == Some((v, i + encode_value(v).len())),
    decreases v, 0int,
{
    let enc = encode_value(v);
    assert(s[i] == s.subrange(i, i + enc.len())[0]);
    match v {
        BVal::Int(n) => {
            let t = int_text(n as int);
            assert(enc =~= seq![105u8] + (t + seq![101u8]));
            lemma_split(s, i, seq![105u8], t + seq![101u8]);
            lemma_split(s, i + 1, t, seq![101u8]);
            assert(s[i + 1 + t.len()] == s.subrange(i + 1 + t.len(), i + 2 + t.len())[0]);
            if n < 0 {
                let d = decimal((-n) as nat);
                lemma_split(s, i + 1, seq![45u8], d);
                assert(s[i + 1] == s.subrange(i + 1, i + 2)[0]);
                lemma_read_decimal((-n) as nat, s, i + 2);
            } else {
                let d = decimal(n as nat);
                lemma_decimal_digits(n as nat);
                assert(s[i + 1] == d[0]);
                lemma_read_decimal(n as nat, s, i + 1);
            }
        },
        BVal::Bytes(b) => {
            lemma_parse_encoded_bytes(b, s, i);
        },
        BVal::List(items) => {
            let body = encode_items(items);
            assert(enc =~= seq![108u8] + (body + seq![101u8]));
            lemma_split(s, i, seq![108u8], body + seq![101u8]);
            lemma_parse_items(items, s, i + 1);
        },
        BVal::Dict(entries) => {
            let body = encode_entries(entries);
            assert(enc =~= seq![100u8] + (body + seq![101u8]));
            lemma_split(s, i, seq![100u8], body + seq![101u8]);
            lemma_parse_entries(entries, s, i + 1);
        },
    }
}

proof fn lemma_parse_encoded_bytes(b: Seq<u8>, s: Seq<u8>, i: int)
    requires
        0 <= i,
        i + encode_value(BVal::Bytes(b)).len() <= s.len(),
        s.subrange(i, i + encode_value(BVal::Bytes(b)).len()) == encode_value(BVal::Bytes(b)),
    ensures
        parse_value(s, i) == Some((BVal::Bytes(b), i + encode_value(BVal::Bytes(b)).len())),
{
    let d = decimal(b.len());
    lemma_split(s, i, d + seq![58u8], b);
    lemma_split(s, i, d, seq![58u8]);
    assert(s[i + d.len()] == s.subrange(i + d.len(), i + d.len() + 1)[0]);
    lemma_decimal_digits(b.len());
    assert(s[i] == s.subrange(i, i + d.len())[0]);
    lemma_read_decimal(b.len(), s, i);
    assert(s.subrange(i + d.len() + 1, i + d.len() + 1 + b.len()) == b);
}

proof fn lemma_encoding_starts(v: BVal)
    ensures
        encode_value(v).len() >= 1,
        encode_value(v)[0] != 101,
{
    match v {
        BVal::Bytes(b) => {
            lemma_decimal_digits(b.len());
            assert(encode_value(v)[0] == decimal(b.len())[0]);
        },
        _ => {},
    }
}

proof fn lemma_parse_items(items: Seq<BVal>, s: Seq<u8>, j: int)
    requires
        0 <= j,
        j + encode_items(items).len() + 1 <= s.len(),
        s.subrange(j, j + encode_items(items).len() + 1) == encode_items(items) + seq![101u8],
    ensures
        parse_list(s, j) == Some((items, j + encode_items(items).len() + 1)),
    decreases items, 1int,
{
    let body = encode_items(items);
    if items.len() == 0 {
        assert(s[j] == s.subrange(j, j + 1)[0]);
        assert(items =~= seq![]);
    } else {
        let first = encode_value(items[0]);
        let tail = items.subrange(1, items.len() as int);
        let rest = encode_items(tail);
        assert(body + seq![101u8] == first + (rest + seq![101u8]));
        lemma_split(s, j, first, rest + seq![101u8]);
        lemma_encoding_starts(items[0]);
        assert(s[j] == s.subrange(j, j + first.len())[0]);
        lemma_parse_encoded(items[0], s, j);
        lemma_parse_items(tail, s, j + first.len());
        assert(seq![items[0]] + tail =~= items);
    }
}

proof fn lemma_parse_entries(entries: Seq<(Seq<u8>, BVal)>, s: Seq<u8>, j: int)
    requires
        0 <= j,
        j + encode_entries(entries).len() + 1 <= s.len(),
        s.subrange(j, j + encode_entries(entries).len() + 1) == encode_entries(entries) + seq![
            101u8,
        ],
    ensures
        parse_dict(s, j) == Some((entries, j + encode_entries(entries).len() + 1)),
    decreases entries, 1int,
{
    let body = encode_entries(entries);
    if entries.len() == 0 {
        assert(s[j] == s.subrange(j, j + 1)[0]);
        assert(entries =~= seq![]);
    } else {
        let key = encode_bytes(entries[0].0);
        assert(key == encode_value(BVal::Bytes(entries[0].0)));
        let val = encode_value(entries[0].1);
        let tail = entries.subrange(1, entries.len() as int);
        let rest = encode_entries(tail);
        assert(body + seq![101u8] == key + (val + (rest + seq![101u8])));
        lemma_split(s, j, key, val + (rest + seq![101u8]));
        lemma_split(s, j + key.len(), val, rest + seq![101u8]);
        lemma_encoding_starts(BVal::Bytes(entries[0].0));
        assert(s[j] == s.subrange(j, j + key.len())[0]);
        lemma_parse_encoded_bytes(entries[0].0, s, j);
        lemma_parse_encoded(entries[0].1, s, j + key.len());
        lemma_parse_entries(tail, s, j + key.len() + val.len());
        assert(seq![(entries[0].0, entries[0].1)] + tail =~= entries);
    }
}

/// Decoding the encoding of any value gives back that value and consumes the whole encoding.
pub proof fn lemma_round_trip(v: BVal)
    ensures
        parse_value(encode_value(v), 0) == Some((v, encode_value(v).len() as int)),
{
    let e = encode_value(v);
    assert(e.subrange(0, e.len() as int) =~= e);
    lemma_parse_encoded(v, e, 0);
}

/// A bencode value: an integer, a byte string, a list, or a dictionary whose
/// entries keep the order in which they were given.
#[derive(Debug, PartialEq, Eq)]
pub enum BencodeValue {
    Integer(i64),
    ByteString(Vec<u8>),
    List(Vec<BencodeValue>),
    Dictionary(Vec<(Vec<u8>, BencodeValue)>),
}

/// The input is not a well-formed bencoding.
#[derive(Debug, PartialEq, Eq, Clone, Copy)]
pub enum BencodeError {
    MalformedEncoding,
}

pub open spec fn value_view(v: BencodeValue) -> BVal
    decreases v,
{
    match v {
        BencodeValue::Integer(n) => BVal::Int(n),
        BencodeValue::ByteString(b) => BVal::Bytes(b@),
        BencodeValue::List(items) => BVal::List(items_view(items@)),
        BencodeValue::Dictionary(entries) => BVal::Dict(entries_view(entries@)),
    }
}

pub open spec fn items_view(s: Seq<BencodeValue>) -> Seq<BVal>
    decreases s,
{
    if s.len() == 0 {
        seq![]
    } else {
        items_view(s.subrange(0, s.len() - 1)).push(value_view(s[s.len() - 1]))
    }
}

pub open spec fn entries_view(s: Seq<(Vec<u8>, BencodeValue)>) -> Seq<(Seq<u8>, BVal)>
    decreases s,
{
    if s.len() == 0 {
        seq![]
    } else {
        entries_view(s.subrange(0, s.len() - 1)).push(
            (s[s.len() - 1].0@, value_view(s[s.len() - 1].1)),
        )
    }
}

impl View for BencodeValue {
    type V = BVal;

    open spec fn view(&self) -> BVal {
        value_view(*self)
    }
}

pub proof fn lemma_items_view_facts(s: Seq<BencodeValue>)
    ensures
        items_view(s).len() == s.len(),
        forall|i: int| 0 <= i < s.len() ==> #[trigger] items_view(s)[i] == value_view(s[i]),
    decreases s.len(),
{
    if s.len() > 0 {
        let p = s.subrange(0, s.len() - 1);
        lemma_items_view_facts(p);
        assert forall|i: int| 0 <= i < s.len() implies #[trigger] items_view(s)[i] == value_view(
            s[i],
        ) by {
            if i < s.len() - 1 {
                assert(p[i] == s[i]);
            }
        }
    }
}

pub proof fn lemma_entries_view_facts(s: Seq<(Vec<u8>, BencodeValue)>)
    ensures
        entries_view(s).len() == s.len(),
        forall|i: int|
            0 <= i < s.len() ==> #[trigger] entries_view(s)[i] == (s[i].0@, value_view(s[i].1)),
    decreases s.len(),
{
    if s.len() > 0 {
        let p = s.subrange(0, s.len() - 1);
        lemma_entries_view_facts(p);
        assert forall|i: int| 0 <= i < s.len() implies #[trigger] entries_view(s)[i] == (
            s[i].0@,
            value_view(s[i].1),
        ) by {
            if i < s.len() - 1 {
                assert(p[i] == s[i]);
            }
        }
    }
}

proof fn lemma_encode_items_push(items: Seq<BVal>, v: BVal)
    ensures
        encode_items(items.push(v)) == encode_items(items) + encode_value(v),
    decreases items.len(),
{
    let pushed = items.push(v);
    if items.len() == 0 {
        let rest = pushed.subrange(1, pushed.len() as int);
        assert(rest.len() == 0);
        assert(encode_items(rest) =~= Seq::<u8>::empty());
        assert(encode_items(pushed) =~= encode_value(v));
    } else {
        let tail = items.subrange(1, items.len() as int);
        lemma_encode_items_push(tail, v);
        assert(pushed.subrange(1, pushed.len() as int) =~= tail.push(v));
        assert(encode_items(pushed) =~= encode_items(items) + encode_value(v));
    }
}

proof fn lemma_encode_entries_push(entries: Seq<(Seq<u8>, BVal)>, e: (Seq<u8>, BVal))
    ensures
        encode_entries(entries.push(e)) == encode_entries(entries) + encode_bytes(e.0)
            + encode_value(e.1),
    decreases entries.len(),
{
    let pushed = entries.push(e);
    if entries.len() == 0 {
        let rest = pushed.subrange(1, pushed.len() as int);
        assert(rest.len() == 0);
        assert(encode_entries(rest) =~= Seq::<u8>::empty());
        assert(encode_entries(pushed) =~= encode_bytes(e.0) + encode_value(e.1));
    } else {
        let tail = entries.subrange(1, entries.len() as int);
        lemma_encode_entries_push(tail, e);
        assert(pushed.subrange(1, pushed.len() as int) =~= tail.push(e));
        assert(encode_entries(pushed) =~= encode_entries(entries) + encode_bytes(e.0)
            + encode_value(e.1));
    }
}

/// Appends the decimal text of `n`.
fn push_decimal(out: &mut Vec<u8>, n: u64)
    ensures
        final(out)@ == old(out)@ + decimal(n as nat),
    decreases n,
{
    if n >= 10 {
        push_decimal(out, n / 10);
    }
    out.push(48u8 + (n % 10) as u8);
    assert(out@ =~= old(out)@ + decimal(n as nat));
}

/// Appends every byte of `b`.
fn push_all(out: &mut Vec<u8>, b: &Vec<u8>)
    ensures
        final(out)@ == old(out)@ + b@,
{
    let mut i: usize = 0;
    while i < b.len()
        invariant
            i <= b.len(),
            out@ == old(out)@ + b@.subrange(0, i as int),
        decreases b.len() - i,
    {
        out.push(b[i]);
        i = i + 1;
        assert(out@ =~= old(out)@ + b@.subrange(0, i as int));
    }
    assert(b@.subrange(0, i as int) =~= b@);
}

/// Appends the byte string `b` as `<length>:<bytes>`.
fn push_byte_string(out: &mut Vec<u8>, b: &Vec<u8>)
    ensures
        final(out)@ == old(out)@ + encode_bytes(b@),
{
    push_decimal(out, b.len() as u64);
    out.push(58u8);
    push_all(out, b);
    assert(out@ =~= old(out)@ + encode_bytes(b@));
}

impl BencodeValue {
    /// Appends the encoding of this value.
    pub fn encode_into(&self, out: &mut Vec<u8>)
        ensures
            final(out)@ == old(out)@ + encode_value(self@),
        decreases self,
    {
        match self {
            BencodeValue::Integer(n) => {
                out.push(105u8);
                if *n < 0 {
                    out.push(45u8);
                    let m: u64 = (-(*n + 1)) as u64 + 1;
                    push_decimal(out, m);
                } else {
                    push_decimal(out, *n as u64);
                }
                out.push(101u8);
                assert(out@ =~= old(out)@ + encode_value(self@));
            },
            BencodeValue::ByteString(b) => {
                push_byte_string(out, b);
            },
            BencodeValue::List(items) => {
                out.push(108u8);
                let ghost start = out@;
                proof {
                    lemma_items_view_facts(items@);
                }
                let mut i: usize = 0;
                while i < items.len()
                    invariant
                        *self == BencodeValue::List(*items),
                        i <= items.len(),
                        items_view(items@).len() == items.len(),
                        forall|t: int|
                            0 <= t < items.len() ==> #[trigger] items_view(items@)[t]
                                == value_view(items@[t]),
                        out@ == start + encode_items(items_view(items@).subrange(0, i as int)),
                    decreases items.len() - i,
                {
                    let item = &items[i];
                    proof {
                        assert(decreases_to!(*self => self->List_0));
                        assert(decreases_to!(items => items[i as int]));
                    }
                    item.encode_into(out);
                    proof {
                        let done = items_view(items@).subrange(0, i as int);
                        lemma_encode_items_push(done, items[i as int]@);
                        assert(items_view(items@).subrange(0, i + 1) =~= done.push(
                            items[i as int]@,
                        ));
                    }
                    i = i + 1;
                }
                out.push(101u8);
                assert(items_view(items@).subrange(0, i as int) =~= items_view(items@));
                assert(out@ =~= old(out)@ + encode_value(self@));
            },
            BencodeValue::Dictionary(entries) => {
                out.push(100u8);
                let ghost start = out@;
                proof {
                    lemma_entries_view_facts(entries@);
                }
                let mut i: usize = 0;
                while i < entries.len()
                    invariant
                        *self == BencodeValue::Dictionary(*entries),
                        i <= entries.len(),
                        entries_view(entries@).len() == entries.len(),
                        forall|t: int|
                            0 <= t < entries.len() ==> #[trigger] entries_view(entries@)[t] == (
                                entries@[t].0@,
                                value_view(entries@[t].1),
                            ),
                        out@ == start + encode_entries(
                            entries_view(entries@).subrange(0, i as int),
                        ),
                    decreases entries.len() - i,
                {
                    let entry = &entries[i];
                    proof {
                        assert(decreases_to!(*self => self->Dictionary_0));
                        assert(decreases_to!(entries => entries[i as int]));
                        assert(decreases_to!(entries[i as int] => entries[i as int].1));
                    }
                    push_byte_string(out, &entry.0);
                    entry.1.encode_into(out);
                    proof {
                        let done = entries_view(entries@).subrange(0, i as int);
                        lemma_encode_entries_push(done, entries_view(entries@)[i as int]);
                        assert(entries_view(entries@).subrange(0, i + 1) =~= done.push(
                            entries_view(entries@)[i as int],
                        ));
                    }
                    i = i + 1;
                }
                out.push(101u8);
                assert(entries_view(entries@).subrange(0, i as int) =~= entries_view(entries@));
                assert(out@ =~= old(out)@ + encode_value(self@));
            },
        }
    }

    /// The bencoding of this value. Dictionary entries are written in the order they are
    /// held, without sorting: the dictionaries this library builds itself (info,
    /// extension handshake, metadata headers) hold their keys in sorted order already.
    pub fn encode(&self) -> (r: Vec<u8>)
        ensures
            r@ == encode_value(self@),
    {
        let mut out: Vec<u8> = Vec::new();
        self.encode_into(&mut out);
        assert(out@ =~= encode_value(self@));
        out
    }
}

proof fn lemma_digits_value_nonneg(s: Seq<u8>, i: int, j: int)
    requires
        0 <= i <= j <= s.len(),
        forall|t: int| i <= t < j ==> is_digit(#[trigger] s[t]),
    ensures
        digits_value(s, i, j) >= 0,
    decreases j - i,
{
    if j > i {
        lemma_digits_value_nonneg(s, i, j - 1);
    }
}

/// Reads the run of decimal digits that starts at `start`: where it ends, and its value
/// unless that exceeds `u64::MAX`.
fn scan_digits(b: &Vec<u8>, start: usize) -> (r: (usize, Option<u64>))
    requires
        start <= b.len(),
    ensures
        start <= r.0 <= b.len(),
        r.0 == digits_end(b@, start as int),
        digits_value(b@, start as int, r.0 as int) >= 0,
        match r.1 {
            Some(v) => v == digits_value(b@, start as int, r.0 as int),
            None => digits_value(b@, start as int, r.0 as int) > u64::MAX,
        },
{
    let mut j: usize = start;
    let mut acc: Option<u64> = Some(0);
    while j < b.len() && 48 <= b[j] && b[j] <= 57
        invariant
            start <= j <= b.len(),
            forall|t: int| start <= t < j ==> is_digit(#[trigger] b@[t]),
            digits_end(b@, start as int) == digits_end(b@, j as int),
            digits_value(b@, start as int, j as int) >= 0,
            match acc {
                Some(v) => v == digits_value(b@, start as int, j as int),
                None => digits_value(b@, start as int, j as int) > u64::MAX,
            },
        decreases b.len() - j,
    {
        let d: u64 = (b[j] - 48) as u64;
        acc = match acc {
            Some(v) => match v.checked_mul(10) {
                Some(w) => w.checked_add(d),
                None => None,
            },
            None => None,
        };
        j = j + 1;
        assert(digits_value(b@, start as int, j as int) == digits_value(
            b@,
            start as int,
            j - 1,
        ) * 10 + d);
    }
    (j, acc)
}

/// Decodes the integer that starts at `pos`, where `b[pos]` is `i`.
fn decode_int(b: &Vec<u8>, pos: usize) -> (r: Result<(BencodeValue, usize), BencodeError>)
    requires
        pos < b.len(),
        b@[pos as int] == 105,
    ensures
        match r {
            Ok((v, end)) => parse_int(b@, pos as int) == Some((v@, end as int)) && pos < end
                <= b.len(),
            Err(_) => parse_int(b@, pos as int) is None,
        },
{
    let neg = pos + 1 < b.len() && b[pos + 1] == 45;
    let k = if neg {
        pos + 2
    } else {
        pos + 1
    };
    let (e, mag) = scan_digits(b, k);
    if !(k < e && e < b.len() && b[e] == 101) {
        return Err(BencodeError::MalformedEncoding);
    }
    match mag {
        None => Err(BencodeError::MalformedEncoding),
        Some(m) => {
            if neg {
                if m < 9223372036854775808 {
                    Ok((BencodeValue::Integer(-(m as i64)), e + 1))
                } else if m == 9223372036854775808 {
                    Ok((BencodeValue::Integer(i64::MIN), e + 1))
                } else {
                    Err(BencodeError::MalformedEncoding)
                }
            } else if m <= 9223372036854775807 {
                Ok((BencodeValue::Integer(m as i64), e + 1))
            } else {
                Err(BencodeError::MalformedEncoding)
            }
        },
    }
}

/// The bytes `b[from..to]`.
pub fn bytes_range(b: &Vec<u8>, from: usize, to: usize) -> (r: Vec<u8>)
    requires
        from <= to <= b.len(),
    ensures
        r@ == b@.subrange(from as int, to as int),
{
    slice_to_vec(slice_subrange(b.as_slice(), from, to))
}

/// Decodes the byte string that starts at `pos`, where `b[pos]` is a digit.
fn decode_bytes(b: &Vec<u8>, pos: usize) -> (r: Result<(BencodeValue, usize), BencodeError>)
    requires
        pos < b.len(),
        is_digit(b@[pos as int]),
    ensures
        match r {
            Ok((v, end)) => parse_bytes(b@, pos as int) == Some((v@, end as int)) && pos < end
                <= b.len(),
            Err(_) => parse_bytes(b@, pos as int) is None,
        },
{
    let (e, len) = scan_digits(b, pos);
    if !(pos < e && e < b.len() && b[e] == 58) {
        return Err(BencodeError::MalformedEncoding);
    }
    match len {
        None => Err(BencodeError::MalformedEncoding),
        Some(n) => {
            if n <= (b.len() - (e + 1)) as u64 {
                let end = e + 1 + n as usize;
                Ok((BencodeValue::ByteString(bytes_range(b, e + 1, end)), end))
            } else {
                Err(BencodeError::MalformedEncoding)
            }
        },
    }
}

/// Decodes the value that starts at position `pos` of `b`; on success also gives the
/// position just past it, where the rest of the input begins.
pub fn decode_at(b: &Vec<u8>, pos: usize) -> (r: Result<(BencodeValue, usize), BencodeError>)
    ensures
        match r {
            Ok((v, end)) => parse_value(b@, pos as int) == Some((v@, end as int)) && pos < end
                <= b.len(),
            Err(_) => parse_value(b@, pos as int) is None,
        },
    decreases b.len() - pos,
{
    if pos >= b.len() {
        return Err(BencodeError::MalformedEncoding);
    }
    let c = b[pos];
    if c == 105 {
        decode_int(b, pos)
    } else if 48 <= c && c <= 57 {
        decode_bytes(b, pos)
    } else if c == 108 {
        let mut items: Vec<BencodeValue> = Vec::new();
        let mut j: usize = pos + 1;
        assert(items_view(items@) + Seq::<BVal>::empty() =~= Seq::<BVal>::empty());
        loop
            invariant
                pos < j <= b.len(),
                pos < b.len(),
                b@[pos as int] == 108,
                match parse_list(b@, j as int) {
                    Some((rest, m)) => parse_list(b@, pos + 1) == Some(
                        (items_view(items@) + rest, m),
                    ),
                    None => parse_list(b@, pos + 1) is None,
                },
            decreases b.len() - j,
        {
            if j >= b.len() {
                return Err(BencodeError::MalformedEncoding);
            }
            if b[j] == 101 {
                assert(items_view(items@) + Seq::<BVal>::empty() =~= items_view(items@));
                return Ok((BencodeValue::List(items), j + 1));
            }
            match decode_at(b, j) {
                Ok((v, k)) => {
                    proof {
                        let acc = items_view(items@);
                        assert(items@.push(v).subrange(0, items@.len() as int) =~= items@);
                        assert(items_view(items@.push(v)) == acc.push(v@));
                        match parse_list(b@, k as int) {
                            Some((rest, m)) => {
                                assert(acc.push(v@) + rest =~= acc + (seq![v@] + rest));
                            },
                            None => {},
                        }
                    }
                    items.push(v);
                    j = k;
                },
                Err(err) => {
                    return Err(err);
                },
            }
        }
    } else if c == 100 {
        let mut entries: Vec<(Vec<u8>, BencodeValue)> = Vec::new();
        let mut j: usize = pos + 1;
        assert(entries_view(entries@) + Seq::<(Seq<u8>, BVal)>::empty()
            =~= Seq::<(Seq<u8>, BVal)>::empty());
        loop
            invariant
                pos < j <= b.len(),
                pos < b.len(),
                b@[pos as int] == 100,
                match parse_dict(b@, j as int) {
                    Some((rest, m)) => parse_dict(b@, pos + 1) == Some(
                        (entries_view(entries@) + rest, m),
                    ),
                    None => parse_dict(b@, pos + 1) is None,
                },
            decreases b.len() - j,
        {
            if j >= b.len() {
                return Err(BencodeError::MalformedEncoding);
            }
            if b[j] == 101 {
                assert(entries_view(entries@) + Seq::<(Seq<u8>, BVal)>::empty() =~= entries_view(
                    entries@,
                ));
                return Ok((BencodeValue::Dictionary(entries), j + 1));
            }
            let (key, k) = match decode_at(b, j) {
                Ok((BencodeValue::ByteString(key), k)) => (key, k),
                Ok(_) => {
                    return Err(BencodeError::MalformedEncoding);
                },
                Err(err) => {
                    return Err(err);
                },
            };
            match decode_at(b, k) {
                Ok((v, m)) => {
                    proof {
                        let acc = entries_view(entries@);
                        let e = (key, v);
                        assert(entries@.push(e).subrange(0, entries@.len() as int) =~= entries@);
                        assert(entries_view(entries@.push(e)) == acc.push((key@, v@)));
                        match parse_dict(b@, m as int) {
                            Some((rest, n)) => {
                                assert(acc.push((key@, v@)) + rest =~= acc + (seq![(key@, v@)]
                                    + rest));
                            },
                            None => {},
                        }
                    }
                    entries.push((key, v));
                    j = m;
                },
                Err(err) => {
                    return Err(err);
                },
            }
        }
    } else {
        Err(BencodeError::MalformedEncoding)
    }
}

/// Decodes the value at the start of `encoded`. On success also gives the length of its
/// encoding: the rest of the input begins there.
pub fn decode_bencoded_value(encoded: &Vec<u8>) -> (r: Result<(BencodeValue, usize), BencodeError>)
    ensures
        match r {
            Ok((v, end)) => parse_value(encoded@, 0) == Some((v@, end as int)),
            Err(_) => parse_value(encoded@, 0) is None,
        },
{
    decode_at(encoded, 0)
}

/// Decodes an input that holds exactly one value and nothing after it.
pub fn decode_exact(encoded: &Vec<u8>) -> (r: Result<BencodeValue, BencodeError>)
    ensures
        match r {
            Ok(v) => parse_value(encoded@, 0) == Some((v@, encoded@.len() as int)),
            Err(_) => !(parse_value(encoded@, 0) matches Some((_, end)) && end
                == encoded@.len()),
        },
{
    match decode_at(encoded, 0) {
        Ok((v, end)) => {
            if end == encoded.len() {
                Ok(v)
            } else {
                Err(BencodeError::MalformedEncoding)
            }
        },
        Err(e) => Err(e),
    }
}

/// A byte string whose declared length runs past the end of the input is rejected.
pub proof fn lemma_rejects_short_string(s: Seq<u8>, i: int)
    requires
        0 <= i < s.len(),
        is_digit(s[i]),
        digits_end(s, i) < s.len(),
        s[digits_end(s, i)] == 58,
        digits_end(s, i) + 1 + digits_value(s, i, digits_end(s, i)) > s.len(),
    ensures
        parse_value(s, i) is None,
{
}

/// A dictionary whose first key decodes to something other than a byte string is rejected.
pub proof fn lemma_rejects_non_string_key(s: Seq<u8>, i: int)
    requires
        0 <= i,
        i + 1 < s.len(),
        s[i] == 100,
        s[i + 1] != 101,
        parse_value(s, i + 1) matches Some((key, _)) && !(key is Bytes),
    ensures
        parse_value(s, i) is None,
{
}

proof fn lemma_items_unterminated(items: Seq<BVal>, s: Seq<u8>, j: int)
    requires
        0 <= j <= s.len(),
        s.subrange(j, s.len() as int) == encode_items(items),
    ensures
        parse_list(s, j) is None,
    decreases items.len(),
{
    assert(s.subrange(j, s.len() as int).len() == s.len() - j);
    if items.len() > 0 {
        let first = encode_value(items[0]);
        let tail = items.subrange(1, items.len() as int);
        assert(j + first.len() + encode_items(tail).len() == s.len());
        lemma_split(s, j, first, encode_items(tail));
        lemma_encoding_starts(items[0]);
        assert(s[j] == s.subrange(j, j + first.len())[0]);
        lemma_parse_encoded(items[0], s, j);
        lemma_items_unterminated(tail, s, j + first.len());
    }
}

proof fn lemma_entries_unterminated(entries: Seq<(Seq<u8>, BVal)>, s: Seq<u8>, j: int)
    requires
        0 <= j <= s.len(),
        s.subrange(j, s.len() as int) == encode_entries(entries),
    ensures
        parse_dict(s, j) is None,
    decreases entries.len(),
{
    assert(s.subrange(j, s.len() as int).len() == s.len() - j);
    if entries.len() > 0 {
        let key = encode_bytes(entries[0].0);
        let val = encode_value(entries[0].1);
        let tail = entries.subrange(1, entries.len() as int);
        let rest = encode_entries(tail);
        assert(encode_entries(entries) == key + (val + rest));
        assert(j + key.len() + (val + rest).len() == s.len());
        lemma_split(s, j, key, val + rest);
        lemma_split(s, j + key.len(), val, rest);
        lemma_encoding_starts(BVal::Bytes(entries[0].0));
        assert(key == encode_value(BVal::Bytes(entries[0].0)));
        assert(s[j] == s.subrange(j, j + key.len())[0]);
        lemma_parse_encoded_bytes(entries[0].0, s, j);
        lemma_parse_encoded(entries[0].1, s, j + key.len());
        lemma_entries_unterminated(tail, s, j + key.len() + val.len());
    }
}

/// A list whose items are all present but whose terminator is missing is rejected.
pub proof fn lemma_rejects_unterminated_list(items: Seq<BVal>)
    ensures
        parse_value(seq![108u8] + encode_items(items), 0) is None,
{
    let s = seq![108u8] + encode_items(items);
    assert(s.subrange(1, s.len() as int) =~= encode_items(items));
    lemma_items_unterminated(items, s, 1);
}

/// A dictionary whose entries are all present but whose terminator is missing is rejected.
pub proof fn lemma_rejects_unterminated_dict(entries: Seq<(Seq<u8>, BVal)>)
    ensures
        parse_value(seq![100u8] + encode_entries(entries), 0) is None,
{
    let s = seq![100u8] + encode_entries(entries);
    assert(s.subrange(1, s.len() as int) =~= encode_entries(entries));
    lemma_entries_unterminated(entries, s, 1);
}

} // verus!

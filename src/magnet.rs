use crate::bencode::bytes_range;
use crate::error::MyError;
use crate::text::{string_bytes, utf8_to_string};
use vstd::prelude::*;
use vstd::utf8::{encode_utf8, valid_utf8};

verus! {

/// What a magnet link says: the tracker, the content's identifier, and a name.
#[derive(Debug, PartialEq, Eq)]
pub struct Magnet {
    pub url: String,
    /// The content's SHA-1 identifier, as 40 hexadecimal digits.
    pub info_hash: String,
    pub magnet_name: String,
}

/// The first position at or after `i` where `pat` occurs in `s`.
pub open spec fn find_from(s: Seq<u8>, pat: Seq<u8>, i: int) -> Option<int>
    decreases s.len() - i,
{
    if i < 0 || i + pat.len() > s.len() {
        None
    } else if s.subrange(i, i + pat.len()) == pat {
        Some(i)
    } else if i >= s.len() {
        None
    } else {
        find_from(s, pat, i + 1)
    }
}

pub open spec fn is_hex(c: u8) -> bool {
    (48 <= c <= 57) || (97 <= c <= 102) || (65 <= c <= 70)
}

pub open spec fn hex_value(c: u8) -> int {
    if 48 <= c <= 57 {
        c - 48
    } else if 97 <= c <= 102 {
        c - 87
    } else {
        c - 55
    }
}

/// Percent-decoding: `%` and two hexadecimal digits stand for that byte; every other
/// byte, `+` included, stands for itself.
pub open spec fn percent_decode(s: Seq<u8>) -> Seq<u8>
    decreases s.len(),
{
    if s.len() == 0 {
        seq![]
    } else if s[0] == 37 && s.len() >= 3 && is_hex(s[1]) && is_hex(s[2]) {
        seq![(hex_value(s[1]) * 16 + hex_value(s[2])) as u8] + percent_decode(
            s.subrange(3, s.len() as int),
        )
    } else {
        seq![s[0]] + percent_decode(s.subrange(1, s.len() as int))
    }
}

/// Relies on `urlencoding::decode_binary`: percent-decoding of the bytes.
#[verifier::external_body]
fn url_decode_bytes(b: &Vec<u8>) -> (r: Vec<u8>)
    ensures
        r@ == percent_decode(b@),
{
    urlencoding::decode_binary(b.as_slice()).into_owned()
}

/// `&tr=`
pub open spec fn pat_tracker() -> Seq<u8> {
    seq![38u8, 116, 114, 61]
}

/// `&dn=`
pub open spec fn pat_name() -> Seq<u8> {
    seq![38u8, 100, 110, 61]
}

/// `btih:`
pub open spec fn pat_hash() -> Seq<u8> {
    seq![98u8, 116, 105, 104, 58]
}

/// The three parts of a link, still encoded: the tracker part after the first `&tr=`;
/// before it, the name after the first `&dn=`; before that, the hash after the first
/// `btih:`.
pub open spec fn magnet_parts(s: Seq<u8>) -> Option<(Seq<u8>, Seq<u8>, Seq<u8>)> {
    match find_from(s, pat_tracker(), 0) {
        Some(t) => {
            let left = s.subrange(0, t);
            let url = s.subrange(t + 4, s.len() as int);
            match find_from(left, pat_name(), 0) {
                Some(d) => {
                    let front = left.subrange(0, d);
                    let name = left.subrange(d + 4, left.len() as int);
                    match find_from(front, pat_hash(), 0) {
                        Some(h) => Some((url, front.subrange(h + 5, front.len() as int), name)),
                        None => None,
                    }
                },
                None => None,
            }
        },
        None => None,
    }
}

/// The first position of `pat` in `s`.
fn find(s: &Vec<u8>, pat: &Vec<u8>) -> (r: Option<usize>)
    ensures
        match r {
            Some(i) => find_from(s@, pat@, 0) == Some(i as int) && i + pat@.len() <= s@.len(),
            None => find_from(s@, pat@, 0) is None,
        },
{
    if pat.len() > s.len() {
        return None;
    }
    let mut i: usize = 0;
    while i <= s.len() - pat.len()
        invariant
            pat.len() <= s.len(),
            i <= s.len(),
            find_from(s@, pat@, 0) == find_from(s@, pat@, i as int),
        decreases s.len() - i,
    {
        let mut k: usize = 0;
        let mut same = true;
        while k < pat.len()
            invariant
                k <= pat.len(),
                i + pat.len() <= s.len(),
                same == (forall|t: int| 0 <= t < k ==> s@[i + t] == pat@[t]),
            decreases pat.len() - k,
        {
            if s[i + k] != pat[k] {
                same = false;
            }
            k = k + 1;
        }
        if same {
            assert(s@.subrange(i as int, i + pat.len()) =~= pat@);
            return Some(i);
        }
        proof {
            let t = choose|t: int| 0 <= t < pat.len() && s@[i + t] != pat@[t];
            assert(s@.subrange(i as int, i + pat.len())[t] != pat@[t]);
        }
        i = i + 1;
    }
    None
}

impl Magnet {
    /// Reads a magnet link.
    pub fn new(magnet_link: &String) -> (r: Result<Magnet, MyError>)
        ensures
            match r {
                Ok(m) => magnet_parts(encode_utf8(magnet_link@)) matches Some((u, h, n))
                    && encode_utf8(m.url@) == percent_decode(u) && encode_utf8(m.info_hash@) == h
                    && encode_utf8(m.magnet_name@) == n,
                Err(e) => e == MyError::InvalidInput && !(magnet_parts(encode_utf8(magnet_link@)) matches Some((u, h, n))
                    && valid_utf8(percent_decode(u)) && valid_utf8(h) && valid_utf8(n)),
            },
    {
        let s = string_bytes(magnet_link);
        let tracker_pat = pattern(0);
        let name_pat = pattern(1);
        let hash_pat = pattern(2);
        assert(tracker_pat@.len() == 4 && name_pat@.len() == 4 && hash_pat@.len() == 5);
        let t = match find(&s, &tracker_pat) {
            Some(t) => t,
            None => {
                return Err(MyError::InvalidInput);
            },
        };
        let left = bytes_range(&s, 0, t);
        let url_raw = bytes_range(&s, t + 4, s.len());
        let d = match find(&left, &name_pat) {
            Some(d) => d,
            None => {
                return Err(MyError::InvalidInput);
            },
        };
        let front = bytes_range(&left, 0, d);
        let h = match find(&front, &hash_pat) {
            Some(h) => h,
            None => {
                return Err(MyError::InvalidInput);
            },
        };
        let url = match utf8_to_string(url_decode_bytes(&url_raw)) {
            Some(u) => u,
            None => {
                return Err(MyError::InvalidInput);
            },
        };
        let info_hash = match utf8_to_string(bytes_range(&front, h + 5, front.len())) {
            Some(x) => x,
            None => {
                return Err(MyError::InvalidInput);
            },
        };
        let magnet_name = match utf8_to_string(bytes_range(&left, d + 4, left.len())) {
            Some(x) => x,
            None => {
                return Err(MyError::InvalidInput);
            },
        };
        Ok(Magnet { url, info_hash, magnet_name })
    }

    /// The content's identifier as 20 bytes, read from its 40 hexadecimal digits.
    pub fn info_hash_to_slice(&self) -> (r: [u8; 20])
        requires
            encode_utf8(self.info_hash@).len() == 40,
            forall|i: int| 0 <= i < 40 ==> is_hex(#[trigger] encode_utf8(self.info_hash@)[i]),
        ensures
            forall|i: int|
                0 <= i < 20 ==> #[trigger] r@[i] == hex_value(encode_utf8(self.info_hash@)[2 * i])
                    * 16 + hex_value(encode_utf8(self.info_hash@)[2 * i + 1]),
    {
        let s = string_bytes(&self.info_hash);
        let mut a = [0u8; 20];
        let mut i: usize = 0;
        while i < 20
            invariant
                i <= 20,
                s@ == encode_utf8(self.info_hash@),
                s@.len() == 40,
                forall|j: int| 0 <= j < 40 ==> is_hex(#[trigger] s@[j]),
                forall|j: int|
                    0 <= j < i ==> #[trigger] a@[j] == hex_value(s@[2 * j]) * 16 + hex_value(
                        s@[2 * j + 1],
                    ),
            decreases 20 - i,
        {
            let hi = hex_digit_value(s[2 * i]);
            let lo = hex_digit_value(s[2 * i + 1]);
            a[i] = hi * 16 + lo;
            i = i + 1;
        }
        a
    }
}

/// The value of a hexadecimal digit.
fn hex_digit_value(c: u8) -> (r: u8)
    requires
        is_hex(c),
    ensures
        r == hex_value(c),
        r < 16,
{
    if 48 <= c && c <= 57 {
        c - 48
    } else if 97 <= c && c <= 102 {
        c - 87
    } else {
        c - 55
    }
}

/// The separators of a link: `&tr=`, `&dn=`, `btih:`.
fn pattern(which: u8) -> (r: Vec<u8>)
    requires
        which < 3,
    ensures
        which == 0 ==> r@ == pat_tracker(),
        which == 1 ==> r@ == pat_name(),
        which == 2 ==> r@ == pat_hash(),
{
    if which == 0 {
        let r = vec![38u8, 116, 114, 61];
        assert(r@ =~= pat_tracker());
        r
    } else if which == 1 {
        let r = vec![38u8, 100, 110, 61];
        assert(r@ =~= pat_name());
        r
    } else {
        let r = vec![98u8, 116, 105, 104, 58];
        assert(r@ =~= pat_hash());
        r
    }
}

} // verus!

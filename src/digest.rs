use sha1::Digest;
use vstd::prelude::*;

verus! {

/// The SHA-1 digest of a byte sequence.
pub uninterp spec fn sha1_of(data: Seq<u8>) -> Seq<u8>;

/// Relies on `sha1::Sha1::digest`: the 20-byte SHA-1 digest of `data`, which depends on
/// the bytes alone.
#[verifier::external_body]
pub(crate) fn sha1_digest(data: &Vec<u8>) -> (r: [u8; 20])
    ensures
        r@ == sha1_of(data@),
{
    let d = sha1::Sha1::digest(data.as_slice());
    let mut out = [0u8; 20];
    out.copy_from_slice(d.as_slice());
    out
}

/// Whether two digests are equal.
pub fn digest_equals(a: &[u8; 20], b: &[u8; 20]) -> (r: bool)
    ensures
        r == (a@ == b@),
{
    let mut i: usize = 0;
    while i < 20
        invariant
            i <= 20,
            a@.len() == 20,
            b@.len() == 20,
            forall|t: int| 0 <= t < i ==> a@[t] == b@[t],
        decreases 20 - i,
    {
        if a[i] != b[i] {
            return false;
        }
        i = i + 1;
    }
    assert(a@ =~= b@);
    true
}

} // verus!

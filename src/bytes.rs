use vstd::prelude::*;

verus! {

/// The big-endian number held by four bytes.
pub open spec fn be_u32(b0: u8, b1: u8, b2: u8, b3: u8) -> int {
    b0 * 16777216 + b1 * 65536 + b2 * 256 + b3
}

/// The four big-endian bytes of `x`.
pub open spec fn u32_be(x: u32) -> Seq<u8> {
    seq![(x / 16777216) as u8, ((x / 65536) % 256) as u8, ((x / 256) % 256) as u8, (x % 256) as u8]
}

/// Reads the big-endian `u32` stored at `b[at..at + 4]`.
pub fn read_u32_be(b: &Vec<u8>, at: usize) -> (r: u32)
    requires
        at + 4 <= b.len(),
    ensures
        r == be_u32(b@[at as int], b@[at + 1], b@[at + 2], b@[at + 3]),
{
    let x0 = b[at] as u32;
    let x1 = b[at + 1] as u32;
    let x2 = b[at + 2] as u32;
    let x3 = b[at + 3] as u32;
    x0 * 16777216 + x1 * 65536 + x2 * 256 + x3
}

/// Appends the four big-endian bytes of `x`.
pub fn push_u32_be(out: &mut Vec<u8>, x: u32)
    ensures
        final(out)@ == old(out)@ + u32_be(x),
{
    out.push((x / 16777216) as u8);
    out.push(((x / 65536) % 256) as u8);
    out.push(((x / 256) % 256) as u8);
    out.push((x % 256) as u8);
    assert(out@ =~= old(out)@ + u32_be(x));
}

/// Reading back the bytes of `x` gives `x`.
pub proof fn lemma_u32_be_round_trip(x: u32)
    ensures
        be_u32(u32_be(x)[0], u32_be(x)[1], u32_be(x)[2], u32_be(x)[3]) == x,
{
    let a = x / 16777216;
    let b = (x / 65536) % 256;
    let c = (x / 256) % 256;
    let d = x % 256;
    assert(x == a * 16777216 + b * 65536 + c * 256 + d) by (nonlinear_arith)
        requires
            a == x / 16777216,
            b == (x / 65536) % 256,
            c == (x / 256) % 256,
            d == x % 256,
            0 <= x,
    ;
}

/// Appends every byte of `data`.
pub fn append_bytes(out: &mut Vec<u8>, data: &Vec<u8>)
    ensures
        final(out)@ == old(out)@ + data@,
{
    let mut i: usize = 0;
    while i < data.len()
        invariant
            i <= data.len(),
            out@ == old(out)@ + data@.subrange(0, i as int),
        decreases data.len() - i,
    {
        out.push(data[i]);
        i = i + 1;
        assert(out@ =~= old(out)@ + data@.subrange(0, i as int));
    }
    assert(data@.subrange(0, i as int) =~= data@);
}

/// Whether two byte vectors hold the same bytes.
pub fn bytes_equal(a: &Vec<u8>, b: &Vec<u8>) -> (r: bool)
    ensures
        r == (a@ == b@),
{
    if a.len() != b.len() {
        return false;
    }
    let mut i: usize = 0;
    while i < a.len()
        invariant
            i <= a.len(),
            a.len() == b.len(),
            forall|t: int| 0 <= t < i ==> a@[t] == b@[t],
        decreases a.len() - i,
    {
        if a[i] != b[i] {
            return false;
        }
        i = i + 1;
    }
    assert(a@ =~= b@);
    true
}

} // verus!

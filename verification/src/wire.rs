//! Byte-level primitives shared by both protocol families: big-endian
//! integer fields, range copies, and byte-sequence comparison.

use vstd::prelude::*;

verus! {

/// Big-endian value of two bytes.
pub open spec fn be16(b0: u8, b1: u8) -> u16 {
    (((b0 as u16) << 8u16) | (b1 as u16)) as u16
}

/// Big-endian value of four bytes.
pub open spec fn be32(b0: u8, b1: u8, b2: u8, b3: u8) -> u32 {
    (((b0 as u32) << 24u32) | ((b1 as u32) << 16u32) | ((b2 as u32) << 8u32) | (b3 as u32)) as u32
}

/// Big-endian value of the four bytes of `s` starting at `i`.
pub open spec fn be32_at(s: Seq<u8>, i: int) -> u32 {
    be32(s[i], s[i + 1], s[i + 2], s[i + 3])
}

/// Big-endian value of the two bytes of `s` starting at `i`.
pub open spec fn be16_at(s: Seq<u8>, i: int) -> u16 {
    be16(s[i], s[i + 1])
}

/// The two big-endian bytes of a 16-bit value.
pub open spec fn u16_bytes(x: u16) -> Seq<u8> {
    seq![(x >> 8u16) as u8, (x & 0xffu16) as u8]
}

/// The four big-endian bytes of a 32-bit value.
pub open spec fn u32_bytes(x: u32) -> Seq<u8> {
    seq![
        (x >> 24u32) as u8,
        ((x >> 16u32) & 0xffu32) as u8,
        ((x >> 8u32) & 0xffu32) as u8,
        (x & 0xffu32) as u8,
    ]
}

/// A sequence of `n` zero bytes.
pub open spec fn zero_bytes(n: int) -> Seq<u8> {
    Seq::new(n as nat, |i: int| 0u8)
}

/// Reassembling the two bytes of a 16-bit value gives the value back.
pub proof fn lemma_be16_of_u16_bytes(x: u16)
    ensures
        be16(u16_bytes(x)[0], u16_bytes(x)[1]) == x,
{
    assert(((((x >> 8u16) as u8) as u16) << 8u16 | (((x & 0xffu16) as u8) as u16)) == x)
        by (bit_vector);
}

/// Reassembling the four bytes of a 32-bit value gives the value back.
pub proof fn lemma_be32_of_u32_bytes(x: u32)
    ensures
        be32(u32_bytes(x)[0], u32_bytes(x)[1], u32_bytes(x)[2], u32_bytes(x)[3]) == x,
{
    assert(((((x >> 24u32) as u8) as u32) << 24u32 | ((((x >> 16u32) & 0xffu32) as u8) as u32)
        << 16u32 | ((((x >> 8u32) & 0xffu32) as u8) as u32) << 8u32 | (((x & 0xffu32) as u8)
        as u32)) == x) by (bit_vector);
}

/// Read a big-endian 16-bit field.
pub fn read_u16(b: &Vec<u8>, i: usize) -> (r: u16)
    requires
        i + 2 <= b@.len(),
    ensures
        r == be16_at(b@, i as int),
{
    let _n = b.len();
    ((b[i] as u16) << 8u16) | (b[i + 1] as u16)
}

/// Read a big-endian 32-bit field.
pub fn read_u32(b: &Vec<u8>, i: usize) -> (r: u32)
    requires
        i + 4 <= b@.len(),
    ensures
        r == be32_at(b@, i as int),
{
    let _n = b.len();
    ((b[i] as u32) << 24u32) | ((b[i + 1] as u32) << 16u32) | ((b[i + 2] as u32) << 8u32) | (b[i
        + 3] as u32)
}

/// Append a big-endian 16-bit field.
pub fn push_u16(out: &mut Vec<u8>, x: u16)
    ensures
        final(out)@ == old(out)@ + u16_bytes(x),
{
    proof {
        assert((x >> 8u16) <= 0xff && (x & 0xffu16) <= 0xff) by (bit_vector);
    }
    out.push((x >> 8u16) as u8);
    out.push((x & 0xffu16) as u8);
    assert(out@ =~= old(out)@ + u16_bytes(x));
}

/// Append a big-endian 32-bit field.
pub fn push_u32(out: &mut Vec<u8>, x: u32)
    ensures
        final(out)@ == old(out)@ + u32_bytes(x),
{
    proof {
        assert((x >> 24u32) <= 0xff && ((x >> 16u32) & 0xffu32) <= 0xff && ((x >> 8u32) & 0xffu32)
            <= 0xff && (x & 0xffu32) <= 0xff) by (bit_vector);
    }
    out.push((x >> 24u32) as u8);
    out.push(((x >> 16u32) & 0xffu32) as u8);
    out.push(((x >> 8u32) & 0xffu32) as u8);
    out.push((x & 0xffu32) as u8);
    assert(out@ =~= old(out)@ + u32_bytes(x));
}

/// Append `n` zero bytes.
pub fn push_zeros(out: &mut Vec<u8>, n: usize)
    ensures
        final(out)@ == old(out)@ + zero_bytes(n as int),
{
    let mut k: usize = 0;
    while k < n
        invariant
            k <= n,
            out@ == old(out)@ + zero_bytes(k as int),
        decreases n - k,
    {
        out.push(0u8);
        assert(out@ =~= old(out)@ + zero_bytes(k as int + 1));
        k = k + 1;
    }
}

/// Append a copy of all of `src`.
pub fn push_bytes(out: &mut Vec<u8>, src: &Vec<u8>)
    ensures
        final(out)@ == old(out)@ + src@,
{
    let mut k: usize = 0;
    while k < src.len()
        invariant
            k <= src@.len(),
            out@ == old(out)@ + src@.take(k as int),
        decreases src@.len() - k,
    {
        out.push(src[k]);
        assert(out@ =~= old(out)@ + src@.take(k as int + 1));
        k = k + 1;
    }
    assert(src@.take(src@.len() as int) =~= src@);
}

/// Copy the bytes of `b` from `s` (inclusive) to `e` (exclusive).
pub fn copy_range(b: &Vec<u8>, s: usize, e: usize) -> (r: Vec<u8>)
    requires
        s <= e <= b@.len(),
    ensures
        r@ == b@.subrange(s as int, e as int),
{
    let mut r: Vec<u8> = Vec::new();
    let mut k: usize = s;
    while k < e
        invariant
            s <= k <= e <= b@.len(),
            r@ == b@.subrange(s as int, k as int),
        decreases e - k,
    {
        r.push(b[k]);
        assert(r@ =~= b@.subrange(s as int, k as int + 1));
        k = k + 1;
    }
    r
}

/// Whether two byte vectors hold the same bytes.
pub fn bytes_eq(a: &Vec<u8>, b: &Vec<u8>) -> (r: bool)
    ensures
        r == (a@ == b@),
{
    if a.len() != b.len() {
        assert(a@ != b@);
        return false;
    }
    let mut k: usize = 0;
    while k < a.len()
        invariant
            k <= a@.len(),
            a@.len() == b@.len(),
            forall|j: int| 0 <= j < k ==> a@[j] == b@[j],
        decreases a@.len() - k,
    {
        if a[k] != b[k] {
            return false;
        }
        k = k + 1;
    }
    assert(a@ =~= b@);
    true
}


/// Read a 16-byte address field.
pub fn read16(b: &Vec<u8>, i: usize) -> (r: [u8; 16])
    requires
        i + 16 <= b@.len(),
    ensures
        r@ == b@.subrange(i as int, i as int + 16),
{
    let _n = b.len();
    let r: [u8; 16] = [
        b[i],
        b[i + 1],
        b[i + 2],
        b[i + 3],
        b[i + 4],
        b[i + 5],
        b[i + 6],
        b[i + 7],
        b[i + 8],
        b[i + 9],
        b[i + 10],
        b[i + 11],
        b[i + 12],
        b[i + 13],
        b[i + 14],
        b[i + 15],
    ];
    assert(r@ =~= b@.subrange(i as int, i as int + 16));
    r
}


/// The separator-and-label tail of a joined domain name, from label `i` on.
pub open spec fn dot_labels(ls: Seq<Seq<u8>>, i: int) -> Seq<u8>
    decreases ls.len() - i,
{
    if i < 0 || i >= ls.len() {
        Seq::empty()
    } else {
        seq![46u8] + ls[i] + dot_labels(ls, i + 1)
    }
}

/// Labels joined with `.` into one domain name.
pub open spec fn join_labels(ls: Seq<Seq<u8>>) -> Seq<u8> {
    if ls.len() == 0 {
        Seq::empty()
    } else {
        ls[0] + dot_labels(ls, 1)
    }
}

} // verus!

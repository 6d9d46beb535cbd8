//! Fixed-width integers as byte sequences, in both byte orders.

use vstd::prelude::*;

verus! {

/// The four bytes of `x`, most significant first.
pub open spec fn be32(x: u32) -> Seq<u8> {
    seq![
        (x / 0x100_0000) as u8,
        ((x / 0x1_0000) % 0x100) as u8,
        ((x / 0x100) % 0x100) as u8,
        (x % 0x100) as u8,
    ]
}

/// The number whose big-endian bytes are the first four bytes of `b`.
pub open spec fn be32_value(b: Seq<u8>) -> u32
    recommends
        b.len() >= 4,
{
    (b[0] * 0x100_0000 + b[1] * 0x1_0000 + b[2] * 0x100 + b[3]) as u32
}

/// The two bytes of `x`, most significant first.
pub open spec fn be16(x: u16) -> Seq<u8> {
    seq![(x / 0x100) as u8, (x % 0x100) as u8]
}

/// The number whose big-endian bytes are the first two bytes of `b`.
pub open spec fn be16_value(b: Seq<u8>) -> u16
    recommends
        b.len() >= 2,
{
    (b[0] * 0x100 + b[1]) as u16
}

/// The eight bytes of `x`, most significant first.
pub open spec fn be64(x: u64) -> Seq<u8> {
    seq![
        (x / 0x100_0000_0000_0000) as u8,
        ((x / 0x1_0000_0000_0000) % 0x100) as u8,
        ((x / 0x100_0000_0000) % 0x100) as u8,
        ((x / 0x1_0000_0000) % 0x100) as u8,
        ((x / 0x100_0000) % 0x100) as u8,
        ((x / 0x1_0000) % 0x100) as u8,
        ((x / 0x100) % 0x100) as u8,
        (x % 0x100) as u8,
    ]
}

/// The four bytes of `x`, least significant first.
pub open spec fn le32(x: u32) -> Seq<u8> {
    seq![
        (x % 0x100) as u8,
        ((x / 0x100) % 0x100) as u8,
        ((x / 0x1_0000) % 0x100) as u8,
        (x / 0x100_0000) as u8,
    ]
}

/// The number whose little-endian bytes are the first four bytes of `b`.
pub open spec fn le32_value(b: Seq<u8>) -> u32
    recommends
        b.len() >= 4,
{
    (b[0] + b[1] * 0x100 + b[2] * 0x1_0000 + b[3] * 0x100_0000) as u32
}

/// Reading back what `be32` wrote gives the number again.
pub proof fn lemma_be32_roundtrip(x: u32)
    ensures
        be32(x).len() == 4,
        be32_value(be32(x)) == x,
{
}

/// Reading back what `be16` wrote gives the number again.
pub proof fn lemma_be16_roundtrip(x: u16)
    ensures
        be16(x).len() == 2,
        be16_value(be16(x)) == x,
{
}

/// Reading back what `le32` wrote gives the number again.
pub proof fn lemma_le32_roundtrip(x: u32)
    ensures
        le32(x).len() == 4,
        le32_value(le32(x)) == x,
{
}

/// Appends the big-endian bytes of `x` to `out`.
pub fn push_be32(out: &mut Vec<u8>, x: u32)
    ensures
        final(out)@ == old(out)@ + be32(x),
{
    out.push((x / 0x100_0000) as u8);
    out.push(((x / 0x1_0000) % 0x100) as u8);
    out.push(((x / 0x100) % 0x100) as u8);
    out.push((x % 0x100) as u8);
    assert(out@ =~= old(out)@ + be32(x));
}

/// Appends the big-endian bytes of `x` to `out`.
pub fn push_be16(out: &mut Vec<u8>, x: u16)
    ensures
        final(out)@ == old(out)@ + be16(x),
{
    out.push((x / 0x100) as u8);
    out.push((x % 0x100) as u8);
    assert(out@ =~= old(out)@ + be16(x));
}

/// Appends the big-endian bytes of `x` to `out`.
pub fn push_be64(out: &mut Vec<u8>, x: u64)
    ensures
        final(out)@ == old(out)@ + be64(x),
{
    out.push((x / 0x100_0000_0000_0000) as u8);
    out.push(((x / 0x1_0000_0000_0000) % 0x100) as u8);
    out.push(((x / 0x100_0000_0000) % 0x100) as u8);
    out.push(((x / 0x1_0000_0000) % 0x100) as u8);
    out.push(((x / 0x100_0000) % 0x100) as u8);
    out.push(((x / 0x1_0000) % 0x100) as u8);
    out.push(((x / 0x100) % 0x100) as u8);
    out.push((x % 0x100) as u8);
    assert(out@ =~= old(out)@ + be64(x));
}

/// Appends the little-endian bytes of `x` to `out`.
pub fn push_le32(out: &mut Vec<u8>, x: u32)
    ensures
        final(out)@ == old(out)@ + le32(x),
{
    out.push((x % 0x100) as u8);
    out.push(((x / 0x100) % 0x100) as u8);
    out.push(((x / 0x1_0000) % 0x100) as u8);
    out.push((x / 0x100_0000) as u8);
    assert(out@ =~= old(out)@ + le32(x));
}

/// Reads a big-endian `u32` at `at`.
pub fn read_be32(data: &[u8], at: usize) -> (x: u32)
    requires
        at + 4 <= data@.len(),
    ensures
        x == be32_value(data@.subrange(at as int, at + 4)),
{
    let b0: u32 = data[at] as u32;
    let b1: u32 = data[at + 1] as u32;
    let b2: u32 = data[at + 2] as u32;
    let b3: u32 = data[at + 3] as u32;
    b0 * 0x100_0000 + b1 * 0x1_0000 + b2 * 0x100 + b3
}

/// Reads a big-endian `u16` at `at`.
pub fn read_be16(data: &[u8], at: usize) -> (x: u16)
    requires
        at + 2 <= data@.len(),
    ensures
        x == be16_value(data@.subrange(at as int, at + 2)),
{
    let b0: u16 = data[at] as u16;
    let b1: u16 = data[at + 1] as u16;
    b0 * 0x100 + b1
}

/// Reads a little-endian `u32` at `at`.
pub fn read_le32(data: &[u8], at: usize) -> (x: u32)
    requires
        at + 4 <= data@.len(),
    ensures
        x == le32_value(data@.subrange(at as int, at + 4)),
{
    let b0: u32 = data[at] as u32;
    let b1: u32 = data[at + 1] as u32;
    let b2: u32 = data[at + 2] as u32;
    let b3: u32 = data[at + 3] as u32;
    b0 + b1 * 0x100 + b2 * 0x1_0000 + b3 * 0x100_0000
}

/// Appends a copy of `src` to `out`.
pub fn push_slice(out: &mut Vec<u8>, src: &[u8])
    ensures
        final(out)@ == old(out)@ + src@,
{
    let mut i: usize = 0;
    while i < src.len()
        invariant
            i <= src@.len(),
            out@ == old(out)@ + src@.subrange(0, i as int),
        decreases src@.len() - i,
    {
        out.push(src[i]);
        i += 1;
    }
    assert(src@.subrange(0, src@.len() as int) =~= src@);
}

/// A copy of `data[from..to]`.
pub fn copy_range(data: &[u8], from: usize, to: usize) -> (out: Vec<u8>)
    requires
        from <= to <= data@.len(),
    ensures
        out@ == data@.subrange(from as int, to as int),
{
    let mut out: Vec<u8> = Vec::new();
    let mut i: usize = from;
    while i < to
        invariant
            from <= i <= to <= data@.len(),
            out@ == data@.subrange(from as int, i as int),
        decreases to - i,
    {
        out.push(data[i]);
        i += 1;
    }
    out
}

/// Whether `a` and `b` hold the same bytes.
pub fn same_bytes(a: &[u8], b: &[u8]) -> (same: bool)
    ensures
        same == (a@ == b@),
{
    if a.len() != b.len() {
        return false;
    }
    let mut i: usize = 0;
    while i < a.len()
        invariant
            0 <= i <= a@.len(),
            a@.len() == b@.len(),
            forall|j: int| 0 <= j < i ==> a@[j] == b@[j],
        decreases a@.len() - i,
    {
        if a[i] != b[i] {
            return false;
        }
        i += 1;
    }
    assert(a@ =~= b@);
    true
}

/// A copy of `bytes`.
pub fn copy_bytes(bytes: &[u8]) -> (copy: Vec<u8>)
    ensures
        copy@ == bytes@,
{
    let copy = copy_range(bytes, 0, bytes.len());
    assert(copy@ =~= bytes@);
    copy
}

} // verus!

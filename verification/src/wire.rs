//! Big-endian encoding of fixed-width integers on byte sequences.
use vstd::prelude::*;

verus! {

/// The two bytes of `x`, most significant first.
pub open spec fn be16(x: u16) -> Seq<u8> {
    seq![(x >> 8) as u8, x as u8]
}

/// The four bytes of `x`, most significant first.
pub open spec fn be32(x: u32) -> Seq<u8> {
    seq![(x >> 24) as u8, (x >> 16) as u8, (x >> 8) as u8, x as u8]
}

/// The eight bytes of `x`, most significant first.
pub open spec fn be64(x: u64) -> Seq<u8> {
    seq![
        (x >> 56) as u8,
        (x >> 48) as u8,
        (x >> 40) as u8,
        (x >> 32) as u8,
        (x >> 24) as u8,
        (x >> 16) as u8,
        (x >> 8) as u8,
        x as u8,
    ]
}

/// The 16-bit value that bytes `s[i]`, `s[i + 1]` encode, most significant first.
pub open spec fn get_be16(s: Seq<u8>, i: int) -> u16 {
    (((s[i] as u16) << 8u16) | (s[i + 1] as u16)) as u16
}

/// The 32-bit value that bytes `s[i..i + 4]` encode, most significant first.
pub open spec fn get_be32(s: Seq<u8>, i: int) -> u32 {
    ((s[i] as u32) << 24u32) | ((s[i + 1] as u32) << 16u32) | ((s[i + 2] as u32) << 8u32) | (s[
        i + 3
    ] as u32)
}

/// The 64-bit value that bytes `s[i..i + 8]` encode, most significant first.
pub open spec fn get_be64(s: Seq<u8>, i: int) -> u64 {
    ((get_be32(s, i) as u64) << 32u64) | (get_be32(s, i + 4) as u64)
}

pub proof fn lemma_be16_roundtrip(x: u16, s: Seq<u8>, i: int)
    requires
        0 <= i,
        i + 2 <= s.len(),
        s.subrange(i, i + 2) == be16(x),
    ensures
        get_be16(s, i) == x,
{
    assert(s[i] == (x >> 8) as u8 && s[i + 1] == x as u8) by {
        assert(s[i] == s.subrange(i, i + 2)[0]);
        assert(s[i + 1] == s.subrange(i, i + 2)[1]);
    }
    let b0 = s[i];
    let b1 = s[i + 1];
    assert(b0 == (x >> 8) as u8 && b1 == x as u8 ==> (((b0 as u16) << 8u16) | (b1 as u16)) as u16
        == x) by (bit_vector);
}

pub proof fn lemma_be32_roundtrip(x: u32, s: Seq<u8>, i: int)
    requires
        0 <= i,
        i + 4 <= s.len(),
        s.subrange(i, i + 4) == be32(x),
    ensures
        get_be32(s, i) == x,
{
    let t = s.subrange(i, i + 4);
    assert(s[i] == t[0] && s[i + 1] == t[1] && s[i + 2] == t[2] && s[i + 3] == t[3]);
    let b0 = s[i];
    let b1 = s[i + 1];
    let b2 = s[i + 2];
    let b3 = s[i + 3];
    assert(b0 == (x >> 24) as u8 && b1 == (x >> 16) as u8 && b2 == (x >> 8) as u8 && b3 == x as u8
        ==> ((b0 as u32) << 24u32) | ((b1 as u32) << 16u32) | ((b2 as u32) << 8u32) | (b3 as u32)
        == x) by (bit_vector);
}

pub proof fn lemma_be64_roundtrip(x: u64, s: Seq<u8>, i: int)
    requires
        0 <= i,
        i + 8 <= s.len(),
        s.subrange(i, i + 8) == be64(x),
    ensures
        get_be64(s, i) == x,
{
    let t = s.subrange(i, i + 8);
    assert(t[0] == s[i] && t[1] == s[i + 1] && t[2] == s[i + 2] && t[3] == s[i + 3]);
    assert(t[4] == s[i + 4] && t[5] == s[i + 5] && t[6] == s[i + 6] && t[7] == s[i + 7]);
    let hi = (x >> 32) as u32;
    let lo = x as u32;
    assert((hi >> 24) as u8 == (x >> 56) as u8 && (hi >> 16) as u8 == (x >> 48) as u8 && (hi
        >> 8) as u8 == (x >> 40) as u8 && hi as u8 == (x >> 32) as u8) by (bit_vector)
        requires
            hi == (x >> 32) as u32,
    ;
    assert((lo >> 24) as u8 == (x >> 24) as u8 && (lo >> 16) as u8 == (x >> 16) as u8 && (lo
        >> 8) as u8 == (x >> 8) as u8 && lo as u8 == x as u8) by (bit_vector)
        requires
            lo == x as u32,
    ;
    assert(s.subrange(i, i + 4) == be32(hi));
    assert(s.subrange(i + 4, i + 8) == be32(lo));
    lemma_be32_roundtrip(hi, s, i);
    lemma_be32_roundtrip(lo, s, i + 4);
    assert(((hi as u64) << 32u64) | (lo as u64) == x) by (bit_vector)
        requires
            hi == (x >> 32) as u32,
            lo == x as u32,
    ;
}

/// Appends the big-endian bytes of `x`.
pub fn push_be16(out: &mut Vec<u8>, x: u16)
    ensures
        final(out)@ == old(out)@ + be16(x),
{
    out.push((x >> 8) as u8);
    out.push(x as u8);
}

/// Appends the big-endian bytes of `x`.
pub fn push_be32(out: &mut Vec<u8>, x: u32)
    ensures
        final(out)@ == old(out)@ + be32(x),
{
    out.push((x >> 24) as u8);
    out.push((x >> 16) as u8);
    out.push((x >> 8) as u8);
    out.push(x as u8);
}

/// Appends the big-endian bytes of `x`.
pub fn push_be64(out: &mut Vec<u8>, x: u64)
    ensures
        final(out)@ == old(out)@ + be64(x),
{
    out.push((x >> 56) as u8);
    out.push((x >> 48) as u8);
    out.push((x >> 40) as u8);
    out.push((x >> 32) as u8);
    out.push((x >> 24) as u8);
    out.push((x >> 16) as u8);
    out.push((x >> 8) as u8);
    out.push(x as u8);
}

/// Appends every byte of `bytes`.
pub fn push_all(out: &mut Vec<u8>, bytes: &[u8])
    ensures
        final(out)@ == old(out)@ + bytes@,
{
    let mut i: usize = 0;
    while i < bytes.len()
        invariant
            i <= bytes@.len(),
            out@ == old(out)@ + bytes@.subrange(0, i as int),
        decreases bytes@.len() - i,
    {
        out.push(bytes[i]);
        i += 1;
        assert(bytes@.subrange(0, i as int) == bytes@.subrange(0, i - 1) + seq![bytes@[i - 1]]);
    }
    assert(bytes@.subrange(0, bytes@.len() as int) == bytes@);
}

/// The 16-bit big-endian value at `buf[i..i + 2]`.
pub fn read_be16(buf: &[u8], i: usize) -> (r: u16)
    requires
        i + 2 <= buf@.len(),
    ensures
        r == get_be16(buf@, i as int),
{
    ((buf[i] as u16) << 8u16) | (buf[i + 1] as u16)
}

/// The 32-bit big-endian value at `buf[i..i + 4]`.
pub fn read_be32(buf: &[u8], i: usize) -> (r: u32)
    requires
        i + 4 <= buf@.len(),
    ensures
        r == get_be32(buf@, i as int),
{
    ((buf[i] as u32) << 24u32) | ((buf[i + 1] as u32) << 16u32) | ((buf[i + 2] as u32) << 8u32) | (
    buf[i + 3] as u32)
}

/// The 64-bit big-endian value at `buf[i..i + 8]`.
pub fn read_be64(buf: &[u8], i: usize) -> (r: u64)
    requires
        i + 8 <= buf@.len(),
    ensures
        r == get_be64(buf@, i as int),
{
    let _n = buf.len();
    let hi = read_be32(buf, i);
    let lo = ((buf[i + 4] as u32) << 24u32) | ((buf[i + 5] as u32) << 16u32) | ((buf[i + 6] as u32)
        << 8u32) | (buf[i + 7] as u32);
    ((hi as u64) << 32u64) | (lo as u64)
}

/// The 16-bit sequence number after `s`, wrapping from 65535 to 0.
pub open spec fn next_seq(s: u16) -> u16 {
    if s == 0xFFFF {
        0
    } else {
        (s + 1) as u16
    }
}

/// The 16-bit sequence number after `s`, wrapping from 65535 to 0.
pub fn seq_next(s: u16) -> (r: u16)
    ensures
        r == next_seq(s),
{
    if s == 0xFFFF {
        0
    } else {
        s + 1
    }
}

} // verus!

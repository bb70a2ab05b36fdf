//! Big-endian integer fields, as they stand in records, headers and frames.

use vstd::prelude::*;

verus! {

/// The two bytes of `x`, most significant first.
pub open spec fn be16(x: u16) -> Seq<u8> {
    seq![(x / 0x100) as u8, (x % 0x100) as u8]
}

/// The four bytes of `x`, most significant first.
pub open spec fn be32(x: u32) -> Seq<u8> {
    be16((x / 0x1_0000) as u16) + be16((x % 0x1_0000) as u16)
}

/// The eight bytes of `x`, most significant first.
pub open spec fn be64(x: u64) -> Seq<u8> {
    be32((x / 0x1_0000_0000) as u32) + be32((x % 0x1_0000_0000) as u32)
}

/// The number that two bytes spell, most significant first.
pub open spec fn be16_value(b: Seq<u8>) -> int
    recommends
        b.len() == 2,
{
    b[0] * 0x100 + b[1]
}

/// The number that four bytes spell, most significant first.
pub open spec fn be32_value(b: Seq<u8>) -> int
    recommends
        b.len() == 4,
{
    be16_value(b.subrange(0, 2)) * 0x1_0000 + be16_value(b.subrange(2, 4))
}

/// The number that eight bytes spell, most significant first.
pub open spec fn be64_value(b: Seq<u8>) -> int
    recommends
        b.len() == 8,
{
    be32_value(b.subrange(0, 4)) * 0x1_0000_0000 + be32_value(b.subrange(4, 8))
}

/// Reading back what `be16` wrote gives the number again, and writing what
/// was read gives the bytes again.
pub proof fn lemma_be16_roundtrip(x: u16, b: Seq<u8>)
    ensures
        be16(x).len() == 2,
        be16_value(be16(x)) == x,
        b.len() == 2 ==> 0 <= be16_value(b) <= u16::MAX && be16(be16_value(b) as u16) =~= b,
{
}

/// Reading back what `be32` wrote gives the number again, and writing what
/// was read gives the bytes again.
pub proof fn lemma_be32_roundtrip(x: u32, b: Seq<u8>)
    ensures
        be32(x).len() == 4,
        be32_value(be32(x)) == x,
        b.len() == 4 ==> 0 <= be32_value(b) <= u32::MAX && be32(be32_value(b) as u32) =~= b,
{
    let hi = (x / 0x1_0000) as u16;
    let lo = (x % 0x1_0000) as u16;
    lemma_be16_roundtrip(hi, b.subrange(0, 2));
    lemma_be16_roundtrip(lo, b.subrange(2, 4));
    assert(be32(x).subrange(0, 2) =~= be16(hi));
    assert(be32(x).subrange(2, 4) =~= be16(lo));
    if b.len() == 4 {
        let vh = be16_value(b.subrange(0, 2));
        let vl = be16_value(b.subrange(2, 4));
        let v = be32_value(b);
        assert(v / 0x1_0000 == vh && v % 0x1_0000 == vl);
        assert(be32(v as u32) =~= b.subrange(0, 2) + b.subrange(2, 4));
    }
}

/// Reading back what `be64` wrote gives the number again, and writing what
/// was read gives the bytes again.
pub proof fn lemma_be64_roundtrip(x: u64, b: Seq<u8>)
    ensures
        be64(x).len() == 8,
        be64_value(be64(x)) == x,
        b.len() == 8 ==> 0 <= be64_value(b) <= u64::MAX && be64(be64_value(b) as u64) =~= b,
{
    let hi = (x / 0x1_0000_0000) as u32;
    let lo = (x % 0x1_0000_0000) as u32;
    lemma_be32_roundtrip(hi, b.subrange(0, 4));
    lemma_be32_roundtrip(lo, b.subrange(4, 8));
    assert(be64(x).subrange(0, 4) =~= be32(hi));
    assert(be64(x).subrange(4, 8) =~= be32(lo));
    if b.len() == 8 {
        let vh = be32_value(b.subrange(0, 4));
        let vl = be32_value(b.subrange(4, 8));
        let v = be64_value(b);
        assert(v / 0x1_0000_0000 == vh && v % 0x1_0000_0000 == vl);
        assert(be64(v as u64) =~= b.subrange(0, 4) + b.subrange(4, 8));
    }
}

/// Appends the two bytes of `x` to `out`.
pub fn push_be16(out: &mut Vec<u8>, x: u16)
    ensures
        final(out)@ == old(out)@ + be16(x),
{
    out.push((x / 0x100) as u8);
    out.push((x % 0x100) as u8);
    assert(out@ =~= old(out)@ + be16(x));
}

/// Appends the four bytes of `x` to `out`.
pub fn push_be32(out: &mut Vec<u8>, x: u32)
    ensures
        final(out)@ == old(out)@ + be32(x),
{
    push_be16(out, (x / 0x1_0000) as u16);
    push_be16(out, (x % 0x1_0000) as u16);
    assert(out@ =~= old(out)@ + be32(x));
}

/// Appends the eight bytes of `x` to `out`.
pub fn push_be64(out: &mut Vec<u8>, x: u64)
    ensures
        final(out)@ == old(out)@ + be64(x),
{
    push_be32(out, (x / 0x1_0000_0000) as u32);
    push_be32(out, (x % 0x1_0000_0000) as u32);
    assert(out@ =~= old(out)@ + be64(x));
}

/// Reads the two bytes at `at` as a number.
pub fn read_be16(bytes: &[u8], at: usize) -> (x: u16)
    requires
        at + 2 <= bytes@.len(),
    ensures
        x == be16_value(bytes@.subrange(at as int, at + 2)),
{
    let hi: u16 = bytes[at] as u16;
    let lo: u16 = bytes[at + 1] as u16;
    hi * 0x100 + lo
}

/// Reads the four bytes at `at` as a number.
pub fn read_be32(bytes: &[u8], at: usize) -> (x: u32)
    requires
        at + 4 <= bytes@.len(),
    ensures
        x == be32_value(bytes@.subrange(at as int, at + 4)),
{
    assert(at + 4 <= usize::MAX) by {
        vstd::slice::axiom_spec_len(bytes);
    }
    let hi: u32 = read_be16(bytes, at) as u32;
    let lo: u32 = read_be16(bytes, at + 2) as u32;
    proof {
        let b = bytes@.subrange(at as int, at + 4);
        assert(b.subrange(0, 2) =~= bytes@.subrange(at as int, at + 2));
        assert(b.subrange(2, 4) =~= bytes@.subrange(at + 2, at + 4));
    }
    hi * 0x1_0000 + lo
}

/// Reads the eight bytes at `at` as a number.
pub fn read_be64(bytes: &[u8], at: usize) -> (x: u64)
    requires
        at + 8 <= bytes@.len(),
    ensures
        x == be64_value(bytes@.subrange(at as int, at + 8)),
{
    assert(at + 8 <= usize::MAX) by {
        vstd::slice::axiom_spec_len(bytes);
    }
    let hi: u64 = read_be32(bytes, at) as u64;
    let lo: u64 = read_be32(bytes, at + 4) as u64;
    proof {
        let b = bytes@.subrange(at as int, at + 8);
        assert(b.subrange(0, 4) =~= bytes@.subrange(at as int, at + 4));
        assert(b.subrange(4, 8) =~= bytes@.subrange(at + 4, at + 8));
    }
    hi * 0x1_0000_0000 + lo
}

} // verus!

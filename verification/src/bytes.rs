//! Little-endian integer fields: the encodings written by the macro payload
//! and the zip records, and the lemmas that reading one back gives the value.

use vstd::prelude::*;

verus! {

/// Two little-endian bytes of `v`.
pub open spec fn le16(v: u16) -> Seq<u8> {
    seq![(v % 256) as u8, (v / 256) as u8]
}

/// Four little-endian bytes of `v`.
pub open spec fn le32(v: u32) -> Seq<u8> {
    seq![
        (v % 256) as u8,
        ((v / 256) % 256) as u8,
        ((v / 65536) % 256) as u8,
        (v / 16777216) as u8,
    ]
}

/// The `u16` stored little-endian at `b[i..i + 2]`.
pub open spec fn get16(b: Seq<u8>, i: int) -> u16 {
    (b[i] + b[i + 1] * 256) as u16
}

/// The `u32` stored little-endian at `b[i..i + 4]`.
pub open spec fn get32(b: Seq<u8>, i: int) -> u32 {
    (b[i] + b[i + 1] * 256 + b[i + 2] * 65536 + b[i + 3] * 16777216) as u32
}

/// The `i64` stored little-endian at `b[i..i + 8]`.
pub open spec fn get_i64(b: Seq<u8>, i: int) -> i64 {
    let u = get32(b, i) + get32(b, i + 4) * 0x1_0000_0000int;
    if u >= 0x8000_0000_0000_0000 {
        (u - 0x1_0000_0000_0000_0000) as i64
    } else {
        u as i64
    }
}

/// Read the `i64` stored little-endian at `b[i..i + 8]`.
pub fn read_i64(b: &[u8], i: usize) -> (r: i64)
    requires
        i + 8 <= b@.len(),
    ensures
        r == get_i64(b@, i as int),
{
    let lo = b[i] as u64 + b[i + 1] as u64 * 256 + b[i + 2] as u64 * 65536 + b[i + 3] as u64 * 16777216;
    let hi = b[i + 4] as u64 + b[i + 5] as u64 * 256 + b[i + 6] as u64 * 65536 + b[i + 7] as u64
        * 16777216;
    let u = lo + hi * 0x1_0000_0000;
    if u >= 0x8000_0000_0000_0000 {
        let m = u - 0x8000_0000_0000_0000;
        (m as i64) - 0x4000_0000_0000_0000 - 0x4000_0000_0000_0000
    } else {
        u as i64
    }
}

/// Two's-complement bit pattern of an `i32`.
pub open spec fn i32_bits(v: i32) -> u32 {
    if v < 0 {
        (v + 0x1_0000_0000) as u32
    } else {
        v as u32
    }
}

/// The `i32` whose bit pattern is `u`.
pub open spec fn i32_of_bits(u: u32) -> i32 {
    if u >= 0x8000_0000 {
        (u - 0x1_0000_0000) as i32
    } else {
        u as i32
    }
}

pub proof fn lemma_i32_bits(v: i32)
    ensures
        i32_of_bits(i32_bits(v)) == v,
{
}

/// Reading two bytes at `p.len()` of `p + le16(v) + s` gives `v`.
pub proof fn lemma_get16(p: Seq<u8>, v: u16, s: Seq<u8>)
    ensures
        get16(p + le16(v) + s, p.len() as int) == v,
{
    let b = p + le16(v) + s;
    assert(b[p.len() as int] == (v % 256) as u8);
    assert(b[p.len() as int + 1] == (v / 256) as u8);
}

/// Reading four bytes at `p.len()` of `p + le32(v) + s` gives `v`.
pub proof fn lemma_get32(p: Seq<u8>, v: u32, s: Seq<u8>)
    ensures
        get32(p + le32(v) + s, p.len() as int) == v,
{
    let b = p + le32(v) + s;
    let n = p.len() as int;
    assert(b[n] == (v % 256) as u8);
    assert(b[n + 1] == ((v / 256) % 256) as u8);
    assert(b[n + 2] == ((v / 65536) % 256) as u8);
    assert(b[n + 3] == (v / 16777216) as u8);
    let a = v % 256;
    let q1 = v / 256;
    let c = q1 % 256;
    let q2 = v / 65536;
    let d = q2 % 256;
    let e = v / 16777216;
    assert(v == a + q1 * 256);
    assert(q2 == q1 / 256);
    assert(q1 == c + q2 * 256);
    assert(e == q2 / 256);
    assert(q2 == d + e * 256);
}

/// Append `le16(v)`.
pub fn push_le16(out: &mut Vec<u8>, v: u16)
    ensures
        final(out)@ == old(out)@ + le16(v),
{
    out.push((v % 256) as u8);
    out.push((v / 256) as u8);
    assert(final(out)@ =~= old(out)@ + le16(v));
}

/// Append `le32(v)`.
pub fn push_le32(out: &mut Vec<u8>, v: u32)
    ensures
        final(out)@ == old(out)@ + le32(v),
{
    out.push((v % 256) as u8);
    out.push(((v / 256) % 256) as u8);
    out.push(((v / 65536) % 256) as u8);
    out.push((v / 16777216) as u8);
    assert(final(out)@ =~= old(out)@ + le32(v));
}

/// Append all of `data`.
pub fn push_all(out: &mut Vec<u8>, data: &[u8])
    ensures
        final(out)@ == old(out)@ + data@,
{
    let ghost start = out@;
    let mut i: usize = 0;
    while i < data.len()
        invariant
            i <= data.len(),
            out@ == start + data@.subrange(0, i as int),
        decreases data.len() - i,
    {
        out.push(data[i]);
        i = i + 1;
        assert(out@ =~= start + data@.subrange(0, i as int));
    }
    assert(data@.subrange(0, i as int) =~= data@);
}

/// Two's-complement bits of `v` as an unsigned value.
pub fn bits_of_i32(v: i32) -> (r: u32)
    ensures
        r == i32_bits(v),
{
    if v < 0 {
        ((v as i64) + 0x1_0000_0000i64) as u32
    } else {
        v as u32
    }
}

/// The signed value with bit pattern `u`.
pub fn i32_from_bits(u: u32) -> (r: i32)
    ensures
        r == i32_of_bits(u),
{
    if u >= 0x8000_0000 {
        ((u as i64) - 0x1_0000_0000i64) as i32
    } else {
        u as i32
    }
}

} // verus!

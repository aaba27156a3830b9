//! Fixed-width integers as bytes, in either byte order.

use vstd::prelude::*;

verus! {

/// The four bytes of `v`, least significant first.
pub open spec fn u32_le(v: u32) -> Seq<u8> {
    seq![(v & 0xff) as u8, ((v >> 8u32) & 0xff) as u8, ((v >> 16u32) & 0xff) as u8, (v >> 24u32) as u8]
}

/// The eight bytes of `v`, least significant first.
pub open spec fn u64_le(v: u64) -> Seq<u8> {
    seq![
        (v & 0xff) as u8,
        ((v >> 8u64) & 0xff) as u8,
        ((v >> 16u64) & 0xff) as u8,
        ((v >> 24u64) & 0xff) as u8,
        ((v >> 32u64) & 0xff) as u8,
        ((v >> 40u64) & 0xff) as u8,
        ((v >> 48u64) & 0xff) as u8,
        (v >> 56u64) as u8,
    ]
}

/// The 32-bit word whose bytes, least significant first, are `b0` to `b3`.
pub open spec fn word_of(b0: u8, b1: u8, b2: u8, b3: u8) -> u32 {
    (b0 as u32) | ((b1 as u32) << 8u32) | ((b2 as u32) << 16u32) | ((b3 as u32) << 24u32)
}

/// The 64-bit word whose bytes, least significant first, are `b0` to `b7`.
pub open spec fn dword_of(b0: u8, b1: u8, b2: u8, b3: u8, b4: u8, b5: u8, b6: u8, b7: u8) -> u64 {
    (b0 as u64) | ((b1 as u64) << 8u64) | ((b2 as u64) << 16u64) | ((b3 as u64) << 24u64)
        | ((b4 as u64) << 32u64) | ((b5 as u64) << 40u64) | ((b6 as u64) << 48u64)
        | ((b7 as u64) << 56u64)
}

/// The 32-bit word stored at `pos` of `b`, big-endian when `be`, else little-endian.
pub open spec fn u32_at(b: Seq<u8>, pos: int, be: bool) -> u32 {
    if be {
        word_of(b[pos + 3], b[pos + 2], b[pos + 1], b[pos])
    } else {
        word_of(b[pos], b[pos + 1], b[pos + 2], b[pos + 3])
    }
}

/// The 64-bit word stored at `pos` of `b`, big-endian when `be`, else little-endian.
pub open spec fn u64_at(b: Seq<u8>, pos: int, be: bool) -> u64 {
    if be {
        dword_of(b[pos + 7], b[pos + 6], b[pos + 5], b[pos + 4], b[pos + 3], b[pos + 2], b[pos + 1], b[pos])
    } else {
        dword_of(b[pos], b[pos + 1], b[pos + 2], b[pos + 3], b[pos + 4], b[pos + 5], b[pos + 6], b[pos + 7])
    }
}

/// Reading back the little-endian bytes of a 32-bit word gives the word.
pub proof fn lemma_u32_le_read(pre: Seq<u8>, v: u32, suf: Seq<u8>)
    ensures
        u32_at(pre + u32_le(v) + suf, pre.len() as int, false) == v,
{
    let b = pre + u32_le(v) + suf;
    let n = pre.len() as int;
    assert(b[n] == u32_le(v)[0] && b[n + 1] == u32_le(v)[1] && b[n + 2] == u32_le(v)[2] && b[n + 3] == u32_le(v)[3]);
    assert(word_of((v & 0xff) as u8, ((v >> 8u32) & 0xff) as u8, ((v >> 16u32) & 0xff) as u8, (v >> 24u32) as u8) == v) by (bit_vector);
}

/// Reading back the little-endian bytes of a 64-bit word gives the word.
pub proof fn lemma_u64_le_read(pre: Seq<u8>, v: u64, suf: Seq<u8>)
    ensures
        u64_at(pre + u64_le(v) + suf, pre.len() as int, false) == v,
{
    let b = pre + u64_le(v) + suf;
    let n = pre.len() as int;
    let e = u64_le(v);
    assert(b[n] == e[0] && b[n + 1] == e[1] && b[n + 2] == e[2] && b[n + 3] == e[3]);
    assert(b[n + 4] == e[4] && b[n + 5] == e[5] && b[n + 6] == e[6] && b[n + 7] == e[7]);
    assert(dword_of(
        (v & 0xff) as u8,
        ((v >> 8u64) & 0xff) as u8,
        ((v >> 16u64) & 0xff) as u8,
        ((v >> 24u64) & 0xff) as u8,
        ((v >> 32u64) & 0xff) as u8,
        ((v >> 40u64) & 0xff) as u8,
        ((v >> 48u64) & 0xff) as u8,
        (v >> 56u64) as u8,
    ) == v) by (bit_vector);
}

/// A 32-bit signed value survives the trip through its unsigned bits.
pub proof fn lemma_i32_bits(x: i32)
    ensures
        (x as u32) as i32 == x,
{
    assert((x as u32) as i32 == x) by (bit_vector);
}

/// Reads the 32-bit word at `pos`, if four bytes are there.
pub fn read_u32(b: &[u8], pos: usize, be: bool) -> (r: Option<u32>)
    ensures
        r == (if pos + 4 <= b@.len() { Some(u32_at(b@, pos as int, be)) } else { None::<u32> }),
{
    if pos > b.len() || b.len() - pos < 4 {
        return None;
    }
    let (b0, b1, b2, b3) = if be {
        (b[pos + 3], b[pos + 2], b[pos + 1], b[pos])
    } else {
        (b[pos], b[pos + 1], b[pos + 2], b[pos + 3])
    };
    Some((b0 as u32) | ((b1 as u32) << 8u32) | ((b2 as u32) << 16u32) | ((b3 as u32) << 24u32))
}

/// Reads the 64-bit word at `pos`, if eight bytes are there.
pub fn read_u64(b: &[u8], pos: usize, be: bool) -> (r: Option<u64>)
    ensures
        r == (if pos + 8 <= b@.len() { Some(u64_at(b@, pos as int, be)) } else { None::<u64> }),
{
    if pos > b.len() || b.len() - pos < 8 {
        return None;
    }
    let (b0, b1, b2, b3, b4, b5, b6, b7) = if be {
        (b[pos + 7], b[pos + 6], b[pos + 5], b[pos + 4], b[pos + 3], b[pos + 2], b[pos + 1], b[pos])
    } else {
        (b[pos], b[pos + 1], b[pos + 2], b[pos + 3], b[pos + 4], b[pos + 5], b[pos + 6], b[pos + 7])
    };
    Some((b0 as u64) | ((b1 as u64) << 8u64) | ((b2 as u64) << 16u64) | ((b3 as u64) << 24u64)
        | ((b4 as u64) << 32u64) | ((b5 as u64) << 40u64) | ((b6 as u64) << 48u64)
        | ((b7 as u64) << 56u64))
}

/// Appends the little-endian bytes of `v`.
pub fn push_u32(out: &mut Vec<u8>, v: u32)
    ensures
        final(out)@ == old(out)@ + u32_le(v),
{
    out.push((v & 0xff) as u8);
    out.push(((v >> 8u32) & 0xff) as u8);
    out.push(((v >> 16u32) & 0xff) as u8);
    out.push((v >> 24u32) as u8);
    assert(out@ =~= old(out)@ + u32_le(v));
}

/// Appends the little-endian bytes of `v`.
pub fn push_u64(out: &mut Vec<u8>, v: u64)
    ensures
        final(out)@ == old(out)@ + u64_le(v),
{
    out.push((v & 0xff) as u8);
    out.push(((v >> 8u64) & 0xff) as u8);
    out.push(((v >> 16u64) & 0xff) as u8);
    out.push(((v >> 24u64) & 0xff) as u8);
    out.push(((v >> 32u64) & 0xff) as u8);
    out.push(((v >> 40u64) & 0xff) as u8);
    out.push(((v >> 48u64) & 0xff) as u8);
    out.push((v >> 56u64) as u8);
    assert(out@ =~= old(out)@ + u64_le(v));
}

} // verus!

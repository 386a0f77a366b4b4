//! Byte-level helpers shared by the wire protocols: little-endian integer
//! encoding, decimal and hexadecimal rendering, and the spec functions that
//! the contracts of the protocol modules speak of.

use vstd::prelude::*;

verus! {

/// The four bytes of `x`, least significant first.
pub open spec fn spec_le32(x: u32) -> Seq<u8> {
    seq![
        (x & 0xff) as u8,
        ((x >> 8) & 0xff) as u8,
        ((x >> 16) & 0xff) as u8,
        ((x >> 24) & 0xff) as u8,
    ]
}

/// The eight bytes of `x`, least significant first.
pub open spec fn spec_le64(x: u64) -> Seq<u8> {
    seq![
        (x & 0xff) as u8,
        ((x >> 8) & 0xff) as u8,
        ((x >> 16) & 0xff) as u8,
        ((x >> 24) & 0xff) as u8,
        ((x >> 32) & 0xff) as u8,
        ((x >> 40) & 0xff) as u8,
        ((x >> 48) & 0xff) as u8,
        ((x >> 56) & 0xff) as u8,
    ]
}

/// The value carried by four little-endian bytes.
pub open spec fn spec_u32_of_le(b0: u8, b1: u8, b2: u8, b3: u8) -> u32 {
    (b0 as u32) | ((b1 as u32) << 8) | ((b2 as u32) << 16) | ((b3 as u32) << 24)
}

/// The value carried by eight little-endian bytes.
pub open spec fn spec_u64_of_le(
    b0: u8, b1: u8, b2: u8, b3: u8, b4: u8, b5: u8, b6: u8, b7: u8,
) -> u64 {
    (b0 as u64) | ((b1 as u64) << 8) | ((b2 as u64) << 16) | ((b3 as u64) << 24)
        | ((b4 as u64) << 32) | ((b5 as u64) << 40) | ((b6 as u64) << 48) | ((b7 as u64) << 56)
}

/// Reading back the four bytes of `x` yields `x`.
pub proof fn lemma_le32_roundtrip(x: u32)
    ensures
        spec_u32_of_le(
            spec_le32(x)[0],
            spec_le32(x)[1],
            spec_le32(x)[2],
            spec_le32(x)[3],
        ) == x,
{
    assert(((x & 0xff) as u8 as u32) | (((x >> 8) & 0xff) as u8 as u32) << 8
        | (((x >> 16) & 0xff) as u8 as u32) << 16 | (((x >> 24) & 0xff) as u8 as u32) << 24
        == x) by (bit_vector);
}

/// Encoding the value carried by four bytes yields the same bytes.
pub proof fn lemma_le32_reencode(b0: u8, b1: u8, b2: u8, b3: u8)
    ensures
        spec_le32(spec_u32_of_le(b0, b1, b2, b3)) =~= seq![b0, b1, b2, b3],
{
    let x = spec_u32_of_le(b0, b1, b2, b3);
    assert({
        let y = (b0 as u32) | ((b1 as u32) << 8) | ((b2 as u32) << 16) | ((b3 as u32) << 24);
        (y & 0xff) as u8 == b0 && ((y >> 8) & 0xff) as u8 == b1
            && ((y >> 16) & 0xff) as u8 == b2 && ((y >> 24) & 0xff) as u8 == b3
    }) by (bit_vector);
}

/// Reading back the eight bytes of `x` yields `x`.
pub proof fn lemma_le64_roundtrip(x: u64)
    ensures
        spec_u64_of_le(
            spec_le64(x)[0],
            spec_le64(x)[1],
            spec_le64(x)[2],
            spec_le64(x)[3],
            spec_le64(x)[4],
            spec_le64(x)[5],
            spec_le64(x)[6],
            spec_le64(x)[7],
        ) == x,
{
    assert(((x & 0xff) as u8 as u64) | (((x >> 8) & 0xff) as u8 as u64) << 8
        | (((x >> 16) & 0xff) as u8 as u64) << 16 | (((x >> 24) & 0xff) as u8 as u64) << 24
        | (((x >> 32) & 0xff) as u8 as u64) << 32 | (((x >> 40) & 0xff) as u8 as u64) << 40
        | (((x >> 48) & 0xff) as u8 as u64) << 48 | (((x >> 56) & 0xff) as u8 as u64) << 56
        == x) by (bit_vector);
}

/// Encoding the value carried by eight bytes yields the same bytes.
pub proof fn lemma_le64_reencode(b0: u8, b1: u8, b2: u8, b3: u8, b4: u8, b5: u8, b6: u8, b7: u8)
    ensures
        spec_le64(spec_u64_of_le(b0, b1, b2, b3, b4, b5, b6, b7))
            =~= seq![b0, b1, b2, b3, b4, b5, b6, b7],
{
    assert({
        let y = (b0 as u64) | ((b1 as u64) << 8) | ((b2 as u64) << 16) | ((b3 as u64) << 24)
            | ((b4 as u64) << 32) | ((b5 as u64) << 40) | ((b6 as u64) << 48)
            | ((b7 as u64) << 56);
        (y & 0xff) as u8 == b0 && ((y >> 8) & 0xff) as u8 == b1
            && ((y >> 16) & 0xff) as u8 == b2 && ((y >> 24) & 0xff) as u8 == b3
            && ((y >> 32) & 0xff) as u8 == b4 && ((y >> 40) & 0xff) as u8 == b5
            && ((y >> 48) & 0xff) as u8 == b6 && ((y >> 56) & 0xff) as u8 == b7
    }) by (bit_vector);
}

/// Append the little-endian encoding of `x` to `out`.
pub fn push_le32(out: &mut Vec<u8>, x: u32)
    ensures
        final(out)@ == old(out)@ + spec_le32(x),
{
    out.push((x & 0xff) as u8);
    out.push(((x >> 8) & 0xff) as u8);
    out.push(((x >> 16) & 0xff) as u8);
    out.push(((x >> 24) & 0xff) as u8);
    assert(out@ =~= old(out)@ + spec_le32(x));
}

/// Append the little-endian encoding of `x` to `out`.
pub fn push_le64(out: &mut Vec<u8>, x: u64)
    ensures
        final(out)@ == old(out)@ + spec_le64(x),
{
    out.push((x & 0xff) as u8);
    out.push(((x >> 8) & 0xff) as u8);
    out.push(((x >> 16) & 0xff) as u8);
    out.push(((x >> 24) & 0xff) as u8);
    out.push(((x >> 32) & 0xff) as u8);
    out.push(((x >> 40) & 0xff) as u8);
    out.push(((x >> 48) & 0xff) as u8);
    out.push(((x >> 56) & 0xff) as u8);
    assert(out@ =~= old(out)@ + spec_le64(x));
}

/// Read the little-endian `u32` that starts at `pos`.
pub fn read_le32(buf: &[u8], pos: usize) -> (r: u32)
    requires
        pos + 4 <= buf@.len(),
    ensures
        r == spec_u32_of_le(buf@[pos as int], buf@[pos + 1], buf@[pos + 2], buf@[pos + 3]),
{
    (buf[pos] as u32) | ((buf[pos + 1] as u32) << 8) | ((buf[pos + 2] as u32) << 16)
        | ((buf[pos + 3] as u32) << 24)
}

/// Read the little-endian `u64` that starts at `pos`.
pub fn read_le64(buf: &[u8], pos: usize) -> (r: u64)
    requires
        pos + 8 <= buf@.len(),
    ensures
        r == spec_u64_of_le(
            buf@[pos as int],
            buf@[pos + 1],
            buf@[pos + 2],
            buf@[pos + 3],
            buf@[pos + 4],
            buf@[pos + 5],
            buf@[pos + 6],
            buf@[pos + 7],
        ),
{
    (buf[pos] as u64) | ((buf[pos + 1] as u64) << 8) | ((buf[pos + 2] as u64) << 16)
        | ((buf[pos + 3] as u64) << 24) | ((buf[pos + 4] as u64) << 32)
        | ((buf[pos + 5] as u64) << 40) | ((buf[pos + 6] as u64) << 48)
        | ((buf[pos + 7] as u64) << 56)
}

} // verus!

//! Big-endian encodings of the 16-bit and 32-bit integers that appear in box
//! headers and TLV records, with round-trip lemmas between the two directions.
use vstd::prelude::*;

verus! {

/// The 16-bit value stored big-endian in two bytes.
pub open spec fn spec_u16_from_be(b0: u8, b1: u8) -> u16 {
    (b0 as u16) << 8 | (b1 as u16)
}

/// The two big-endian bytes of a 16-bit value.
pub open spec fn spec_u16_to_be(x: u16) -> Seq<u8> {
    seq![((x >> 8) & 0xff) as u8, (x & 0xff) as u8]
}

/// The 32-bit value stored big-endian in four bytes.
pub open spec fn spec_u32_from_be(b0: u8, b1: u8, b2: u8, b3: u8) -> u32 {
    (b0 as u32) << 24 | (b1 as u32) << 16 | (b2 as u32) << 8 | (b3 as u32)
}

/// The four big-endian bytes of a 32-bit value.
pub open spec fn spec_u32_to_be(x: u32) -> Seq<u8> {
    seq![
        ((x >> 24) & 0xff) as u8,
        ((x >> 16) & 0xff) as u8,
        ((x >> 8) & 0xff) as u8,
        (x & 0xff) as u8,
    ]
}

/// The 16-bit value read at offset `i` of `d`, big-endian.
pub open spec fn be_u16_at(d: Seq<u8>, i: int) -> u16 {
    spec_u16_from_be(d[i], d[i + 1])
}

/// The 32-bit value read at offset `i` of `d`, big-endian.
pub open spec fn be_u32_at(d: Seq<u8>, i: int) -> u32 {
    spec_u32_from_be(d[i], d[i + 1], d[i + 2], d[i + 3])
}

/// Decoding the big-endian bytes of a 16-bit value gives the value back.
pub proof fn lemma_u16_be_round_trip(x: u16)
    ensures
        spec_u16_to_be(x).len() == 2,
        spec_u16_from_be(spec_u16_to_be(x)[0], spec_u16_to_be(x)[1]) == x,
{
    assert((((x >> 8) & 0xff) as u8 as u16) << 8 | ((x & 0xff) as u8 as u16) == x)
        by (bit_vector);
}

/// Decoding the big-endian bytes of a 32-bit value gives the value back.
pub proof fn lemma_u32_be_round_trip(x: u32)
    ensures
        spec_u32_to_be(x).len() == 4,
        spec_u32_from_be(
            spec_u32_to_be(x)[0],
            spec_u32_to_be(x)[1],
            spec_u32_to_be(x)[2],
            spec_u32_to_be(x)[3],
        ) == x,
{
    assert((((x >> 24) & 0xff) as u8 as u32) << 24 | (((x >> 16) & 0xff) as u8 as u32) << 16
        | (((x >> 8) & 0xff) as u8 as u32) << 8 | ((x & 0xff) as u8 as u32) == x)
        by (bit_vector);
}

/// Appends the two big-endian bytes of `x` to `out`.
pub fn push_u16_be(out: &mut Vec<u8>, x: u16)
    ensures
        final(out)@ == old(out)@ + spec_u16_to_be(x),
{
    out.push(((x >> 8) & 0xff) as u8);
    out.push((x & 0xff) as u8);
    assert(out@ =~= old(out)@ + spec_u16_to_be(x));
}

/// Appends the four big-endian bytes of `x` to `out`.
pub fn push_u32_be(out: &mut Vec<u8>, x: u32)
    ensures
        final(out)@ == old(out)@ + spec_u32_to_be(x),
{
    out.push(((x >> 24) & 0xff) as u8);
    out.push(((x >> 16) & 0xff) as u8);
    out.push(((x >> 8) & 0xff) as u8);
    out.push((x & 0xff) as u8);
    assert(out@ =~= old(out)@ + spec_u32_to_be(x));
}

} // verus!

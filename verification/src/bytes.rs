//! Little-endian encoding of 32-bit words, as the heap and its persisted
//! form store them.

use vstd::prelude::*;

verus! {

/// The four bytes of `x`, lowest first.
pub open spec fn u32_le(x: u32) -> Seq<u8> {
    seq![
        (x % 256) as u8,
        (x / 256 % 256) as u8,
        (x / 65536 % 256) as u8,
        (x / 16777216) as u8,
    ]
}

/// The word whose bytes, lowest first, are the first four of `b`.
pub open spec fn u32_from_le(b: Seq<u8>) -> u32
    recommends
        b.len() >= 4,
{
    (b[0] + b[1] * 256 + b[2] * 65536 + b[3] * 16777216) as u32
}

/// Decoding the encoding of a word gives the word.
pub proof fn lemma_u32_le_decode(x: u32)
    ensures
        u32_le(x).len() == 4,
        u32_from_le(u32_le(x)) == x,
{
    assert(x % 256 + (x / 256 % 256) * 256 + (x / 65536 % 256) * 65536 + (x / 16777216) * 16777216
        == x && x % 256 < 256 && x / 256 % 256 < 256 && x / 65536 % 256 < 256 && x / 16777216
        < 256) by (bit_vector);
}

/// Encoding the word decoded from four bytes gives the four bytes.
pub proof fn lemma_u32_le_encode(b: Seq<u8>)
    requires
        b.len() == 4,
    ensures
        u32_le(u32_from_le(b)) == b,
{
    let b0 = b[0] as u32;
    let b1 = b[1] as u32;
    let b2 = b[2] as u32;
    let b3 = b[3] as u32;
    let x = u32_from_le(b);
    assert(x % 256 == b0 && x / 256 % 256 == b1 && x / 65536 % 256 == b2 && x / 16777216 == b3)
        by (bit_vector)
        requires
            b0 < 256,
            b1 < 256,
            b2 < 256,
            b3 < 256,
            x == b0 + b1 * 256 + b2 * 65536 + b3 * 16777216,
    ;
    assert(u32_le(x) =~= b);
}

/// The bytes of `x`, lowest first.
pub fn u32_to_le_bytes(x: u32) -> (b: [u8; 4])
    ensures
        b@ == u32_le(x),
{
    assert(x & 0xff == x % 256) by (bit_vector);
    assert((x >> 8u32) & 0xff == x / 256 % 256) by (bit_vector);
    assert((x >> 16u32) & 0xff == x / 65536 % 256) by (bit_vector);
    assert(x >> 24u32 == x / 16777216) by (bit_vector);
    let b = [
        (x & 0xff) as u8,
        ((x >> 8) & 0xff) as u8,
        ((x >> 16) & 0xff) as u8,
        (x >> 24) as u8,
    ];
    assert(b@ =~= u32_le(x));
    b
}

/// The word whose bytes, lowest first, are `b0`, `b1`, `b2` and `b3`.
pub fn u32_from_le_bytes(b: [u8; 4]) -> (x: u32)
    ensures
        x == u32_from_le(b@),
{
    let b0 = b[0] as u32;
    let b1 = b[1] as u32;
    let b2 = b[2] as u32;
    let b3 = b[3] as u32;
    assert(b0 | (b1 << 8u32) | (b2 << 16u32) | (b3 << 24u32) == b0 + b1 * 256 + b2 * 65536 + b3
        * 16777216) by (bit_vector)
        requires
            b0 < 256,
            b1 < 256,
            b2 < 256,
            b3 < 256,
    ;
    b0 | (b1 << 8) | (b2 << 16) | (b3 << 24)
}

} // verus!

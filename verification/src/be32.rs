//! Big-endian encoding of 32-bit integers, as used for chunk lengths and
//! checksums.

use vstd::prelude::*;

verus! {

/// The value that four bytes denote when read most significant byte first.
pub open spec fn be32_value(b0: u8, b1: u8, b2: u8, b3: u8) -> int {
    b0 * 0x100_0000 + b1 * 0x1_0000 + b2 * 0x100 + b3
}

/// The big-endian value of the first four bytes of `s`.
pub open spec fn spec_decode_be32(s: Seq<u8>) -> u32
    recommends
        s.len() >= 4,
{
    be32_value(s[0], s[1], s[2], s[3]) as u32
}

/// The four bytes that encode `x`, most significant first.
pub open spec fn spec_encode_be32(x: u32) -> Seq<u8> {
    seq![
        (x / 0x100_0000) as u8,
        (x / 0x1_0000 % 0x100) as u8,
        (x / 0x100 % 0x100) as u8,
        (x % 0x100) as u8,
    ]
}

/// Decoding undoes encoding.
pub proof fn lemma_decode_encode_be32(x: u32)
    ensures
        spec_encode_be32(x).len() == 4,
        spec_decode_be32(spec_encode_be32(x)) == x,
{
}

/// Encoding undoes decoding: four bytes are the encoding of their value.
pub proof fn lemma_encode_decode_be32(s: Seq<u8>)
    requires
        s.len() == 4,
    ensures
        spec_encode_be32(spec_decode_be32(s)) == s,
{
    let x = spec_decode_be32(s);
    lemma_be32_digits(s[0], s[1], s[2], s[3]);
    assert(spec_encode_be32(x) =~= s);
}

/// The four bytes are the base-256 digits of their big-endian value.
proof fn lemma_be32_digits(b0: u8, b1: u8, b2: u8, b3: u8)
    ensures
        0 <= be32_value(b0, b1, b2, b3) <= u32::MAX,
        be32_value(b0, b1, b2, b3) / 0x100_0000 == b0,
        be32_value(b0, b1, b2, b3) / 0x1_0000 % 0x100 == b1,
        be32_value(b0, b1, b2, b3) / 0x100 % 0x100 == b2,
        be32_value(b0, b1, b2, b3) % 0x100 == b3,
{
    let v = be32_value(b0, b1, b2, b3);
    let hi2: int = b0 * 0x100 + b1;
    let hi3: int = hi2 * 0x100 + b2;
    assert(v == hi3 * 0x100 + b3);
    assert(v / 0x100 == hi3 && v % 0x100 == b3);
    assert(hi3 / 0x100 == hi2 && hi3 % 0x100 == b2);
    assert(hi2 / 0x100 == b0 && hi2 % 0x100 == b1);
    assert(v / 0x1_0000 == hi2) by {
        assert(v == hi2 * 0x1_0000 + (b2 * 0x100 + b3));
    }
    assert(v / 0x100_0000 == b0) by {
        assert(v == b0 * 0x100_0000 + (b1 * 0x1_0000 + b2 * 0x100 + b3));
    }
}

/// Reads a big-endian `u32` from the first four bytes of `bytes`.
pub fn decode_be32(bytes: &[u8]) -> (x: u32)
    requires
        bytes@.len() >= 4,
    ensures
        x == spec_decode_be32(bytes@),
{
    let b0: u32 = bytes[0] as u32;
    let b1: u32 = bytes[1] as u32;
    let b2: u32 = bytes[2] as u32;
    let b3: u32 = bytes[3] as u32;
    b0 * 0x100_0000 + b1 * 0x1_0000 + b2 * 0x100 + b3
}

/// Appends the big-endian encoding of `x` to `out`.
pub fn encode_be32(x: u32, out: &mut Vec<u8>)
    ensures
        final(out)@ == old(out)@ + spec_encode_be32(x),
{
    out.push((x / 0x100_0000) as u8);
    out.push((x / 0x1_0000 % 0x100) as u8);
    out.push((x / 0x100 % 0x100) as u8);
    out.push((x % 0x100) as u8);
}

} // verus!

//! Fixed-width unsigned integers as little-endian bytes.
//!
//! The byte at position `k` of a number `x` is `x / 256^k % 256`; the number
//! that a byte string holds is the sum of `byte * 256^k` over its positions.

use vstd::prelude::*;

verus! {

/// The number that two bytes hold, least significant byte first.
pub open spec fn u16_from_le(s: Seq<u8>) -> u16
    recommends
        s.len() == 2,
{
    (s[0] as int + 256 * (s[1] as int)) as u16
}

/// The two bytes of `x`, least significant byte first.
pub open spec fn u16_to_le(x: u16) -> Seq<u8> {
    seq![(x % 256) as u8, (x / 256) as u8]
}

/// The number that four bytes hold, least significant byte first.
pub open spec fn u32_from_le(s: Seq<u8>) -> u32
    recommends
        s.len() == 4,
{
    (s[0] as int + 256 * (s[1] as int) + 65536 * (s[2] as int) + 16777216 * (s[3] as int)) as u32
}

/// The four bytes of `x`, least significant byte first.
pub open spec fn u32_to_le(x: u32) -> Seq<u8> {
    seq![(x % 256) as u8, (x / 256 % 256) as u8, (x / 65536 % 256) as u8, (x / 16777216) as u8]
}

/// Writing a 16-bit number out and reading it back gives the number again.
pub proof fn lemma_u16_from_to_le(x: u16)
    ensures
        u16_to_le(x).len() == 2,
        u16_from_le(u16_to_le(x)) == x,
{
}

/// Reading two bytes as a number and writing it out gives the bytes again.
pub proof fn lemma_u16_to_from_le(s: Seq<u8>)
    requires
        s.len() == 2,
    ensures
        u16_to_le(u16_from_le(s)) == s,
{
    assert(u16_to_le(u16_from_le(s)) =~= s);
}

/// Writing a 32-bit number out and reading it back gives the number again.
pub proof fn lemma_u32_from_to_le(x: u32)
    ensures
        u32_to_le(x).len() == 4,
        u32_from_le(u32_to_le(x)) == x,
{
    let q1 = x as int / 256;
    let q2 = x as int / 65536;
    let q3 = x as int / 16777216;
    assert(q2 == q1 / 256);
    assert(q3 == q2 / 256);
    assert(x as int == x as int % 256 + 256 * q1);
    assert(q1 == q1 % 256 + 256 * q2);
    assert(q2 == q2 % 256 + 256 * q3);
}

/// Reading four bytes as a number and writing it out gives the bytes again.
pub proof fn lemma_u32_to_from_le(s: Seq<u8>)
    requires
        s.len() == 4,
    ensures
        u32_to_le(u32_from_le(s)) == s,
{
    let b0 = s[0] as int;
    let b1 = s[1] as int;
    let b2 = s[2] as int;
    let b3 = s[3] as int;
    let x = u32_from_le(s) as int;
    let q2 = b2 + 256 * b3;
    let q1 = b1 + 256 * q2;
    assert(x == b0 + 256 * q1);
    assert(x == (b0 + 256 * b1) + 65536 * q2);
    assert(x == (b0 + 256 * b1 + 65536 * b2) + 16777216 * b3);
    assert(x % 256 == b0 && x / 256 == q1);
    assert(q1 % 256 == b1);
    assert(x / 65536 == q2 && q2 % 256 == b2);
    assert(x / 16777216 == b3);
    assert(u32_to_le(u32_from_le(s)) =~= s);
}

/// Reads a 16-bit number from its two little-endian bytes.
pub fn u16_from_le_bytes(bytes: [u8; 2]) -> (x: u16)
    ensures
        x == u16_from_le(bytes@),
{
    bytes[0] as u16 + 256 * (bytes[1] as u16)
}

/// Writes a 16-bit number as its two little-endian bytes.
pub fn u16_to_le_bytes(x: u16) -> (bytes: [u8; 2])
    ensures
        bytes@ == u16_to_le(x),
{
    let bytes: [u8; 2] = [(x % 256) as u8, (x / 256) as u8];
    assert(bytes@ =~= u16_to_le(x));
    bytes
}

/// Reads a 32-bit number from its four little-endian bytes.
pub fn u32_from_le_bytes(bytes: [u8; 4]) -> (x: u32)
    ensures
        x == u32_from_le(bytes@),
{
    bytes[0] as u32 + 256 * (bytes[1] as u32) + 65536 * (bytes[2] as u32) + 16777216 * (
    bytes[3] as u32)
}

/// Writes a 32-bit number as its four little-endian bytes.
pub fn u32_to_le_bytes(x: u32) -> (bytes: [u8; 4])
    ensures
        bytes@ == u32_to_le(x),
{
    let bytes: [u8; 4] = [
        (x % 256) as u8,
        (x / 256 % 256) as u8,
        (x / 65536 % 256) as u8,
        (x / 16777216) as u8,
    ];
    assert(bytes@ =~= u32_to_le(x));
    bytes
}

} // verus!

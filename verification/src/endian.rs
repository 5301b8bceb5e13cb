//! Little-endian encodings of the fixed-width scalars.
//!
//! The spec functions say what the bytes mean; the conversions themselves
//! are done by the `byteorder` crate.

use vstd::prelude::*;
use byteorder::ByteOrder;

verus! {

/// The unsigned number whose little-endian encoding is the first four
/// bytes of `b`.
pub open spec fn le_u32(b: Seq<u8>) -> int {
    b[0] + 0x100 * b[1] + 0x1_0000 * b[2] + 0x100_0000 * b[3]
}

/// The signed number whose little-endian two's complement encoding is the
/// first four bytes of `b`.
pub open spec fn le_i32(b: Seq<u8>) -> int {
    if le_u32(b) >= 0x8000_0000 {
        le_u32(b) - 0x1_0000_0000
    } else {
        le_u32(b)
    }
}

/// The unsigned number whose little-endian encoding is the first eight
/// bytes of `b`.
pub open spec fn le_u64(b: Seq<u8>) -> int {
    le_u32(b) + 0x1_0000_0000 * le_u32(b.skip(4))
}

/// The four bytes that encode `x` in little-endian order, for
/// `0 <= x < 2^32`.
pub open spec fn u32_le_bytes(x: int) -> Seq<u8> {
    seq![
        (x % 0x100) as u8,
        (x / 0x100 % 0x100) as u8,
        (x / 0x1_0000 % 0x100) as u8,
        (x / 0x100_0000 % 0x100) as u8,
    ]
}

/// The four bytes that encode `v` in little-endian two's complement.
pub open spec fn i32_le_bytes(v: i32) -> Seq<u8> {
    if v < 0 {
        u32_le_bytes(v + 0x1_0000_0000)
    } else {
        u32_le_bytes(v as int)
    }
}

/// The eight bytes that encode `x` in little-endian order.
pub open spec fn u64_le_bytes(x: u64) -> Seq<u8> {
    u32_le_bytes((x as int) % 0x1_0000_0000) + u32_le_bytes((x as int) / 0x1_0000_0000)
}

/// Decoding four bytes always gives a number that an `i32` holds.
pub proof fn lemma_le_i32_range(b: Seq<u8>)
    requires
        b.len() >= 4,
    ensures
        i32::MIN <= le_i32(b) <= i32::MAX,
{
}

/// Decoding eight bytes always gives a number that a `u64` holds.
pub proof fn lemma_le_u64_range(b: Seq<u8>)
    requires
        b.len() >= 8,
    ensures
        0 <= le_u64(b) <= u64::MAX,
{
}

/// Decoding the encoding of a number below 2^32 gives the number back,
/// whatever follows the four bytes.
pub proof fn lemma_u32_round_trip(x: int, rest: Seq<u8>)
    requires
        0 <= x < 0x1_0000_0000,
    ensures
        u32_le_bytes(x).len() == 4,
        le_u32(u32_le_bytes(x) + rest) == x,
{
    let b = u32_le_bytes(x) + rest;
    assert(b[0] == (x % 0x100) as u8);
    assert(b[1] == (x / 0x100 % 0x100) as u8);
    assert(b[2] == (x / 0x1_0000 % 0x100) as u8);
    assert(b[3] == (x / 0x100_0000 % 0x100) as u8);
}

/// Decoding the encoding of an `i32` gives the number back, whatever
/// follows the four bytes.
pub proof fn lemma_i32_round_trip(v: i32, rest: Seq<u8>)
    ensures
        i32_le_bytes(v).len() == 4,
        le_i32(i32_le_bytes(v) + rest) == v,
{
    let x: int = if v < 0 { v + 0x1_0000_0000 } else { v as int };
    lemma_u32_round_trip(x, rest);
}

/// Decoding the encoding of a `u64` gives the number back, whatever
/// follows the eight bytes.
pub proof fn lemma_u64_round_trip(x: u64, rest: Seq<u8>)
    ensures
        u64_le_bytes(x).len() == 8,
        le_u64(u64_le_bytes(x) + rest) == x,
{
    let b = u64_le_bytes(x) + rest;
    let lo: int = (x as int) % 0x1_0000_0000;
    let hi: int = (x as int) / 0x1_0000_0000;
    lemma_u32_round_trip(lo, u32_le_bytes(hi) + rest);
    lemma_u32_round_trip(hi, rest);
    assert(b =~= u32_le_bytes(lo) + (u32_le_bytes(hi) + rest));
    assert(b.skip(4) =~= u32_le_bytes(hi) + rest);
}

/// `byteorder::LittleEndian::read_i32`: reads the first four bytes of
/// `buf` as a signed integer in little-endian two's complement. The crate
/// panics on a shorter buffer, which the precondition rules out.
#[verifier::external_body]
pub(crate) fn read_i32_le(buf: &[u8]) -> (v: i32)
    requires
        buf@.len() >= 4,
    ensures
        v == le_i32(buf@),
{
    byteorder::LittleEndian::read_i32(buf)
}

/// `byteorder::LittleEndian::read_u64`: reads the first eight bytes of
/// `buf` as an unsigned integer in little-endian order. The crate panics on
/// a shorter buffer, which the precondition rules out.
#[verifier::external_body]
pub(crate) fn read_u64_le(buf: &[u8]) -> (v: u64)
    requires
        buf@.len() >= 8,
    ensures
        v == le_u64(buf@),
{
    byteorder::LittleEndian::read_u64(buf)
}

/// `byteorder::LittleEndian::write_i32`: the four bytes that encode `v` in
/// little-endian two's complement.
#[verifier::external_body]
pub(crate) fn i32_to_le(v: i32) -> (b: [u8; 4])
    ensures
        b@ == i32_le_bytes(v),
{
    let mut b = [0u8; 4];
    byteorder::LittleEndian::write_i32(&mut b, v);
    b
}

/// `byteorder::LittleEndian::write_u64`: the eight bytes that encode `x`
/// in little-endian order.
#[verifier::external_body]
pub(crate) fn u64_to_le(x: u64) -> (b: [u8; 8])
    ensures
        b@ == u64_le_bytes(x),
{
    let mut b = [0u8; 8];
    byteorder::LittleEndian::write_u64(&mut b, x);
    b
}

} // verus!

//! Big-endian integers on the wire.
//!
//! The executable conversions are `byteorder`'s; their contracts are stated
//! over the spec functions of this module and taken on trust.

use byteorder::{BigEndian, ByteOrder};
use vstd::prelude::*;

verus! {

/// The two bytes of `v`, most significant first, for `0 <= v < 2^16`.
pub open spec fn be_bytes_2(v: int) -> Seq<u8> {
    seq![(v / 0x100 % 0x100) as u8, (v % 0x100) as u8]
}

/// The four bytes of `v`, most significant first, for `0 <= v < 2^32`: the
/// bytes of its upper half, then those of its lower half.
pub open spec fn be_bytes_4(v: int) -> Seq<u8> {
    be_bytes_2(v / 0x1_0000) + be_bytes_2(v % 0x1_0000)
}

/// The eight bytes of `v`, most significant first, for `0 <= v < 2^64`.
pub open spec fn be_bytes_8(v: int) -> Seq<u8> {
    be_bytes_4(v / 0x1_0000_0000) + be_bytes_4(v % 0x1_0000_0000)
}

/// The number that the two bytes of `s` from `at` on spell, most significant
/// first.
pub open spec fn be_value_2(s: Seq<u8>, at: int) -> int {
    s[at] * 0x100 + s[at + 1]
}

/// The number that the four bytes of `s` from `at` on spell.
pub open spec fn be_value_4(s: Seq<u8>, at: int) -> int {
    be_value_2(s, at) * 0x1_0000 + be_value_2(s, at + 2)
}

/// The number that the eight bytes of `s` from `at` on spell.
pub open spec fn be_value_8(s: Seq<u8>, at: int) -> int {
    be_value_4(s, at) * 0x1_0000_0000 + be_value_4(s, at + 4)
}

/// The unsigned reading of the two's-complement pattern of a signed integer
/// `v`, where `modulus` is two to the integer's width.
pub open spec fn to_unsigned(v: int, modulus: int) -> int {
    if v < 0 {
        v + modulus
    } else {
        v
    }
}

/// The signed reading of the two's-complement pattern `u`, where `modulus` is
/// two to the integer's width.
pub open spec fn to_signed(u: int, modulus: int) -> int {
    if 2 * u >= modulus {
        u - modulus
    } else {
        u
    }
}

/// `byteorder::BigEndian::write_u16` on a buffer of two bytes: the buffer
/// then holds the value's bytes, most significant first.
#[verifier::external_body]
pub(crate) fn be_u16(val: u16) -> (buf: [u8; 2])
    ensures
        buf@ == be_bytes_2(val as int),
{
    let mut buf = [0u8; 2];
    BigEndian::write_u16(&mut buf, val);
    buf
}

/// `byteorder::BigEndian::write_u32` on a buffer of four bytes.
#[verifier::external_body]
pub(crate) fn be_u32(val: u32) -> (buf: [u8; 4])
    ensures
        buf@ == be_bytes_4(val as int),
{
    let mut buf = [0u8; 4];
    BigEndian::write_u32(&mut buf, val);
    buf
}

/// `byteorder::BigEndian::write_u64` on a buffer of eight bytes.
#[verifier::external_body]
pub(crate) fn be_u64(val: u64) -> (buf: [u8; 8])
    ensures
        buf@ == be_bytes_8(val as int),
{
    let mut buf = [0u8; 8];
    BigEndian::write_u64(&mut buf, val);
    buf
}

/// `byteorder::BigEndian::write_i16` on a buffer of two bytes: it writes the
/// value's two's-complement pattern as `write_u16` would.
#[verifier::external_body]
pub(crate) fn be_i16(val: i16) -> (buf: [u8; 2])
    ensures
        buf@ == be_bytes_2(to_unsigned(val as int, 0x1_0000)),
{
    let mut buf = [0u8; 2];
    BigEndian::write_i16(&mut buf, val);
    buf
}

/// `byteorder::BigEndian::write_i32` on a buffer of four bytes.
#[verifier::external_body]
pub(crate) fn be_i32(val: i32) -> (buf: [u8; 4])
    ensures
        buf@ == be_bytes_4(to_unsigned(val as int, 0x1_0000_0000)),
{
    let mut buf = [0u8; 4];
    BigEndian::write_i32(&mut buf, val);
    buf
}

/// `byteorder::BigEndian::write_i64` on a buffer of eight bytes.
#[verifier::external_body]
pub(crate) fn be_i64(val: i64) -> (buf: [u8; 8])
    ensures
        buf@ == be_bytes_8(to_unsigned(val as int, 0x1_0000_0000_0000_0000)),
{
    let mut buf = [0u8; 8];
    BigEndian::write_i64(&mut buf, val);
    buf
}

/// `byteorder::BigEndian::read_u16`: the number that the first two bytes of
/// the buffer spell. The outside function panics on a shorter buffer.
#[verifier::external_body]
pub(crate) fn read_be_u16(buf: &[u8]) -> (val: u16)
    requires
        buf@.len() >= 2,
    ensures
        val == be_value_2(buf@, 0),
{
    BigEndian::read_u16(buf)
}

/// `byteorder::BigEndian::read_u32`, on a buffer of at least four bytes.
#[verifier::external_body]
pub(crate) fn read_be_u32(buf: &[u8]) -> (val: u32)
    requires
        buf@.len() >= 4,
    ensures
        val == be_value_4(buf@, 0),
{
    BigEndian::read_u32(buf)
}

/// `byteorder::BigEndian::read_u64`, on a buffer of at least eight bytes.
#[verifier::external_body]
pub(crate) fn read_be_u64(buf: &[u8]) -> (val: u64)
    requires
        buf@.len() >= 8,
    ensures
        val == be_value_8(buf@, 0),
{
    BigEndian::read_u64(buf)
}

/// `byteorder::BigEndian::read_i16`: the signed reading of what `read_u16`
/// gives.
#[verifier::external_body]
pub(crate) fn read_be_i16(buf: &[u8]) -> (val: i16)
    requires
        buf@.len() >= 2,
    ensures
        val == to_signed(be_value_2(buf@, 0), 0x1_0000),
{
    BigEndian::read_i16(buf)
}

/// `byteorder::BigEndian::read_i32`, on a buffer of at least four bytes.
#[verifier::external_body]
pub(crate) fn read_be_i32(buf: &[u8]) -> (val: i32)
    requires
        buf@.len() >= 4,
    ensures
        val == to_signed(be_value_4(buf@, 0), 0x1_0000_0000),
{
    BigEndian::read_i32(buf)
}

/// `byteorder::BigEndian::read_i64`, on a buffer of at least eight bytes.
#[verifier::external_body]
pub(crate) fn read_be_i64(buf: &[u8]) -> (val: i64)
    requires
        buf@.len() >= 8,
    ensures
        val == to_signed(be_value_8(buf@, 0), 0x1_0000_0000_0000_0000),
{
    BigEndian::read_i64(buf)
}

/// Two bytes written for a 16-bit value read back as that value, wherever
/// they stand in a sequence.
pub proof fn lemma_be_2_round_trip(v: int, before: Seq<u8>, after: Seq<u8>)
    requires
        0 <= v < 0x1_0000,
    ensures
        be_bytes_2(v).len() == 2,
        be_value_2(before + be_bytes_2(v) + after, before.len() as int) == v,
{
    let s = before + be_bytes_2(v) + after;
    let at = before.len() as int;
    assert(s[at] == be_bytes_2(v)[0]);
    assert(s[at + 1] == be_bytes_2(v)[1]);
}

/// Four bytes written for a 32-bit value read back as that value.
pub proof fn lemma_be_4_round_trip(v: int, before: Seq<u8>, after: Seq<u8>)
    requires
        0 <= v < 0x1_0000_0000,
    ensures
        be_bytes_4(v).len() == 4,
        be_value_4(before + be_bytes_4(v) + after, before.len() as int) == v,
{
    let hi = be_bytes_2(v / 0x1_0000);
    let lo = be_bytes_2(v % 0x1_0000);
    let s = before + be_bytes_4(v) + after;
    lemma_be_2_round_trip(v / 0x1_0000, before, lo + after);
    lemma_be_2_round_trip(v % 0x1_0000, before + hi, after);
    assert(s =~= before + hi + (lo + after));
    assert(s =~= (before + hi) + lo + after);
}

/// Eight bytes written for a 64-bit value read back as that value.
pub proof fn lemma_be_8_round_trip(v: int, before: Seq<u8>, after: Seq<u8>)
    requires
        0 <= v < 0x1_0000_0000_0000_0000,
    ensures
        be_bytes_8(v).len() == 8,
        be_value_8(before + be_bytes_8(v) + after, before.len() as int) == v,
{
    let hi = be_bytes_4(v / 0x1_0000_0000);
    let lo = be_bytes_4(v % 0x1_0000_0000);
    let s = before + be_bytes_8(v) + after;
    lemma_be_4_round_trip(v / 0x1_0000_0000, before, lo + after);
    lemma_be_4_round_trip(v % 0x1_0000_0000, before + hi, after);
    assert(s =~= before + hi + (lo + after));
    assert(s =~= (before + hi) + lo + after);
}

} // verus!

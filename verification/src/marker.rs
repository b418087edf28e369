//! The one-byte format markers of the wire format.
//!
//! The marker type and its two conversions come from the `rmp` crate. Verus
//! reads the enum's variants; what the conversions compute is stated here and
//! taken on trust.

use rmp::Marker;
use vstd::prelude::*;

verus! {

/// `rmp::Marker`, the enumeration of all format markers. Its variants are
/// visible to the verifier, so verified code builds and matches markers.
#[verifier::external_type_specification]
pub struct ExMarker(Marker);

/// The byte that stands for a marker on the wire.
///
/// The three inline-length markers keep only the low bits of their field, and
/// a negative fixed integer is its own two's-complement byte.
pub open spec fn marker_byte(m: Marker) -> u8 {
    match m {
        Marker::FixPos(val) => val,
        Marker::FixMap(len) => (0x80 + len % 16) as u8,
        Marker::FixArray(len) => (0x90 + len % 16) as u8,
        Marker::FixStr(len) => (0xa0 + len % 32) as u8,
        Marker::Null => 0xc0,
        Marker::Reserved => 0xc1,
        Marker::False => 0xc2,
        Marker::True => 0xc3,
        Marker::Bin8 => 0xc4,
        Marker::Bin16 => 0xc5,
        Marker::Bin32 => 0xc6,
        Marker::Ext8 => 0xc7,
        Marker::Ext16 => 0xc8,
        Marker::Ext32 => 0xc9,
        Marker::F32 => 0xca,
        Marker::F64 => 0xcb,
        Marker::U8 => 0xcc,
        Marker::U16 => 0xcd,
        Marker::U32 => 0xce,
        Marker::U64 => 0xcf,
        Marker::I8 => 0xd0,
        Marker::I16 => 0xd1,
        Marker::I32 => 0xd2,
        Marker::I64 => 0xd3,
        Marker::FixExt1 => 0xd4,
        Marker::FixExt2 => 0xd5,
        Marker::FixExt4 => 0xd6,
        Marker::FixExt8 => 0xd7,
        Marker::FixExt16 => 0xd8,
        Marker::Str8 => 0xd9,
        Marker::Str16 => 0xda,
        Marker::Str32 => 0xdb,
        Marker::Array16 => 0xdc,
        Marker::Array32 => 0xdd,
        Marker::Map16 => 0xde,
        Marker::Map32 => 0xdf,
        Marker::FixNeg(val) => if val < 0 {
            (val + 256) as u8
        } else {
            val as u8
        },
    }
}

/// The marker that a leading byte stands for. Every byte is some marker.
pub open spec fn byte_marker(n: u8) -> Marker {
    if n <= 0x7f {
        Marker::FixPos(n)
    } else if n <= 0x8f {
        Marker::FixMap((n - 0x80) as u8)
    } else if n <= 0x9f {
        Marker::FixArray((n - 0x90) as u8)
    } else if n <= 0xbf {
        Marker::FixStr((n - 0xa0) as u8)
    } else if n == 0xc0 {
        Marker::Null
    } else if n == 0xc1 {
        Marker::Reserved
    } else if n == 0xc2 {
        Marker::False
    } else if n == 0xc3 {
        Marker::True
    } else if n == 0xc4 {
        Marker::Bin8
    } else if n == 0xc5 {
        Marker::Bin16
    } else if n == 0xc6 {
        Marker::Bin32
    } else if n == 0xc7 {
        Marker::Ext8
    } else if n == 0xc8 {
        Marker::Ext16
    } else if n == 0xc9 {
        Marker::Ext32
    } else if n == 0xca {
        Marker::F32
    } else if n == 0xcb {
        Marker::F64
    } else if n == 0xcc {
        Marker::U8
    } else if n == 0xcd {
        Marker::U16
    } else if n == 0xce {
        Marker::U32
    } else if n == 0xcf {
        Marker::U64
    } else if n == 0xd0 {
        Marker::I8
    } else if n == 0xd1 {
        Marker::I16
    } else if n == 0xd2 {
        Marker::I32
    } else if n == 0xd3 {
        Marker::I64
    } else if n == 0xd4 {
        Marker::FixExt1
    } else if n == 0xd5 {
        Marker::FixExt2
    } else if n == 0xd6 {
        Marker::FixExt4
    } else if n == 0xd7 {
        Marker::FixExt8
    } else if n == 0xd8 {
        Marker::FixExt16
    } else if n == 0xd9 {
        Marker::Str8
    } else if n == 0xda {
        Marker::Str16
    } else if n == 0xdb {
        Marker::Str32
    } else if n == 0xdc {
        Marker::Array16
    } else if n == 0xdd {
        Marker::Array32
    } else if n == 0xde {
        Marker::Map16
    } else if n == 0xdf {
        Marker::Map32
    } else {
        Marker::FixNeg((n - 256) as i8)
    }
}

/// `rmp::Marker::to_u8`: the wire byte of a marker, as `marker_byte` gives it.
/// The outside function masks the inline-length fields with `0x0f` or `0x1f`
/// and ors them into the marker's base, which has those bits clear; it casts
/// the field of `FixNeg` to `u8`.
pub assume_specification[ Marker::to_u8 ](m: &Marker) -> (b: u8)
    ensures
        b == marker_byte(*m),
;

/// `rmp::Marker::from_u8`: the marker of a leading byte, as `byte_marker`
/// gives it. The outside function matches on the byte's range, masks the
/// inline length out of it, and casts a byte of `0xe0` and above to `i8`.
pub assume_specification[ Marker::from_u8 ](n: u8) -> (m: Marker)
    ensures
        m == byte_marker(n),
;

/// A marker whose inline field is in the range that its wire byte can carry.
pub open spec fn marker_in_range(m: Marker) -> bool {
    match m {
        Marker::FixPos(val) => val <= 0x7f,
        Marker::FixMap(len) => len <= 0x0f,
        Marker::FixArray(len) => len <= 0x0f,
        Marker::FixStr(len) => len <= 0x1f,
        Marker::FixNeg(val) => -32 <= val <= -1,
        _ => true,
    }
}

/// Reading back the byte of a marker gives the same marker, as long as the
/// marker's inline field fits its wire byte.
pub proof fn lemma_marker_round_trip(m: Marker)
    requires
        marker_in_range(m),
    ensures
        byte_marker(marker_byte(m)) == m,
{
}

/// The byte of the marker of a byte is that byte.
pub proof fn lemma_byte_round_trip(n: u8)
    ensures
        marker_byte(byte_marker(n)) == n,
        marker_in_range(byte_marker(n)),
{
}

} // verus!

//! What a sequence of bytes reads as.
//!
//! Each spec function looks at the head of a sequence and gives the item that
//! stands there together with the number of bytes it takes, or the reason why
//! no such item stands there. The decoder's contracts say that it returns
//! exactly this.

use crate::endian::{be_value_2, be_value_4, be_value_8, to_signed};
use crate::marker::byte_marker;
use crate::value::ValueModel;
use rmp::Marker;
use vstd::prelude::*;

verus! {

/// Why a sequence of bytes does not read as the item asked for.
#[derive(Clone, Copy, Debug, PartialEq, Eq, Structural)]
pub enum DecodeError {
    /// The bytes end before the item does.
    UnexpectedEnd,
    /// The leading byte is the one marker that the format never uses.
    InvalidMarker,
    /// The leading byte is the marker of an item of another kind.
    TypeMismatch,
}

/// An item read from the head of a sequence and the number of bytes it took,
/// or the reason why there is none.
pub type Parsed<T> = Result<(T, nat), DecodeError>;

/// What stands in the way of reading an item whose marker is none of those
/// looked for: the end of the bytes, the unused marker, or a marker of
/// another kind.
pub open spec fn marker_error(s: Seq<u8>) -> DecodeError {
    if s.len() == 0 {
        DecodeError::UnexpectedEnd
    } else if s[0] == 0xc1 {
        DecodeError::InvalidMarker
    } else {
        DecodeError::TypeMismatch
    }
}

/// An item of `size` bytes in all, if the sequence holds that many.
pub open spec fn sized<T>(s: Seq<u8>, size: nat, item: T) -> Parsed<T> {
    if s.len() >= size {
        Ok((item, size))
    } else {
        Err(DecodeError::UnexpectedEnd)
    }
}

/// Nil.
pub open spec fn parse_nil(s: Seq<u8>) -> Parsed<()> {
    if s.len() > 0 && s[0] == 0xc0 {
        Ok(((), 1))
    } else {
        Err(marker_error(s))
    }
}

/// A boolean.
pub open spec fn parse_bool(s: Seq<u8>) -> Parsed<bool> {
    if s.len() > 0 && s[0] == 0xc2 {
        Ok((false, 1))
    } else if s.len() > 0 && s[0] == 0xc3 {
        Ok((true, 1))
    } else {
        Err(marker_error(s))
    }
}

/// An integer in any of its ten representations.
pub open spec fn parse_int(s: Seq<u8>) -> Parsed<int> {
    if s.len() == 0 {
        Err(DecodeError::UnexpectedEnd)
    } else if s[0] <= 0x7f {
        Ok((s[0] as int, 1))
    } else if s[0] >= 0xe0 {
        Ok((s[0] - 0x100, 1))
    } else if s[0] == 0xcc {
        sized(s, 2, s[1] as int)
    } else if s[0] == 0xcd {
        sized(s, 3, be_value_2(s, 1))
    } else if s[0] == 0xce {
        sized(s, 5, be_value_4(s, 1))
    } else if s[0] == 0xcf {
        sized(s, 9, be_value_8(s, 1))
    } else if s[0] == 0xd0 {
        sized(s, 2, to_signed(s[1] as int, 0x100))
    } else if s[0] == 0xd1 {
        sized(s, 3, to_signed(be_value_2(s, 1), 0x1_0000))
    } else if s[0] == 0xd2 {
        sized(s, 5, to_signed(be_value_4(s, 1), 0x1_0000_0000))
    } else if s[0] == 0xd3 {
        sized(s, 9, to_signed(be_value_8(s, 1), 0x1_0000_0000_0000_0000))
    } else {
        Err(marker_error(s))
    }
}

/// A 32-bit float, as its bit pattern.
pub open spec fn parse_f32(s: Seq<u8>) -> Parsed<u32> {
    if s.len() > 0 && s[0] == 0xca {
        sized(s, 5, be_value_4(s, 1) as u32)
    } else {
        Err(marker_error(s))
    }
}

/// A 64-bit float, as its bit pattern.
pub open spec fn parse_f64(s: Seq<u8>) -> Parsed<u64> {
    if s.len() > 0 && s[0] == 0xcb {
        sized(s, 9, be_value_8(s, 1) as u64)
    } else {
        Err(marker_error(s))
    }
}

/// The header of an array: the number of its items.
pub open spec fn parse_array_len(s: Seq<u8>) -> Parsed<u32> {
    if s.len() > 0 && 0x90 <= s[0] <= 0x9f {
        Ok(((s[0] - 0x90) as u32, 1))
    } else if s.len() > 0 && s[0] == 0xdc {
        sized(s, 3, be_value_2(s, 1) as u32)
    } else if s.len() > 0 && s[0] == 0xdd {
        sized(s, 5, be_value_4(s, 1) as u32)
    } else {
        Err(marker_error(s))
    }
}

/// The header of a map: the number of its pairs.
pub open spec fn parse_map_len(s: Seq<u8>) -> Parsed<u32> {
    if s.len() > 0 && 0x80 <= s[0] <= 0x8f {
        Ok(((s[0] - 0x80) as u32, 1))
    } else if s.len() > 0 && s[0] == 0xde {
        sized(s, 3, be_value_2(s, 1) as u32)
    } else if s.len() > 0 && s[0] == 0xdf {
        sized(s, 5, be_value_4(s, 1) as u32)
    } else {
        Err(marker_error(s))
    }
}

/// The header of binary data: the number of its bytes.
pub open spec fn parse_bin_len(s: Seq<u8>) -> Parsed<u32> {
    if s.len() > 0 && s[0] == 0xc4 {
        sized(s, 2, s[1] as u32)
    } else if s.len() > 0 && s[0] == 0xc5 {
        sized(s, 3, be_value_2(s, 1) as u32)
    } else if s.len() > 0 && s[0] == 0xc6 {
        sized(s, 5, be_value_4(s, 1) as u32)
    } else {
        Err(marker_error(s))
    }
}

/// The header of a string: the number of its bytes.
pub open spec fn parse_str_len(s: Seq<u8>) -> Parsed<u32> {
    if s.len() > 0 && 0xa0 <= s[0] <= 0xbf {
        Ok(((s[0] - 0xa0) as u32, 1))
    } else if s.len() > 0 && s[0] == 0xd9 {
        sized(s, 2, s[1] as u32)
    } else if s.len() > 0 && s[0] == 0xda {
        sized(s, 3, be_value_2(s, 1) as u32)
    } else if s.len() > 0 && s[0] == 0xdb {
        sized(s, 5, be_value_4(s, 1) as u32)
    } else {
        Err(marker_error(s))
    }
}

/// The part of an extension's header that gives the number of its bytes.
pub open spec fn parse_ext_len(s: Seq<u8>) -> Parsed<u32> {
    if s.len() > 0 && s[0] == 0xd4 {
        Ok((1, 1))
    } else if s.len() > 0 && s[0] == 0xd5 {
        Ok((2, 1))
    } else if s.len() > 0 && s[0] == 0xd6 {
        Ok((4, 1))
    } else if s.len() > 0 && s[0] == 0xd7 {
        Ok((8, 1))
    } else if s.len() > 0 && s[0] == 0xd8 {
        Ok((16, 1))
    } else if s.len() > 0 && s[0] == 0xc7 {
        sized(s, 2, s[1] as u32)
    } else if s.len() > 0 && s[0] == 0xc8 {
        sized(s, 3, be_value_2(s, 1) as u32)
    } else if s.len() > 0 && s[0] == 0xc9 {
        sized(s, 5, be_value_4(s, 1) as u32)
    } else {
        Err(marker_error(s))
    }
}

/// The header of an extension: the number of its bytes and its type tag,
/// which is the byte after the length, read as a signed one.
pub open spec fn parse_ext_meta(s: Seq<u8>) -> Parsed<(u32, i8)> {
    match parse_ext_len(s) {
        Ok((len, used)) => sized(s, used + 1, (len, to_signed(s[used as int] as int, 0x100) as i8)),
        Err(e) => Err(e),
    }
}

/// The `len` bytes that follow a header of `used` bytes.
pub open spec fn with_payload(s: Seq<u8>, used: nat, len: u32) -> Parsed<Seq<u8>> {
    sized(s, used + len as nat, s.subrange(used as int, used + len))
}

/// Binary data: its header and its bytes.
pub open spec fn parse_bin(s: Seq<u8>) -> Parsed<Seq<u8>> {
    match parse_bin_len(s) {
        Ok((len, used)) => with_payload(s, used, len),
        Err(e) => Err(e),
    }
}

/// A string: its header and its bytes.
pub open spec fn parse_str(s: Seq<u8>) -> Parsed<Seq<u8>> {
    match parse_str_len(s) {
        Ok((len, used)) => with_payload(s, used, len),
        Err(e) => Err(e),
    }
}

/// An extension: its header and its bytes, as the type tag and the bytes.
pub open spec fn parse_ext(s: Seq<u8>) -> Parsed<(i8, Seq<u8>)> {
    match parse_ext_meta(s) {
        Ok(((len, ty), used)) => sized(
            s,
            used + len as nat,
            (ty, s.subrange(used as int, used + len)),
        ),
        Err(e) => Err(e),
    }
}

/// The kinds of item that a marker can begin.
pub enum Kind {
    Nil,
    Boolean,
    Integer,
    F32,
    F64,
    String,
    Binary,
    Array,
    Mapping,
    Ext,
    /// The one marker that the format never uses begins nothing.
    Unused,
}

/// The kind of item that a marker begins.
pub open spec fn marker_kind(m: Marker) -> Kind {
    match m {
        Marker::Null => Kind::Nil,
        Marker::True | Marker::False => Kind::Boolean,
        Marker::FixPos(_) | Marker::FixNeg(_) | Marker::U8 | Marker::U16 | Marker::U32
        | Marker::U64 | Marker::I8 | Marker::I16 | Marker::I32 | Marker::I64 => Kind::Integer,
        Marker::F32 => Kind::F32,
        Marker::F64 => Kind::F64,
        Marker::FixStr(_) | Marker::Str8 | Marker::Str16 | Marker::Str32 => Kind::String,
        Marker::Bin8 | Marker::Bin16 | Marker::Bin32 => Kind::Binary,
        Marker::FixArray(_) | Marker::Array16 | Marker::Array32 => Kind::Array,
        Marker::FixMap(_) | Marker::Map16 | Marker::Map32 => Kind::Mapping,
        Marker::FixExt1 | Marker::FixExt2 | Marker::FixExt4 | Marker::FixExt8
        | Marker::FixExt16 | Marker::Ext8 | Marker::Ext16 | Marker::Ext32 => Kind::Ext,
        Marker::Reserved => Kind::Unused,
    }
}

/// A parsed item turned into a value by `wrap`, the bytes it took unchanged.
pub open spec fn wrapped<T>(parsed: Parsed<T>, wrap: spec_fn(T) -> ValueModel) -> Parsed<
    ValueModel,
> {
    match parsed {
        Ok((item, used)) => Ok((wrap(item), used)),
        Err(e) => Err(e),
    }
}

/// A value of any kind, with all that it holds: the marker says which kind
/// of item stands there; an array is its header and then as many values as
/// the header says, a map its header and then as many pairs of values.
pub open spec fn parse_value(s: Seq<u8>) -> Parsed<ValueModel>
    decreases s.len(), 0nat,
{
    if s.len() == 0 {
        Err(DecodeError::UnexpectedEnd)
    } else {
        match marker_kind(byte_marker(s[0])) {
            Kind::Nil => Ok((ValueModel::Nil, 1)),
            Kind::Boolean => wrapped(parse_bool(s), |b: bool| ValueModel::Boolean(b)),
            Kind::Integer => wrapped(parse_int(s), |n: int| ValueModel::Integer(n)),
            Kind::F32 => wrapped(parse_f32(s), |bits: u32| ValueModel::F32(bits)),
            Kind::F64 => wrapped(parse_f64(s), |bits: u64| ValueModel::F64(bits)),
            Kind::String => wrapped(parse_str(s), |bytes: Seq<u8>| ValueModel::String(bytes)),
            Kind::Binary => wrapped(parse_bin(s), |bytes: Seq<u8>| ValueModel::Binary(bytes)),
            Kind::Array => match parse_array_len(s) {
                Ok((len, used)) => match parse_items(s.skip(used as int), len as nat) {
                    Ok((items, more)) => Ok((ValueModel::Array(items), used + more)),
                    Err(e) => Err(e),
                },
                Err(e) => Err(e),
            },
            Kind::Mapping => match parse_map_len(s) {
                Ok((len, used)) => match parse_pairs(s.skip(used as int), len as nat) {
                    Ok((pairs, more)) => Ok((ValueModel::Mapping(pairs), used + more)),
                    Err(e) => Err(e),
                },
                Err(e) => Err(e),
            },
            Kind::Ext => wrapped(
                parse_ext(s),
                |ext: (i8, Seq<u8>)| ValueModel::Ext(ext.0, ext.1),
            ),
            Kind::Unused => Err(DecodeError::InvalidMarker),
        }
    }
}

/// `count` values, one after the other. No value takes more bytes than there
/// are (`lemma_parse_value_bounds`); the definition says so itself, to be
/// well founded.
pub open spec fn parse_items(s: Seq<u8>, count: nat) -> Parsed<Seq<ValueModel>>
    decreases s.len(), 1 + count,
{
    if count == 0 {
        Ok((Seq::empty(), 0))
    } else {
        match parse_value(s) {
            Ok((item, used)) => if used <= s.len() {
                match parse_items(s.skip(used as int), (count - 1) as nat) {
                    Ok((items, more)) => Ok((seq![item] + items, used + more)),
                    Err(e) => Err(e),
                }
            } else {
                Err(DecodeError::UnexpectedEnd)
            },
            Err(e) => Err(e),
        }
    }
}

/// `count` pairs, one after the other: of each pair the key, then the value.
/// As in `parse_items`, the tests on the bytes taken always hold.
pub open spec fn parse_pairs(s: Seq<u8>, count: nat) -> Parsed<Seq<(ValueModel, ValueModel)>>
    decreases s.len(), 1 + count,
{
    if count == 0 {
        Ok((Seq::empty(), 0))
    } else {
        match parse_value(s) {
            Ok((key, used)) => if used <= s.len() {
                match parse_value(s.skip(used as int)) {
                    Ok((val, more)) => if used + more <= s.len() {
                        match parse_pairs(s.skip((used + more) as int), (count - 1) as nat) {
                            Ok((pairs, rest)) => Ok(
                                (seq![(key, val)] + pairs, used + more + rest),
                            ),
                            Err(e) => Err(e),
                        }
                    } else {
                        Err(DecodeError::UnexpectedEnd)
                    },
                    Err(e) => Err(e),
                }
            } else {
                Err(DecodeError::UnexpectedEnd)
            },
            Err(e) => Err(e),
        }
    }
}

/// A value takes at least one byte and no more than there are.
pub proof fn lemma_parse_value_bounds(s: Seq<u8>)
    ensures
        parse_value(s) matches Ok((_, used)) ==> 1 <= used <= s.len(),
    decreases s.len(), 0nat,
{
    if s.len() > 0 {
        match marker_kind(byte_marker(s[0])) {
            Kind::Array => {
                if let Ok((len, used)) = parse_array_len(s) {
                    lemma_parse_items_bounds(s.skip(used as int), len as nat);
                }
            },
            Kind::Mapping => {
                if let Ok((len, used)) = parse_map_len(s) {
                    lemma_parse_pairs_bounds(s.skip(used as int), len as nat);
                }
            },
            _ => {},
        }
    }
}

/// `count` values are `count` items, and take no more bytes than there are.
pub proof fn lemma_parse_items_bounds(s: Seq<u8>, count: nat)
    ensures
        parse_items(s, count) matches Ok((items, used)) ==> used <= s.len() && items.len()
            == count,
    decreases s.len(), 1 + count,
{
    if count > 0 {
        lemma_parse_value_bounds(s);
        if let Ok((_, used)) = parse_value(s) {
            lemma_parse_items_bounds(s.skip(used as int), (count - 1) as nat);
        }
    }
}

/// `count` pairs are `count` items, and take no more bytes than there are.
pub proof fn lemma_parse_pairs_bounds(s: Seq<u8>, count: nat)
    ensures
        parse_pairs(s, count) matches Ok((pairs, used)) ==> used <= s.len() && pairs.len()
            == count,
    decreases s.len(), 1 + count,
{
    if count > 0 {
        lemma_parse_value_bounds(s);
        if let Ok((_, used)) = parse_value(s) {
            lemma_parse_value_bounds(s.skip(used as int));
            if let Ok((_, more)) = parse_value(s.skip(used as int)) {
                lemma_parse_pairs_bounds(s.skip((used + more) as int), (count - 1) as nat);
            }
        }
    }
}

} // verus!

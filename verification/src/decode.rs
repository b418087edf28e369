//! The decoder: a source of bytes that gives one item at a time.

use crate::endian::{
    be_value_2, be_value_4, be_value_8, read_be_i16, read_be_i32, read_be_i64, read_be_u16,
    read_be_u32, read_be_u64, to_signed,
};
use crate::marker::byte_marker;
use crate::parse::{
    lemma_parse_items_bounds, lemma_parse_pairs_bounds, lemma_parse_value_bounds,
    parse_array_len, parse_bin, parse_bin_len, parse_bool, parse_ext,
    parse_ext_meta, parse_f32, parse_f64, parse_int, parse_items, parse_map_len, parse_nil,
    parse_pairs, parse_str, parse_str_len, parse_value, DecodeError, Parsed,
};
use crate::value::{lemma_pairs_view, pairs_view, values_view, Integer, Value, ValueModel};
use crate::MsgPackOption;
use rmp::Marker;
use vstd::prelude::*;
use vstd::slice::{slice_subrange, slice_to_vec};

verus! {

/// What is left of `s` once an item has been read from its head, together
/// with the item.
pub open spec fn after<T>(parsed: Parsed<T>, s: Seq<u8>) -> Result<(T, Seq<u8>), DecodeError> {
    match parsed {
        Ok((item, used)) => Ok((item, s.skip(used as int))),
        Err(e) => Err(e),
    }
}

/// The result of a read, with the bytes of the reader that it hands back.
pub open spec fn outcome<T>(r: Result<(T, &[u8]), DecodeError>) -> Result<
    (T, Seq<u8>),
    DecodeError,
> {
    match r {
        Ok((item, rest)) => Ok((item, rest@)),
        Err(e) => Err(e),
    }
}

/// The reader without its first `n` bytes.
fn skip<'a>(reader: &'a [u8], n: usize) -> (rest: &'a [u8])
    requires
        n <= reader@.len(),
    ensures
        rest@ == reader@.skip(n as int),
{
    slice_subrange(reader, n, reader.len())
}

/// The byte at `at`, if the reader holds one there.
fn get_u8(reader: &[u8], at: usize) -> (r: Result<u8, DecodeError>)
    ensures
        r == (if reader@.len() > at {
            Ok::<u8, DecodeError>(reader@[at as int])
        } else {
            Err(DecodeError::UnexpectedEnd)
        }),
{
    if reader.len() > at {
        Ok(reader[at])
    } else {
        Err(DecodeError::UnexpectedEnd)
    }
}

/// The two bytes from `at` on as a number, if the reader holds them.
fn get_u16(reader: &[u8], at: usize) -> (r: Result<u16, DecodeError>)
    requires
        at <= 2,
    ensures
        r == (if reader@.len() >= at + 2 {
            Ok::<u16, DecodeError>(be_value_2(reader@, at as int) as u16)
        } else {
            Err(DecodeError::UnexpectedEnd)
        }),
{
    if reader.len() >= at + 2 {
        Ok(read_be_u16(skip(reader, at)))
    } else {
        Err(DecodeError::UnexpectedEnd)
    }
}

/// The four bytes from `at` on as a number, if the reader holds them.
fn get_u32(reader: &[u8], at: usize) -> (r: Result<u32, DecodeError>)
    requires
        at <= 2,
    ensures
        r == (if reader@.len() >= at + 4 {
            Ok::<u32, DecodeError>(be_value_4(reader@, at as int) as u32)
        } else {
            Err(DecodeError::UnexpectedEnd)
        }),
{
    if reader.len() >= at + 4 {
        Ok(read_be_u32(skip(reader, at)))
    } else {
        Err(DecodeError::UnexpectedEnd)
    }
}

/// The eight bytes from `at` on as a number, if the reader holds them.
fn get_u64(reader: &[u8], at: usize) -> (r: Result<u64, DecodeError>)
    requires
        at <= 2,
    ensures
        r == (if reader@.len() >= at + 8 {
            Ok::<u64, DecodeError>(be_value_8(reader@, at as int) as u64)
        } else {
            Err(DecodeError::UnexpectedEnd)
        }),
{
    if reader.len() >= at + 8 {
        Ok(read_be_u64(skip(reader, at)))
    } else {
        Err(DecodeError::UnexpectedEnd)
    }
}

/// The byte at `at` as a signed number, if the reader holds one there.
fn get_i8(reader: &[u8], at: usize) -> (r: Result<i8, DecodeError>)
    ensures
        r == (if reader@.len() > at {
            Ok::<i8, DecodeError>(to_signed(reader@[at as int] as int, 0x100) as i8)
        } else {
            Err(DecodeError::UnexpectedEnd)
        }),
{
    let byte = get_u8(reader, at)?;
    if byte >= 0x80 {
        Ok((byte as i16 - 0x100) as i8)
    } else {
        Ok(byte as i8)
    }
}

/// The two bytes from `at` on as a signed number, if the reader holds them.
fn get_i16(reader: &[u8], at: usize) -> (r: Result<i16, DecodeError>)
    requires
        at <= 2,
    ensures
        r == (if reader@.len() >= at + 2 {
            Ok::<i16, DecodeError>(to_signed(be_value_2(reader@, at as int), 0x1_0000) as i16)
        } else {
            Err(DecodeError::UnexpectedEnd)
        }),
{
    if reader.len() >= at + 2 {
        Ok(read_be_i16(skip(reader, at)))
    } else {
        Err(DecodeError::UnexpectedEnd)
    }
}

/// The four bytes from `at` on as a signed number, if the reader holds them.
fn get_i32(reader: &[u8], at: usize) -> (r: Result<i32, DecodeError>)
    requires
        at <= 2,
    ensures
        r == (if reader@.len() >= at + 4 {
            Ok::<i32, DecodeError>(
                to_signed(be_value_4(reader@, at as int), 0x1_0000_0000) as i32,
            )
        } else {
            Err(DecodeError::UnexpectedEnd)
        }),
{
    if reader.len() >= at + 4 {
        Ok(read_be_i32(skip(reader, at)))
    } else {
        Err(DecodeError::UnexpectedEnd)
    }
}

/// The eight bytes from `at` on as a signed number, if the reader holds
/// them.
fn get_i64(reader: &[u8], at: usize) -> (r: Result<i64, DecodeError>)
    requires
        at <= 2,
    ensures
        r == (if reader@.len() >= at + 8 {
            Ok::<i64, DecodeError>(
                to_signed(be_value_8(reader@, at as int), 0x1_0000_0000_0000_0000) as i64,
            )
        } else {
            Err(DecodeError::UnexpectedEnd)
        }),
{
    if reader.len() >= at + 8 {
        Ok(read_be_i64(skip(reader, at)))
    } else {
        Err(DecodeError::UnexpectedEnd)
    }
}

/// The `len` bytes from `at` on and the reader behind them, if the reader
/// holds that many.
fn split_payload<'a>(reader: &'a [u8], at: usize, len: u32) -> (r: Result<
    (&'a [u8], &'a [u8]),
    DecodeError,
>)
    requires
        at <= reader@.len(),
    ensures
        match r {
            Ok((data, rest)) => {
                &&& reader@.len() >= at + len
                &&& data@ == reader@.subrange(at as int, at + len)
                &&& rest@ == reader@.skip(at + len)
            },
            Err(e) => e == DecodeError::UnexpectedEnd && reader@.len() < at + len,
        },
{
    if reader.len() - at >= len as usize {
        let end = at + len as usize;
        Ok((slice_subrange(reader, at, end), skip(reader, end)))
    } else {
        Err(DecodeError::UnexpectedEnd)
    }
}

/// Items already read, put in front of what the rest of the bytes reads as.
pub open spec fn prepend<T>(items: Seq<T>, used: nat, rest: Parsed<Seq<T>>) -> Parsed<Seq<T>> {
    match rest {
        Ok((more, taken)) => Ok((items + more, used + taken)),
        Err(e) => Err(e),
    }
}

/// Reads `count` values, one after the other.
fn read_items<'a>(reader: &'a [u8], count: u32) -> (r: Result<(Vec<Value>, &'a [u8]), DecodeError>)
    ensures
        match r {
            Ok((items, rest)) => after(parse_items(reader@, count as nat), reader@) == Ok::<
                (Seq<ValueModel>, Seq<u8>),
                DecodeError,
            >((values_view(items@), rest@)),
            Err(e) => parse_items(reader@, count as nat) == Err::<
                (Seq<ValueModel>, nat),
                DecodeError,
            >(e),
        },
    decreases reader@.len(), 1nat,
{
    let mut items: Vec<Value> = Vec::new();
    let mut cur = reader;
    let mut i: u32 = 0;
    while i < count
        invariant
            i <= count,
            cur@.len() <= reader@.len(),
            cur@ == reader@.skip(reader@.len() - cur@.len()),
            parse_items(reader@, count as nat) == prepend(
                values_view(items@),
                (reader@.len() - cur@.len()) as nat,
                parse_items(cur@, (count - i) as nat),
            ),
        decreases count - i,
    {
        let ghost before = items@;
        let ghost used = (reader@.len() - cur@.len()) as nat;
        proof {
            lemma_parse_value_bounds(cur@);
        }
        match MsgPackSource::new(cur).read_value() {
            Ok((item, rest)) => {
                proof {
                    let took = parse_value(cur@)->Ok_0.1;
                    let tail = parse_items(rest@, (count - i - 1) as nat);
                    assert(before.push(item).drop_last() =~= before);
                    assert(values_view(before.push(item)) == values_view(before).push(item@));
                    assert(rest@ =~= reader@.skip((used + took) as int));
                    if let Ok((more, taken)) = tail {
                        assert(values_view(before) + (seq![item@] + more) =~= values_view(
                            before,
                        ).push(item@) + more);
                    }
                }
                items.push(item);
                cur = rest;
                i = i + 1;
            },
            Err(e) => {
                return Err(e);
            },
        }
    }
    proof {
        assert(values_view(items@) + Seq::<ValueModel>::empty() =~= values_view(items@));
    }
    Ok((items, cur))
}

/// Reads `count` pairs, one after the other: of each the key, then the
/// value.
fn read_pairs<'a>(reader: &'a [u8], count: u32) -> (r: Result<
    (Vec<(Value, Value)>, &'a [u8]),
    DecodeError,
>)
    ensures
        match r {
            Ok((pairs, rest)) => after(parse_pairs(reader@, count as nat), reader@) == Ok::<
                (Seq<(ValueModel, ValueModel)>, Seq<u8>),
                DecodeError,
            >((pairs_view(pairs@), rest@)),
            Err(e) => parse_pairs(reader@, count as nat) == Err::<
                (Seq<(ValueModel, ValueModel)>, nat),
                DecodeError,
            >(e),
        },
    decreases reader@.len(), 1nat,
{
    let mut pairs: Vec<(Value, Value)> = Vec::new();
    let mut cur = reader;
    let mut i: u32 = 0;
    while i < count
        invariant
            i <= count,
            cur@.len() <= reader@.len(),
            cur@ == reader@.skip(reader@.len() - cur@.len()),
            parse_pairs(reader@, count as nat) == prepend(
                pairs_view(pairs@),
                (reader@.len() - cur@.len()) as nat,
                parse_pairs(cur@, (count - i) as nat),
            ),
        decreases count - i,
    {
        let ghost before = pairs@;
        let ghost used = (reader@.len() - cur@.len()) as nat;
        proof {
            lemma_parse_value_bounds(cur@);
        }
        let (key, mid) = match MsgPackSource::new(cur).read_value() {
            Ok(read) => read,
            Err(e) => {
                return Err(e);
            },
        };
        proof {
            lemma_parse_value_bounds(mid@);
        }
        let (val, rest) = match MsgPackSource::new(mid).read_value() {
            Ok(read) => read,
            Err(e) => {
                return Err(e);
            },
        };
        proof {
            let took = parse_value(cur@)->Ok_0.1 + parse_value(mid@)->Ok_0.1;
            let tail = parse_pairs(rest@, (count - i - 1) as nat);
            assert(before.push((key, val)).drop_last() =~= before);
            assert(pairs_view(before.push((key, val))) == pairs_view(before).push((key@, val@)));
            assert(rest@ =~= cur@.skip(took as int));
            assert(rest@ =~= reader@.skip((used + took) as int));
            if let Ok((more, taken)) = tail {
                assert(pairs_view(before) + (seq![(key@, val@)] + more) =~= pairs_view(
                    before,
                ).push((key@, val@)) + more);
            }
        }
        pairs.push((key, val));
        cur = rest;
        i = i + 1;
    }
    proof {
        assert(pairs_view(pairs@) + Seq::<(ValueModel, ValueModel)>::empty() =~= pairs_view(
            pairs@,
        ));
    }
    Ok((pairs, cur))
}

/// A source of bytes that items of the wire format are read from. Each read
/// consumes the source and, where it succeeds, hands back the underlying
/// reader behind the item.
pub struct MsgPackSource<'a> {
    reader: &'a [u8],
}

impl<'a> View for MsgPackSource<'a> {
    type V = Seq<u8>;

    /// The bytes that the underlying reader still holds.
    closed spec fn view(&self) -> Seq<u8> {
        self.reader@
    }
}

impl<'a> MsgPackSource<'a> {
    /// Wraps a reader.
    pub fn new(reader: &'a [u8]) -> (source: Self)
        ensures
            source@ == reader@,
    {
        MsgPackSource { reader }
    }

    /// Hands the underlying reader back.
    pub fn into_inner(self) -> (reader: &'a [u8])
        ensures
            reader@ == self@,
    {
        self.reader
    }

    /// Reads the marker that the next item begins with. The one byte that
    /// the format never uses is refused.
    pub fn read_marker(self) -> (r: Result<(Marker, &'a [u8]), DecodeError>)
        ensures
            outcome(r) == (if self@.len() == 0 {
                Err::<(Marker, Seq<u8>), DecodeError>(DecodeError::UnexpectedEnd)
            } else if self@[0] == 0xc1 {
                Err(DecodeError::InvalidMarker)
            } else {
                Ok((byte_marker(self@[0]), self@.skip(1)))
            }),
    {
        let reader = self.reader;
        if reader.len() == 0 {
            return Err(DecodeError::UnexpectedEnd);
        }
        match Marker::from_u8(reader[0]) {
            Marker::Reserved => Err(DecodeError::InvalidMarker),
            marker => Ok((marker, skip(reader, 1))),
        }
    }

    /// Reads nil.
    pub fn read_nil(self) -> (r: Result<((), &'a [u8]), DecodeError>)
        ensures
            outcome(r) == after(parse_nil(self@), self@),
    {
        let reader = self.reader;
        if reader.len() == 0 {
            return Err(DecodeError::UnexpectedEnd);
        }
        match Marker::from_u8(reader[0]) {
            Marker::Null => Ok(((), skip(reader, 1))),
            Marker::Reserved => Err(DecodeError::InvalidMarker),
            _ => Err(DecodeError::TypeMismatch),
        }
    }

    /// Reads a boolean.
    pub fn read_bool(self) -> (r: Result<(bool, &'a [u8]), DecodeError>)
        ensures
            outcome(r) == after(parse_bool(self@), self@),
    {
        let reader = self.reader;
        if reader.len() == 0 {
            return Err(DecodeError::UnexpectedEnd);
        }
        match Marker::from_u8(reader[0]) {
            Marker::False => Ok((false, skip(reader, 1))),
            Marker::True => Ok((true, skip(reader, 1))),
            Marker::Reserved => Err(DecodeError::InvalidMarker),
            _ => Err(DecodeError::TypeMismatch),
        }
    }

    /// Reads the header of an array: the number of items that follow.
    pub fn read_array_len(self) -> (r: Result<(u32, &'a [u8]), DecodeError>)
        ensures
            outcome(r) == after(parse_array_len(self@), self@),
    {
        let reader = self.reader;
        if reader.len() == 0 {
            return Err(DecodeError::UnexpectedEnd);
        }
        match Marker::from_u8(reader[0]) {
            Marker::FixArray(len) => Ok((len as u32, skip(reader, 1))),
            Marker::Array16 => {
                let len = get_u16(reader, 1)?;
                Ok((len as u32, skip(reader, 3)))
            },
            Marker::Array32 => {
                let len = get_u32(reader, 1)?;
                Ok((len, skip(reader, 5)))
            },
            Marker::Reserved => Err(DecodeError::InvalidMarker),
            _ => Err(DecodeError::TypeMismatch),
        }
    }

    /// Reads the header of a map: the number of pairs that follow.
    pub fn read_map_len(self) -> (r: Result<(u32, &'a [u8]), DecodeError>)
        ensures
            outcome(r) == after(parse_map_len(self@), self@),
    {
        let reader = self.reader;
        if reader.len() == 0 {
            return Err(DecodeError::UnexpectedEnd);
        }
        match Marker::from_u8(reader[0]) {
            Marker::FixMap(len) => Ok((len as u32, skip(reader, 1))),
            Marker::Map16 => {
                let len = get_u16(reader, 1)?;
                Ok((len as u32, skip(reader, 3)))
            },
            Marker::Map32 => {
                let len = get_u32(reader, 1)?;
                Ok((len, skip(reader, 5)))
            },
            Marker::Reserved => Err(DecodeError::InvalidMarker),
            _ => Err(DecodeError::TypeMismatch),
        }
    }

    /// Reads the header of binary data: the number of bytes that follow.
    pub fn read_bin_len(self) -> (r: Result<(u32, &'a [u8]), DecodeError>)
        ensures
            outcome(r) == after(parse_bin_len(self@), self@),
    {
        let reader = self.reader;
        if reader.len() == 0 {
            return Err(DecodeError::UnexpectedEnd);
        }
        match Marker::from_u8(reader[0]) {
            Marker::Bin8 => {
                let len = get_u8(reader, 1)?;
                Ok((len as u32, skip(reader, 2)))
            },
            Marker::Bin16 => {
                let len = get_u16(reader, 1)?;
                Ok((len as u32, skip(reader, 3)))
            },
            Marker::Bin32 => {
                let len = get_u32(reader, 1)?;
                Ok((len, skip(reader, 5)))
            },
            Marker::Reserved => Err(DecodeError::InvalidMarker),
            _ => Err(DecodeError::TypeMismatch),
        }
    }

    /// Reads the header of a string: the number of bytes that follow.
    pub fn read_str_len(self) -> (r: Result<(u32, &'a [u8]), DecodeError>)
        ensures
            outcome(r) == after(parse_str_len(self@), self@),
    {
        let reader = self.reader;
        if reader.len() == 0 {
            return Err(DecodeError::UnexpectedEnd);
        }
        match Marker::from_u8(reader[0]) {
            Marker::FixStr(len) => Ok((len as u32, skip(reader, 1))),
            Marker::Str8 => {
                let len = get_u8(reader, 1)?;
                Ok((len as u32, skip(reader, 2)))
            },
            Marker::Str16 => {
                let len = get_u16(reader, 1)?;
                Ok((len as u32, skip(reader, 3)))
            },
            Marker::Str32 => {
                let len = get_u32(reader, 1)?;
                Ok((len, skip(reader, 5)))
            },
            Marker::Reserved => Err(DecodeError::InvalidMarker),
            _ => Err(DecodeError::TypeMismatch),
        }
    }

    /// Reads the header of an extension: the number of bytes that follow it,
    /// and the type tag.
    pub fn read_ext_meta(self) -> (r: Result<((u32, i8), &'a [u8]), DecodeError>)
        ensures
            outcome(r) == after(parse_ext_meta(self@), self@),
    {
        let reader = self.reader;
        if reader.len() == 0 {
            return Err(DecodeError::UnexpectedEnd);
        }
        let (len, used): (u32, usize) = match Marker::from_u8(reader[0]) {
            Marker::FixExt1 => (1, 1),
            Marker::FixExt2 => (2, 1),
            Marker::FixExt4 => (4, 1),
            Marker::FixExt8 => (8, 1),
            Marker::FixExt16 => (16, 1),
            Marker::Ext8 => (get_u8(reader, 1)? as u32, 2),
            Marker::Ext16 => (get_u16(reader, 1)? as u32, 3),
            Marker::Ext32 => (get_u32(reader, 1)?, 5),
            Marker::Reserved => {
                return Err(DecodeError::InvalidMarker);
            },
            _ => {
                return Err(DecodeError::TypeMismatch);
            },
        };
        let ty = get_i8(reader, used)?;
        Ok(((len, ty), skip(reader, used + 1)))
    }

    /// Reads an integer in whichever of its representations stands there.
    /// What is not negative comes back as `PosInt`.
    pub fn read_int(self) -> (r: Result<(Integer, &'a [u8]), DecodeError>)
        ensures
            match r {
                Ok((val, rest)) => {
                    &&& val.canonical()
                    &&& after(parse_int(self@), self@) == Ok::<(int, Seq<u8>), DecodeError>(
                        (val.value(), rest@),
                    )
                },
                Err(e) => parse_int(self@) == Err::<(int, nat), DecodeError>(e),
            },
    {
        let reader = self.reader;
        if reader.len() == 0 {
            return Err(DecodeError::UnexpectedEnd);
        }
        match Marker::from_u8(reader[0]) {
            Marker::FixPos(val) => Ok((Integer::PosInt(val as u64), skip(reader, 1))),
            Marker::FixNeg(val) => Ok((Integer::from(val as i64), skip(reader, 1))),
            Marker::U8 => {
                let val = get_u8(reader, 1)?;
                Ok((Integer::PosInt(val as u64), skip(reader, 2)))
            },
            Marker::U16 => {
                let val = get_u16(reader, 1)?;
                Ok((Integer::PosInt(val as u64), skip(reader, 3)))
            },
            Marker::U32 => {
                let val = get_u32(reader, 1)?;
                Ok((Integer::PosInt(val as u64), skip(reader, 5)))
            },
            Marker::U64 => {
                let val = get_u64(reader, 1)?;
                Ok((Integer::PosInt(val), skip(reader, 9)))
            },
            Marker::I8 => {
                let val = get_i8(reader, 1)?;
                Ok((Integer::from(val as i64), skip(reader, 2)))
            },
            Marker::I16 => {
                let val = get_i16(reader, 1)?;
                Ok((Integer::from(val as i64), skip(reader, 3)))
            },
            Marker::I32 => {
                let val = get_i32(reader, 1)?;
                Ok((Integer::from(val as i64), skip(reader, 5)))
            },
            Marker::I64 => {
                let val = get_i64(reader, 1)?;
                Ok((Integer::from(val), skip(reader, 9)))
            },
            Marker::Reserved => Err(DecodeError::InvalidMarker),
            _ => Err(DecodeError::TypeMismatch),
        }
    }

    /// Reads a 32-bit float, as its IEEE-754 bit pattern.
    pub fn read_f32(self) -> (r: Result<(u32, &'a [u8]), DecodeError>)
        ensures
            outcome(r) == after(parse_f32(self@), self@),
    {
        let reader = self.reader;
        if reader.len() == 0 {
            return Err(DecodeError::UnexpectedEnd);
        }
        match Marker::from_u8(reader[0]) {
            Marker::F32 => {
                let bits = get_u32(reader, 1)?;
                Ok((bits, skip(reader, 5)))
            },
            Marker::Reserved => Err(DecodeError::InvalidMarker),
            _ => Err(DecodeError::TypeMismatch),
        }
    }

    /// Reads a 64-bit float, as its IEEE-754 bit pattern.
    pub fn read_f64(self) -> (r: Result<(u64, &'a [u8]), DecodeError>)
        ensures
            outcome(r) == after(parse_f64(self@), self@),
    {
        let reader = self.reader;
        if reader.len() == 0 {
            return Err(DecodeError::UnexpectedEnd);
        }
        match Marker::from_u8(reader[0]) {
            Marker::F64 => {
                let bits = get_u64(reader, 1)?;
                Ok((bits, skip(reader, 9)))
            },
            Marker::Reserved => Err(DecodeError::InvalidMarker),
            _ => Err(DecodeError::TypeMismatch),
        }
    }

    /// Reads binary data: its header, then as many bytes as the header says.
    pub fn read_bin(self) -> (r: Result<(&'a [u8], &'a [u8]), DecodeError>)
        ensures
            match r {
                Ok((data, rest)) => after(parse_bin(self@), self@) == Ok::<
                    (Seq<u8>, Seq<u8>),
                    DecodeError,
                >((data@, rest@)),
                Err(e) => parse_bin(self@) == Err::<(Seq<u8>, nat), DecodeError>(e),
            },
    {
        let reader = self.reader;
        let (len, rest) = MsgPackSource::new(reader).read_bin_len()?;
        split_payload(reader, reader.len() - rest.len(), len)
    }

    /// Reads a string as bytes: its header, then as many bytes as the header
    /// says.
    pub fn read_str_bytes(self) -> (r: Result<(&'a [u8], &'a [u8]), DecodeError>)
        ensures
            match r {
                Ok((data, rest)) => after(parse_str(self@), self@) == Ok::<
                    (Seq<u8>, Seq<u8>),
                    DecodeError,
                >((data@, rest@)),
                Err(e) => parse_str(self@) == Err::<(Seq<u8>, nat), DecodeError>(e),
            },
    {
        let reader = self.reader;
        let (len, rest) = MsgPackSource::new(reader).read_str_len()?;
        split_payload(reader, reader.len() - rest.len(), len)
    }

    /// Reads an extension: its header, then as many bytes as the header
    /// says. Gives the type tag and the bytes.
    pub fn read_ext(self) -> (r: Result<((i8, &'a [u8]), &'a [u8]), DecodeError>)
        ensures
            match r {
                Ok(((ty, data), rest)) => after(parse_ext(self@), self@) == Ok::<
                    ((i8, Seq<u8>), Seq<u8>),
                    DecodeError,
                >(((ty, data@), rest@)),
                Err(e) => parse_ext(self@) == Err::<((i8, Seq<u8>), nat), DecodeError>(e),
            },
    {
        let reader = self.reader;
        let ((len, ty), rest) = MsgPackSource::new(reader).read_ext_meta()?;
        let (data, rest) = split_payload(reader, reader.len() - rest.len(), len)?;
        Ok(((ty, data), rest))
    }

    /// Reads a value of any kind, with all that it holds.
    pub fn read_value(self) -> (r: Result<(Value, &'a [u8]), DecodeError>)
        ensures
            match r {
                Ok((value, rest)) => after(parse_value(self@), self@) == Ok::<
                    (ValueModel, Seq<u8>),
                    DecodeError,
                >((value@, rest@)),
                Err(e) => parse_value(self@) == Err::<(ValueModel, nat), DecodeError>(e),
            },
        decreases self@.len(), 0nat,
    {
        let reader = self.reader;
        if reader.len() == 0 {
            return Err(DecodeError::UnexpectedEnd);
        }
        match Marker::from_u8(reader[0]) {
            Marker::Null => Ok((Value::Nil, skip(reader, 1))),
            Marker::True | Marker::False => {
                let (val, rest) = self.read_bool()?;
                Ok((Value::Boolean(val), rest))
            },
            Marker::FixPos(_) | Marker::FixNeg(_) | Marker::U8 | Marker::U16 | Marker::U32
            | Marker::U64 | Marker::I8 | Marker::I16 | Marker::I32 | Marker::I64 => {
                let (val, rest) = self.read_int()?;
                Ok((Value::Integer(val), rest))
            },
            Marker::F32 => {
                let (bits, rest) = self.read_f32()?;
                Ok((Value::F32(bits), rest))
            },
            Marker::F64 => {
                let (bits, rest) = self.read_f64()?;
                Ok((Value::F64(bits), rest))
            },
            Marker::FixStr(_) | Marker::Str8 | Marker::Str16 | Marker::Str32 => {
                let (bytes, rest) = self.read_str_bytes()?;
                Ok((Value::String(slice_to_vec(bytes)), rest))
            },
            Marker::Bin8 | Marker::Bin16 | Marker::Bin32 => {
                let (bytes, rest) = self.read_bin()?;
                Ok((Value::Binary(slice_to_vec(bytes)), rest))
            },
            Marker::FixArray(_) | Marker::Array16 | Marker::Array32 => {
                let (len, body) = self.read_array_len()?;
                let (items, rest) = read_items(body, len)?;
                proof {
                    let used = parse_array_len(self@)->Ok_0.1;
                    let more = parse_items(body@, len as nat)->Ok_0.1;
                    lemma_parse_items_bounds(body@, len as nat);
                    assert(rest@ =~= self@.skip((used + more) as int));
                }
                Ok((Value::Array(items), rest))
            },
            Marker::FixMap(_) | Marker::Map16 | Marker::Map32 => {
                let (len, body) = self.read_map_len()?;
                let (pairs, rest) = read_pairs(body, len)?;
                proof {
                    let used = parse_map_len(self@)->Ok_0.1;
                    let more = parse_pairs(body@, len as nat)->Ok_0.1;
                    lemma_parse_pairs_bounds(body@, len as nat);
                    assert(rest@ =~= self@.skip((used + more) as int));
                }
                Ok((Value::Mapping(pairs), rest))
            },
            Marker::FixExt1 | Marker::FixExt2 | Marker::FixExt4 | Marker::FixExt8
            | Marker::FixExt16 | Marker::Ext8 | Marker::Ext16 | Marker::Ext32 => {
                let ((ty, bytes), rest) = self.read_ext()?;
                Ok((Value::Ext(ty, slice_to_vec(bytes)), rest))
            },
            Marker::Reserved => Err(DecodeError::InvalidMarker),
        }
    }

    /// Reads the header of an array and hands back a reader of its items.
    pub fn read_array(self) -> (r: Result<ArrayReader<'a>, DecodeError>)
        ensures
            match r {
                Ok(items) => after(parse_array_len(self@), self@) == Ok::<
                    (u32, Seq<u8>),
                    DecodeError,
                >((items.remaining(), items@)),
                Err(e) => parse_array_len(self@) == Err::<(u32, nat), DecodeError>(e),
            },
    {
        let (remaining, reader) = self.read_array_len()?;
        Ok(ArrayReader { reader, remaining })
    }

    /// Reads the header of a map and hands back a reader of its pairs.
    pub fn read_map(self) -> (r: Result<MapReader<'a>, DecodeError>)
        ensures
            match r {
                Ok(pairs) => after(parse_map_len(self@), self@) == Ok::<
                    (u32, Seq<u8>),
                    DecodeError,
                >((pairs.remaining(), pairs@)),
                Err(e) => parse_map_len(self@) == Err::<(u32, nat), DecodeError>(e),
            },
    {
        let (remaining, reader) = self.read_map_len()?;
        Ok(MapReader { reader, remaining })
    }
}

/// A reader of the items of an array, which knows how many are left.
pub struct ArrayReader<'a> {
    reader: &'a [u8],
    remaining: u32,
}

impl<'a> View for ArrayReader<'a> {
    type V = Seq<u8>;

    /// The bytes that the underlying reader still holds.
    closed spec fn view(&self) -> Seq<u8> {
        self.reader@
    }
}

impl<'a> ArrayReader<'a> {
    /// The number of items that have not been read yet.
    pub closed spec fn remaining(&self) -> u32 {
        self.remaining
    }

    /// The number of items that have not been read yet.
    pub fn len(&self) -> (n: u32)
        ensures
            n == self.remaining(),
    {
        self.remaining
    }

    /// Reads the next item and hands it back with a reader of the items
    /// behind it; or, where no item is left, hands back the underlying
    /// reader, untouched.
    pub fn next(self) -> (r: Result<
        MsgPackOption<(Value, ArrayReader<'a>), &'a [u8]>,
        DecodeError,
    >)
        ensures
            match r {
                Ok(MsgPackOption::Item((item, items))) => {
                    &&& self.remaining() > 0
                    &&& items.remaining() == self.remaining() - 1
                    &&& after(parse_value(self@), self@) == Ok::<
                        (ValueModel, Seq<u8>),
                        DecodeError,
                    >((item@, items@))
                },
                Ok(MsgPackOption::End(reader)) => self.remaining() == 0 && reader@ == self@,
                Err(e) => self.remaining() > 0 && parse_value(self@) == Err::<
                    (ValueModel, nat),
                    DecodeError,
                >(e),
            },
    {
        if self.remaining == 0 {
            return Ok(MsgPackOption::End(self.reader));
        }
        let (item, reader) = MsgPackSource::new(self.reader).read_value()?;
        Ok(MsgPackOption::Item((item, ArrayReader { reader, remaining: self.remaining - 1 })))
    }
}

/// A reader of the pairs of a map, which knows how many are left.
pub struct MapReader<'a> {
    reader: &'a [u8],
    remaining: u32,
}

impl<'a> View for MapReader<'a> {
    type V = Seq<u8>;

    /// The bytes that the underlying reader still holds.
    closed spec fn view(&self) -> Seq<u8> {
        self.reader@
    }
}

impl<'a> MapReader<'a> {
    /// The number of pairs that have not been read yet.
    pub closed spec fn remaining(&self) -> u32 {
        self.remaining
    }

    /// The number of pairs that have not been read yet.
    pub fn len(&self) -> (n: u32)
        ensures
            n == self.remaining(),
    {
        self.remaining
    }

    /// Reads the next pair, the key and then the value, and hands it back
    /// with a reader of the pairs behind it; or, where no pair is left, hands
    /// back the underlying reader, untouched.
    pub fn next(self) -> (r: Result<
        MsgPackOption<((Value, Value), MapReader<'a>), &'a [u8]>,
        DecodeError,
    >)
        ensures
            match r {
                Ok(MsgPackOption::Item(((key, val), pairs))) => {
                    &&& self.remaining() > 0
                    &&& pairs.remaining() == self.remaining() - 1
                    &&& after(parse_pairs(self@, 1), self@) == Ok::<
                        (Seq<(ValueModel, ValueModel)>, Seq<u8>),
                        DecodeError,
                    >((seq![(key@, val@)], pairs@))
                },
                Ok(MsgPackOption::End(reader)) => self.remaining() == 0 && reader@ == self@,
                Err(e) => self.remaining() > 0 && parse_pairs(self@, 1) == Err::<
                    (Seq<(ValueModel, ValueModel)>, nat),
                    DecodeError,
                >(e),
            },
    {
        if self.remaining == 0 {
            return Ok(MsgPackOption::End(self.reader));
        }
        let (pair, reader) = read_pairs(self.reader, 1)?;
        let mut pair = pair;
        let ghost whole = pair@;
        proof {
            lemma_pairs_view(pair@);
            lemma_parse_pairs_bounds(self@, 1);
        }
        match pair.pop() {
            Some((key, val)) => {
                assert(pairs_view(whole) =~= seq![(key@, val@)]);
                let pairs = MapReader { reader, remaining: self.remaining - 1 };
                Ok(MsgPackOption::Item(((key, val), pairs)))
            },
            None => unreached(),
        }
    }
}

} // verus!

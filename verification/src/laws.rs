//! What is written reads back as what it was.
//!
//! Each law takes the bytes that the encoder writes for an item, with any
//! bytes behind them, and says that the decoder reads the item back and
//! stops right behind it.

use crate::endian::{
    be_bytes_2, be_bytes_4, be_bytes_8, lemma_be_2_round_trip, lemma_be_4_round_trip,
    lemma_be_8_round_trip, to_unsigned,
};
use crate::format::{
    array_header, bin_header, bool_encoding, ext_header, ext_len_header, f32_encoding,
    f64_encoding, int_encoding, map_header, nil_encoding, str_header,
};
use crate::integer::EfficientInt;
use crate::marker::byte_marker;
use crate::parse::{
    marker_kind, parse_array_len, parse_bin, parse_bin_len, parse_bool, parse_ext, parse_ext_len,
    parse_ext_meta, parse_f32, parse_f64, parse_int, parse_items, parse_map_len, parse_nil,
    parse_pairs, parse_str, parse_str_len, parse_value, DecodeError, Kind,
};
use crate::value::{items_encoding, pairs_encoding, ValueModel};
use vstd::prelude::*;

verus! {

/// Nil reads back as nil.
pub proof fn lemma_nil_round_trip(rest: Seq<u8>)
    ensures
        parse_nil(nil_encoding() + rest) == Ok::<((), nat), DecodeError>(((), 1)),
{
}

/// A boolean reads back as itself.
pub proof fn lemma_bool_round_trip(val: bool, rest: Seq<u8>)
    ensures
        parse_bool(bool_encoding(val) + rest) == Ok::<(bool, nat), DecodeError>((val, 1)),
{
}

/// An integer in any representation that the wire format can carry takes as
/// many bytes as the representation's length says, and reads back as the
/// value that the representation stands for.
pub proof fn lemma_int_round_trip(val: EfficientInt, rest: Seq<u8>)
    requires
        val.fits(),
    ensures
        int_encoding(val).len() == val.encoded_len(),
        parse_int(int_encoding(val) + rest) == Ok::<(int, nat), DecodeError>(
            (val.value(), val.encoded_len()),
        ),
{
    let s = int_encoding(val) + rest;
    let marker = seq![s[0]];
    match val {
        EfficientInt::U16(v) => {
            lemma_be_2_round_trip(v as int, marker, rest);
            assert(s =~= marker + be_bytes_2(v as int) + rest);
        },
        EfficientInt::U32(v) => {
            lemma_be_4_round_trip(v as int, marker, rest);
            assert(s =~= marker + be_bytes_4(v as int) + rest);
        },
        EfficientInt::U64(v) => {
            lemma_be_8_round_trip(v as int, marker, rest);
            assert(s =~= marker + be_bytes_8(v as int) + rest);
        },
        EfficientInt::I16(v) => {
            let u = to_unsigned(v as int, 0x1_0000);
            lemma_be_2_round_trip(u, marker, rest);
            assert(s =~= marker + be_bytes_2(u) + rest);
        },
        EfficientInt::I32(v) => {
            let u = to_unsigned(v as int, 0x1_0000_0000);
            lemma_be_4_round_trip(u, marker, rest);
            assert(s =~= marker + be_bytes_4(u) + rest);
        },
        EfficientInt::I64(v) => {
            let u = to_unsigned(v as int, 0x1_0000_0000_0000_0000);
            lemma_be_8_round_trip(u, marker, rest);
            assert(s =~= marker + be_bytes_8(u) + rest);
        },
        _ => {},
    }
}

/// Every integer from `-2^63` to `2^64 - 1`, written in its smallest
/// representation, reads back as itself.
pub proof fn lemma_minimal_int_round_trip(v: int, rest: Seq<u8>)
    requires
        -0x8000_0000_0000_0000 <= v <= 0xffff_ffff_ffff_ffff,
    ensures
        parse_int(int_encoding(EfficientInt::minimal(v)) + rest) == Ok::<(int, nat), DecodeError>(
            (v, int_encoding(EfficientInt::minimal(v)).len()),
        ),
{
    lemma_int_round_trip(EfficientInt::minimal(v), rest);
}

/// A 32-bit float reads back with the bit pattern it was written with.
pub proof fn lemma_f32_round_trip(bits: u32, rest: Seq<u8>)
    ensures
        parse_f32(f32_encoding(bits) + rest) == Ok::<(u32, nat), DecodeError>((bits, 5)),
{
    lemma_be_4_round_trip(bits as int, seq![0xcau8], rest);
}

/// A 64-bit float reads back with the bit pattern it was written with.
pub proof fn lemma_f64_round_trip(bits: u64, rest: Seq<u8>)
    ensures
        parse_f64(f64_encoding(bits) + rest) == Ok::<(u64, nat), DecodeError>((bits, 9)),
{
    lemma_be_8_round_trip(bits as int, seq![0xcbu8], rest);
}

/// The header of an array reads back as the length it was written for,
/// whichever of the three classes the length falls in.
pub proof fn lemma_array_len_round_trip(len: u32, rest: Seq<u8>)
    ensures
        parse_array_len(array_header(len) + rest) == Ok::<(u32, nat), DecodeError>(
            (len, array_header(len).len()),
        ),
{
    if len > 0xffff {
        lemma_be_4_round_trip(len as int, seq![0xddu8], rest);
    } else if len > 15 {
        lemma_be_2_round_trip(len as int, seq![0xdcu8], rest);
    }
}

/// The header of a map reads back as the length it was written for.
pub proof fn lemma_map_len_round_trip(len: u32, rest: Seq<u8>)
    ensures
        parse_map_len(map_header(len) + rest) == Ok::<(u32, nat), DecodeError>(
            (len, map_header(len).len()),
        ),
{
    if len > 0xffff {
        lemma_be_4_round_trip(len as int, seq![0xdfu8], rest);
    } else if len > 15 {
        lemma_be_2_round_trip(len as int, seq![0xdeu8], rest);
    }
}

/// The header of binary data reads back as the length it was written for.
pub proof fn lemma_bin_len_round_trip(len: u32, rest: Seq<u8>)
    ensures
        parse_bin_len(bin_header(len) + rest) == Ok::<(u32, nat), DecodeError>(
            (len, bin_header(len).len()),
        ),
{
    if len > 0xffff {
        lemma_be_4_round_trip(len as int, seq![0xc6u8], rest);
    } else if len > 0xff {
        lemma_be_2_round_trip(len as int, seq![0xc5u8], rest);
    }
}

/// The header of a string reads back as the length it was written for.
pub proof fn lemma_str_len_round_trip(len: u32, rest: Seq<u8>)
    ensures
        parse_str_len(str_header(len) + rest) == Ok::<(u32, nat), DecodeError>(
            (len, str_header(len).len()),
        ),
{
    if len > 0xffff {
        lemma_be_4_round_trip(len as int, seq![0xdbu8], rest);
    } else if len > 0xff {
        lemma_be_2_round_trip(len as int, seq![0xdau8], rest);
    }
}

/// The header of an extension reads back as the length and the type tag it
/// was written for. The lengths 1, 2, 4, 8 and 16 take one byte before the
/// tag, and no other length does.
pub proof fn lemma_ext_meta_round_trip(len: u32, ty: i8, rest: Seq<u8>)
    requires
        ty >= 0,
    ensures
        parse_ext_meta(ext_header(len, ty) + rest) == Ok::<((u32, i8), nat), DecodeError>(
            ((len, ty), ext_header(len, ty).len()),
        ),
        ext_header(len, ty).len() == 2 <==> len == 1 || len == 2 || len == 4 || len == 8 || len
            == 16,
{
    let tail = seq![ty as u8] + rest;
    let s = ext_header(len, ty) + rest;
    assert(s =~= ext_len_header(len) + tail);
    if len > 0xffff {
        lemma_be_4_round_trip(len as int, seq![0xc9u8], tail);
    } else if len > 0xff {
        lemma_be_2_round_trip(len as int, seq![0xc8u8], tail);
    }
    assert(parse_ext_len(s) == Ok::<(u32, nat), DecodeError>((len, ext_len_header(len).len())));
    assert(s[ext_len_header(len).len() as int] == ty as u8);
}

/// Binary data reads back as the bytes that were written.
pub proof fn lemma_bin_round_trip(data: Seq<u8>, rest: Seq<u8>)
    requires
        data.len() <= u32::MAX,
    ensures
        parse_bin(bin_header(data.len() as u32) + data + rest) == Ok::<(Seq<u8>, nat), DecodeError>(
            (data, bin_header(data.len() as u32).len() + data.len()),
        ),
{
    let header = bin_header(data.len() as u32);
    let s = header + data + rest;
    lemma_bin_len_round_trip(data.len() as u32, data + rest);
    assert(s =~= header + (data + rest));
    assert(s.subrange(header.len() as int, (header.len() + data.len()) as int) =~= data);
}

/// A string reads back as the bytes that were written.
pub proof fn lemma_str_round_trip(data: Seq<u8>, rest: Seq<u8>)
    requires
        data.len() <= u32::MAX,
    ensures
        parse_str(str_header(data.len() as u32) + data + rest) == Ok::<(Seq<u8>, nat), DecodeError>(
            (data, str_header(data.len() as u32).len() + data.len()),
        ),
{
    let header = str_header(data.len() as u32);
    let s = header + data + rest;
    lemma_str_len_round_trip(data.len() as u32, data + rest);
    assert(s =~= header + (data + rest));
    assert(s.subrange(header.len() as int, (header.len() + data.len()) as int) =~= data);
}

/// An extension reads back as the type tag and the bytes that were written.
pub proof fn lemma_ext_round_trip(ty: i8, data: Seq<u8>, rest: Seq<u8>)
    requires
        ty >= 0,
        data.len() <= u32::MAX,
    ensures
        parse_ext(ext_header(data.len() as u32, ty) + data + rest) == Ok::<
            ((i8, Seq<u8>), nat),
            DecodeError,
        >(((ty, data), ext_header(data.len() as u32, ty).len() + data.len())),
{
    let header = ext_header(data.len() as u32, ty);
    let s = header + data + rest;
    lemma_ext_meta_round_trip(data.len() as u32, ty, data + rest);
    assert(s =~= header + (data + rest));
    assert(s.subrange(header.len() as int, (header.len() + data.len()) as int) =~= data);
}

/// The bytes of a sequence of values are those of the first value and then
/// those of the others.
pub proof fn lemma_items_encoding_front(items: Seq<ValueModel>)
    requires
        items.len() > 0,
    ensures
        items_encoding(items) == items[0].encoding() + items_encoding(items.skip(1)),
    decreases items.len(),
{
    if items.len() == 1 {
        assert(items.drop_last() =~= items.skip(1));
        assert(items_encoding(items.skip(1)) =~= Seq::<u8>::empty());
        assert(items_encoding(items) =~= items[0].encoding() + items_encoding(items.skip(1)));
    } else {
        lemma_items_encoding_front(items.drop_last());
        assert(items.drop_last().skip(1) =~= items.skip(1).drop_last());
        assert(items_encoding(items) =~= items[0].encoding() + items_encoding(items.skip(1)));
    }
}

/// The bytes of a sequence of pairs are those of the first pair and then
/// those of the others.
pub proof fn lemma_pairs_encoding_front(pairs: Seq<(ValueModel, ValueModel)>)
    requires
        pairs.len() > 0,
    ensures
        pairs_encoding(pairs) == pairs[0].0.encoding() + pairs[0].1.encoding() + pairs_encoding(
            pairs.skip(1),
        ),
    decreases pairs.len(),
{
    if pairs.len() == 1 {
        assert(pairs.drop_last() =~= pairs.skip(1));
        assert(pairs_encoding(pairs.skip(1)) =~= Seq::<u8>::empty());
        assert(pairs_encoding(pairs) =~= pairs[0].0.encoding() + pairs[0].1.encoding()
            + pairs_encoding(pairs.skip(1)));
    } else {
        lemma_pairs_encoding_front(pairs.drop_last());
        assert(pairs.drop_last().skip(1) =~= pairs.skip(1).drop_last());
        assert(pairs_encoding(pairs) =~= pairs[0].0.encoding() + pairs[0].1.encoding()
            + pairs_encoding(pairs.skip(1)));
    }
}

/// The first byte of what is written for a value is a marker of the value's
/// kind.
pub proof fn lemma_encoding_kind(v: ValueModel)
    requires
        v.encodable(),
    ensures
        v.encoding().len() > 0,
        marker_kind(byte_marker(v.encoding()[0])) == (match v {
            ValueModel::Nil => Kind::Nil,
            ValueModel::Boolean(_) => Kind::Boolean,
            ValueModel::Integer(_) => Kind::Integer,
            ValueModel::F32(_) => Kind::F32,
            ValueModel::F64(_) => Kind::F64,
            ValueModel::String(_) => Kind::String,
            ValueModel::Binary(_) => Kind::Binary,
            ValueModel::Array(_) => Kind::Array,
            ValueModel::Mapping(_) => Kind::Mapping,
            ValueModel::Ext(_, _) => Kind::Ext,
        }),
{
}

/// An integer value reads back as itself.
proof fn lemma_integer_round_trip(n: int, rest: Seq<u8>)
    requires
        ValueModel::Integer(n).encodable(),
    ensures
        parse_value(ValueModel::Integer(n).encoding() + rest) == Ok::<
            (ValueModel, nat),
            DecodeError,
        >((ValueModel::Integer(n), ValueModel::Integer(n).encoding().len())),
{
    let v = ValueModel::Integer(n);
    let s = v.encoding() + rest;
    lemma_encoding_kind(v);
    assert(s[0] == v.encoding()[0]);
    lemma_minimal_int_round_trip(n, rest);
}

/// Nil, a boolean or a float reads back as itself.
proof fn lemma_scalar_round_trip(v: ValueModel, rest: Seq<u8>)
    requires
        v.encodable(),
        v is Nil || v is Boolean || v is F32 || v is F64,
    ensures
        parse_value(v.encoding() + rest) == Ok::<(ValueModel, nat), DecodeError>(
            (v, v.encoding().len()),
        ),
{
    let s = v.encoding() + rest;
    lemma_encoding_kind(v);
    assert(s[0] == v.encoding()[0]);
    match v {
        ValueModel::Boolean(b) => {
            lemma_bool_round_trip(b, rest);
        },
        ValueModel::F32(bits) => {
            lemma_f32_round_trip(bits, rest);
        },
        ValueModel::F64(bits) => {
            lemma_f64_round_trip(bits, rest);
        },
        _ => {},
    }
}

/// A string, binary data or an extension reads back as itself.
proof fn lemma_bytes_round_trip(v: ValueModel, rest: Seq<u8>)
    requires
        v.encodable(),
        v is String || v is Binary || v is Ext,
    ensures
        parse_value(v.encoding() + rest) == Ok::<(ValueModel, nat), DecodeError>(
            (v, v.encoding().len()),
        ),
{
    let s = v.encoding() + rest;
    lemma_encoding_kind(v);
    assert(s[0] == v.encoding()[0]);
    match v {
        ValueModel::String(bytes) => {
            lemma_str_round_trip(bytes, rest);
        },
        ValueModel::Binary(bytes) => {
            lemma_bin_round_trip(bytes, rest);
        },
        ValueModel::Ext(ty, bytes) => {
            lemma_ext_round_trip(ty, bytes, rest);
        },
        _ => {},
    }
}

/// An array reads back as itself if its items do.
proof fn lemma_array_round_trip(items: Seq<ValueModel>, rest: Seq<u8>)
    requires
        ValueModel::Array(items).encodable(),
        parse_items(items_encoding(items) + rest, items.len()) == Ok::<
            (Seq<ValueModel>, nat),
            DecodeError,
        >((items, items_encoding(items).len())),
    ensures
        parse_value(ValueModel::Array(items).encoding() + rest) == Ok::<
            (ValueModel, nat),
            DecodeError,
        >((ValueModel::Array(items), ValueModel::Array(items).encoding().len())),
{
    let v = ValueModel::Array(items);
    let s = v.encoding() + rest;
    let header = array_header(items.len() as u32);
    lemma_encoding_kind(v);
    assert(s[0] == v.encoding()[0]);
    lemma_array_len_round_trip(items.len() as u32, items_encoding(items) + rest);
    assert(s =~= header + (items_encoding(items) + rest));
    assert(s.skip(header.len() as int) =~= items_encoding(items) + rest);
}

/// A map reads back as itself if its pairs do.
proof fn lemma_mapping_round_trip(pairs: Seq<(ValueModel, ValueModel)>, rest: Seq<u8>)
    requires
        ValueModel::Mapping(pairs).encodable(),
        parse_pairs(pairs_encoding(pairs) + rest, pairs.len()) == Ok::<
            (Seq<(ValueModel, ValueModel)>, nat),
            DecodeError,
        >((pairs, pairs_encoding(pairs).len())),
    ensures
        parse_value(ValueModel::Mapping(pairs).encoding() + rest) == Ok::<
            (ValueModel, nat),
            DecodeError,
        >((ValueModel::Mapping(pairs), ValueModel::Mapping(pairs).encoding().len())),
{
    let v = ValueModel::Mapping(pairs);
    let s = v.encoding() + rest;
    let header = map_header(pairs.len() as u32);
    lemma_encoding_kind(v);
    assert(s[0] == v.encoding()[0]);
    lemma_map_len_round_trip(pairs.len() as u32, pairs_encoding(pairs) + rest);
    assert(s =~= header + (pairs_encoding(pairs) + rest));
    assert(s.skip(header.len() as int) =~= pairs_encoding(pairs) + rest);
}

/// Four sequences put together are the same however they are grouped.
proof fn lemma_regroup(a: Seq<u8>, b: Seq<u8>, c: Seq<u8>, d: Seq<u8>)
    ensures
        a + b + c + d == a + (b + (c + d)),
        a + b + c + d == (a + b) + (c + d),
{
    assert(a + b + c + d =~= a + (b + (c + d)));
    assert(a + b + c + d =~= (a + b) + (c + d));
}

/// What is left of two sequences put together, without the first, is the
/// second.
proof fn lemma_skip_front(a: Seq<u8>, b: Seq<u8>)
    ensures
        (a + b).skip(a.len() as int) == b,
{
    assert((a + b).skip(a.len() as int) =~= b);
}

/// A first pair and the pairs behind it read as one sequence of pairs.
proof fn lemma_parse_pairs_step(
    s: Seq<u8>,
    count: nat,
    first: (ValueModel, ValueModel),
    used: nat,
    more: nat,
    others: Seq<(ValueModel, ValueModel)>,
    taken: nat,
)
    requires
        count > 0,
        used + more <= s.len(),
        parse_value(s) == Ok::<(ValueModel, nat), DecodeError>((first.0, used)),
        parse_value(s.skip(used as int)) == Ok::<(ValueModel, nat), DecodeError>((first.1, more)),
        parse_pairs(s.skip((used + more) as int), (count - 1) as nat) == Ok::<
            (Seq<(ValueModel, ValueModel)>, nat),
            DecodeError,
        >((others, taken)),
    ensures
        parse_pairs(s, count) == Ok::<(Seq<(ValueModel, ValueModel)>, nat), DecodeError>(
            (seq![first] + others, used + more + taken),
        ),
{
}

/// Every value that the wire format can carry, however deeply arrays and
/// maps are nested in it, reads back as itself, items and pairs in the order
/// in which they were written; and the reader stops right behind it.
pub proof fn lemma_value_round_trip(v: ValueModel, rest: Seq<u8>)
    requires
        v.encodable(),
    ensures
        parse_value(v.encoding() + rest) == Ok::<(ValueModel, nat), DecodeError>(
            (v, v.encoding().len()),
        ),
    decreases v,
{
    match v {
        ValueModel::Array(items) => {
            lemma_items_round_trip(items, rest);
            lemma_array_round_trip(items, rest);
        },
        ValueModel::Mapping(pairs) => {
            lemma_pairs_round_trip(pairs, rest);
            lemma_mapping_round_trip(pairs, rest);
        },
        ValueModel::String(_) | ValueModel::Binary(_) | ValueModel::Ext(_, _) => {
            lemma_bytes_round_trip(v, rest);
        },
        ValueModel::Integer(n) => {
            lemma_integer_round_trip(n, rest);
        },
        _ => {
            lemma_scalar_round_trip(v, rest);
        },
    }
}

/// A sequence of values that the wire format can carry reads back as
/// itself, in the same order.
pub proof fn lemma_items_round_trip(items: Seq<ValueModel>, rest: Seq<u8>)
    requires
        forall|i: int| 0 <= i < items.len() ==> (#[trigger] items[i]).encodable(),
    ensures
        parse_items(items_encoding(items) + rest, items.len()) == Ok::<
            (Seq<ValueModel>, nat),
            DecodeError,
        >((items, items_encoding(items).len())),
    decreases items,
{
    if items.len() > 0 {
        let s = items_encoding(items) + rest;
        let first = items[0].encoding();
        let others = items.skip(1);
        lemma_items_encoding_front(items);
        lemma_value_round_trip(items[0], items_encoding(others) + rest);
        assert(s =~= first + (items_encoding(others) + rest));
        assert(s.skip(first.len() as int) =~= items_encoding(others) + rest);
        assert forall|i: int| 0 <= i < others.len() implies (#[trigger] others[i]).encodable() by {
            assert(others[i] == items[i + 1]);
        }
        lemma_items_round_trip(others, rest);
        assert(seq![items[0]] + others =~= items);
    } else {
        assert(items =~= Seq::<ValueModel>::empty());
    }
}

/// A sequence of pairs reads back as itself if its first key, its first
/// value and the pairs behind them do.
proof fn lemma_pairs_round_trip_step(pairs: Seq<(ValueModel, ValueModel)>, rest: Seq<u8>)
    requires
        pairs.len() > 0,
        parse_value(
            pairs[0].0.encoding() + (pairs[0].1.encoding() + (pairs_encoding(pairs.skip(1))
                + rest)),
        ) == Ok::<(ValueModel, nat), DecodeError>((pairs[0].0, pairs[0].0.encoding().len())),
        parse_value(pairs[0].1.encoding() + (pairs_encoding(pairs.skip(1)) + rest)) == Ok::<
            (ValueModel, nat),
            DecodeError,
        >((pairs[0].1, pairs[0].1.encoding().len())),
        parse_pairs(pairs_encoding(pairs.skip(1)) + rest, pairs.skip(1).len()) == Ok::<
            (Seq<(ValueModel, ValueModel)>, nat),
            DecodeError,
        >((pairs.skip(1), pairs_encoding(pairs.skip(1)).len())),
    ensures
        parse_pairs(pairs_encoding(pairs) + rest, pairs.len()) == Ok::<
            (Seq<(ValueModel, ValueModel)>, nat),
            DecodeError,
        >((pairs, pairs_encoding(pairs).len())),
{
    let s = pairs_encoding(pairs) + rest;
    let key = pairs[0].0.encoding();
    let val = pairs[0].1.encoding();
    let others = pairs.skip(1);
    let tail = pairs_encoding(others) + rest;
    lemma_pairs_encoding_front(pairs);
    lemma_regroup(key, val, pairs_encoding(others), rest);
    lemma_skip_front(key, val + tail);
    lemma_skip_front(key + val, tail);
    lemma_parse_pairs_step(
        s,
        pairs.len(),
        pairs[0],
        key.len(),
        val.len(),
        others,
        pairs_encoding(others).len(),
    );
    assert(seq![pairs[0]] + others =~= pairs);
}

/// A sequence of pairs that the wire format can carry reads back as itself,
/// in the same order.
pub proof fn lemma_pairs_round_trip(pairs: Seq<(ValueModel, ValueModel)>, rest: Seq<u8>)
    requires
        forall|i: int|
            0 <= i < pairs.len() ==> (#[trigger] pairs[i]).0.encodable() && pairs[i].1.encodable(),
    ensures
        parse_pairs(pairs_encoding(pairs) + rest, pairs.len()) == Ok::<
            (Seq<(ValueModel, ValueModel)>, nat),
            DecodeError,
        >((pairs, pairs_encoding(pairs).len())),
    decreases pairs,
{
    if pairs.len() > 0 {
        let others = pairs.skip(1);
        let tail = pairs_encoding(others) + rest;
        assert(pairs[0].0.encodable() && pairs[0].1.encodable());
        lemma_value_round_trip(pairs[0].0, pairs[0].1.encoding() + tail);
        lemma_value_round_trip(pairs[0].1, tail);
        assert forall|i: int| 0 <= i < others.len() implies (#[trigger] others[i]).0.encodable()
            && others[i].1.encodable() by {
            assert(others[i] == pairs[i + 1]);
        }
        lemma_pairs_round_trip(others, rest);
        lemma_pairs_round_trip_step(pairs, rest);
    } else {
        assert(pairs =~= Seq::<(ValueModel, ValueModel)>::empty());
    }
}

} // verus!

//! The encoder: a byte sink that takes one item at a time.

use crate::endian::{
    be_bytes_2, be_bytes_4, be_bytes_8, be_i16, be_i32, be_i64, be_u16, be_u32, be_u64, to_unsigned,
};
use crate::format::{
    array_header, bin_header, bool_encoding, ext_header, f32_encoding, f64_encoding,
    int_encoding, map_header, nil_encoding, str_header,
};
use crate::integer::EfficientInt;
use crate::marker::marker_byte;
use crate::value::{
    items_encoding, lemma_pairs_view, lemma_values_view, pairs_encoding, pairs_view, values_view,
    Value,
};
use rmp::Marker;
use vstd::prelude::*;
use vstd::std_specs::convert::IntoSpec;
use vstd::string::StringSliceAdditionalSpecFns;

verus! {

/// Appends `data` to `writer`.
pub(crate) fn append(writer: &mut Vec<u8>, data: &[u8])
    ensures
        final(writer)@ == old(writer)@ + data@,
{
    let ghost before = writer@;
    let mut i: usize = 0;
    while i < data.len()
        invariant
            i <= data@.len(),
            writer@ == before + data@.subrange(0, i as int),
        decreases data@.len() - i,
    {
        writer.push(data[i]);
        i = i + 1;
        assert(writer@ =~= before + data@.subrange(0, i as int));
    }
    assert(data@.subrange(0, i as int) =~= data@);
}

/// A sink of bytes that an item of the wire format is written to. Each write
/// consumes the sink and hands the underlying writer back, so that no write
/// can start before the one before it has been completed.
pub struct MsgPackSink {
    writer: Vec<u8>,
}

impl View for MsgPackSink {
    type V = Seq<u8>;

    /// The bytes that the underlying writer holds.
    closed spec fn view(&self) -> Seq<u8> {
        self.writer@
    }
}

impl MsgPackSink {
    /// Wraps a writer, keeping what it holds.
    pub fn new(writer: Vec<u8>) -> (sink: Self)
        ensures
            sink@ == writer@,
    {
        MsgPackSink { writer }
    }

    /// Hands the underlying writer back.
    pub fn into_inner(self) -> (writer: Vec<u8>)
        ensures
            writer@ == self@,
    {
        self.writer
    }

    fn write_1(&mut self, val: [u8; 1])
        ensures
            final(self)@ == old(self)@ + val@,
    {
        append(&mut self.writer, val.as_slice());
    }

    fn write_2(&mut self, val: [u8; 2])
        ensures
            final(self)@ == old(self)@ + val@,
    {
        append(&mut self.writer, val.as_slice());
    }

    fn write_4(&mut self, val: [u8; 4])
        ensures
            final(self)@ == old(self)@ + val@,
    {
        append(&mut self.writer, val.as_slice());
    }

    fn write_8(&mut self, val: [u8; 8])
        ensures
            final(self)@ == old(self)@ + val@,
    {
        append(&mut self.writer, val.as_slice());
    }

    fn write_u8(&mut self, val: u8)
        ensures
            final(self)@ == old(self)@ + seq![val],
    {
        let buf = [val];
        assert(buf@ =~= seq![val]);
        self.write_1(buf)
    }

    fn write_marker(&mut self, marker: Marker)
        ensures
            final(self)@ == old(self)@ + seq![marker_byte(marker)],
    {
        self.write_u8(marker.to_u8())
    }

    fn write_u16(&mut self, val: u16)
        ensures
            final(self)@ == old(self)@ + be_bytes_2(val as int),
    {
        self.write_2(be_u16(val))
    }

    fn write_u32(&mut self, val: u32)
        ensures
            final(self)@ == old(self)@ + be_bytes_4(val as int),
    {
        self.write_4(be_u32(val))
    }

    fn write_u64(&mut self, val: u64)
        ensures
            final(self)@ == old(self)@ + be_bytes_8(val as int),
    {
        self.write_8(be_u64(val))
    }

    fn write_i8(&mut self, val: i8)
        ensures
            final(self)@ == old(self)@ + seq![to_unsigned(val as int, 0x100) as u8],
    {
        let byte: u8 = if val < 0 {
            (val as i16 + 0x100) as u8
        } else {
            val as u8
        };
        self.write_u8(byte)
    }

    fn write_i16(&mut self, val: i16)
        ensures
            final(self)@ == old(self)@ + be_bytes_2(to_unsigned(val as int, 0x1_0000)),
    {
        self.write_2(be_i16(val))
    }

    fn write_i32(&mut self, val: i32)
        ensures
            final(self)@ == old(self)@ + be_bytes_4(to_unsigned(val as int, 0x1_0000_0000)),
    {
        self.write_4(be_i32(val))
    }

    fn write_i64(&mut self, val: i64)
        ensures
            final(self)@ == old(self)@ + be_bytes_8(
                to_unsigned(val as int, 0x1_0000_0000_0000_0000),
            ),
    {
        self.write_8(be_i64(val))
    }

    /// Writes nil.
    pub fn write_nil(self) -> (writer: Vec<u8>)
        ensures
            writer@ == self@ + nil_encoding(),
    {
        let mut sink = self;
        sink.write_marker(Marker::Null);
        sink.writer
    }

    /// Writes a boolean.
    pub fn write_bool(self, val: bool) -> (writer: Vec<u8>)
        ensures
            writer@ == self@ + bool_encoding(val),
    {
        let mut sink = self;
        if val {
            sink.write_marker(Marker::True);
        } else {
            sink.write_marker(Marker::False);
        }
        sink.writer
    }

    /// Writes an integer in the representation given: its marker, then the
    /// value unless the marker holds it.
    pub fn write_efficient_int(self, val: EfficientInt) -> (writer: Vec<u8>)
        ensures
            writer@ == self@ + int_encoding(val),
    {
        let mut sink = self;
        match val {
            EfficientInt::FixPos(val) => {
                sink.write_marker(Marker::FixPos(val));
            },
            EfficientInt::U8(val) => {
                sink.write_marker(Marker::U8);
                sink.write_u8(val);
            },
            EfficientInt::U16(val) => {
                sink.write_marker(Marker::U16);
                sink.write_u16(val);
            },
            EfficientInt::U32(val) => {
                sink.write_marker(Marker::U32);
                sink.write_u32(val);
            },
            EfficientInt::U64(val) => {
                sink.write_marker(Marker::U64);
                sink.write_u64(val);
            },
            EfficientInt::FixNeg(val) => {
                sink.write_marker(Marker::FixNeg(val));
            },
            EfficientInt::I8(val) => {
                sink.write_marker(Marker::I8);
                sink.write_i8(val);
            },
            EfficientInt::I16(val) => {
                sink.write_marker(Marker::I16);
                sink.write_i16(val);
            },
            EfficientInt::I32(val) => {
                sink.write_marker(Marker::I32);
                sink.write_i32(val);
            },
            EfficientInt::I64(val) => {
                sink.write_marker(Marker::I64);
                sink.write_i64(val);
            },
        }
        assert(sink@ =~= self@ + int_encoding(val));
        sink.writer
    }

    /// Writes any integer (`u8` to `u64`, `i8` to `i64`) in its smallest
    /// representation.
    pub fn write_int<V: Into<EfficientInt>>(self, val: V) -> (writer: Vec<u8>)
        ensures
            V::obeys_into_spec() ==> writer@ == self@ + int_encoding(val.into_spec()),
            exists|repr: EfficientInt| writer@ == self@ + int_encoding(repr),
    {
        let repr: EfficientInt = val.into();
        self.write_efficient_int(repr)
    }

    /// Writes a 32-bit float, given by its IEEE-754 bit pattern.
    pub fn write_f32(self, bits: u32) -> (writer: Vec<u8>)
        ensures
            writer@ == self@ + f32_encoding(bits),
    {
        let mut sink = self;
        sink.write_marker(Marker::F32);
        sink.write_4(be_u32(bits));
        assert(sink@ =~= self@ + f32_encoding(bits));
        sink.writer
    }

    /// Writes a 64-bit float, given by its IEEE-754 bit pattern.
    pub fn write_f64(self, bits: u64) -> (writer: Vec<u8>)
        ensures
            writer@ == self@ + f64_encoding(bits),
    {
        let mut sink = self;
        sink.write_marker(Marker::F64);
        sink.write_8(be_u64(bits));
        assert(sink@ =~= self@ + f64_encoding(bits));
        sink.writer
    }

    /// Writes the header of an array of `len` items. The items are the
    /// caller's to write.
    pub fn write_array_len(self, len: u32) -> (writer: Vec<u8>)
        ensures
            writer@ == self@ + array_header(len),
    {
        let mut sink = self;
        if len <= 15 {
            sink.write_marker(Marker::FixArray(len as u8));
        } else if len <= 0xffff {
            sink.write_marker(Marker::Array16);
            sink.write_u16(len as u16);
        } else {
            sink.write_marker(Marker::Array32);
            sink.write_u32(len);
        }
        assert(sink@ =~= self@ + array_header(len));
        sink.writer
    }

    /// Writes the header of a map of `len` pairs. The keys and values are
    /// the caller's to write.
    pub fn write_map_len(self, len: u32) -> (writer: Vec<u8>)
        ensures
            writer@ == self@ + map_header(len),
    {
        let mut sink = self;
        if len <= 15 {
            sink.write_marker(Marker::FixMap(len as u8));
        } else if len <= 0xffff {
            sink.write_marker(Marker::Map16);
            sink.write_u16(len as u16);
        } else {
            sink.write_marker(Marker::Map32);
            sink.write_u32(len);
        }
        assert(sink@ =~= self@ + map_header(len));
        sink.writer
    }

    /// Writes the header of `len` bytes of binary data, in the shortest form
    /// that holds the length.
    pub fn write_bin_len(self, len: u32) -> (writer: Vec<u8>)
        ensures
            writer@ == self@ + bin_header(len),
    {
        let mut sink = self;
        if let Ok(len) = u8::try_from(len) {
            sink.write_marker(Marker::Bin8);
            sink.write_u8(len);
        } else if let Ok(len) = u16::try_from(len) {
            sink.write_marker(Marker::Bin16);
            sink.write_u16(len);
        } else {
            sink.write_marker(Marker::Bin32);
            sink.write_u32(len);
        }
        assert(sink@ =~= self@ + bin_header(len));
        sink.writer
    }

    /// Writes binary data: its header, then the bytes.
    pub fn write_bin(self, data: &[u8]) -> (writer: Vec<u8>)
        requires
            data@.len() <= u32::MAX,
        ensures
            writer@ == self@ + bin_header(data@.len() as u32) + data@,
    {
        let mut w = self.write_bin_len(data.len() as u32);
        append(&mut w, data);
        w
    }

    /// Writes the header of a string of `len` bytes, in the shortest form
    /// that holds the length.
    pub fn write_str_len(self, len: u32) -> (writer: Vec<u8>)
        ensures
            writer@ == self@ + str_header(len),
    {
        let mut sink = self;
        if let Ok(len) = u8::try_from(len) {
            if len < 32 {
                sink.write_marker(Marker::FixStr(len));
            } else {
                sink.write_marker(Marker::Str8);
                sink.write_u8(len);
            }
        } else if let Ok(len) = u16::try_from(len) {
            sink.write_marker(Marker::Str16);
            sink.write_u16(len);
        } else {
            sink.write_marker(Marker::Str32);
            sink.write_u32(len);
        }
        assert(sink@ =~= self@ + str_header(len));
        sink.writer
    }

    /// Writes a string given as bytes: its header, then the bytes.
    pub fn write_str_bytes(self, string: &[u8]) -> (writer: Vec<u8>)
        requires
            string@.len() <= u32::MAX,
        ensures
            writer@ == self@ + str_header(string@.len() as u32) + string@,
    {
        let mut w = self.write_str_len(string.len() as u32);
        append(&mut w, string);
        w
    }

    /// Writes a string: its header, then its UTF-8 bytes.
    pub fn write_str(self, string: &str) -> (writer: Vec<u8>)
        requires
            string.spec_bytes().len() <= u32::MAX,
        ensures
            writer@ == self@ + str_header(string.spec_bytes().len() as u32)
                + string.spec_bytes(),
    {
        self.write_str_bytes(string.as_bytes())
    }

    /// Writes the header of an extension of `len` bytes with the type tag
    /// `ty`. Negative tags are reserved.
    pub fn write_ext_meta(self, len: u32, ty: i8) -> (writer: Vec<u8>)
        requires
            ty >= 0,
        ensures
            writer@ == self@ + ext_header(len, ty),
    {
        let mut sink = self;
        if let Ok(len) = u8::try_from(len) {
            if len == 1 {
                sink.write_marker(Marker::FixExt1);
            } else if len == 2 {
                sink.write_marker(Marker::FixExt2);
            } else if len == 4 {
                sink.write_marker(Marker::FixExt4);
            } else if len == 8 {
                sink.write_marker(Marker::FixExt8);
            } else if len == 16 {
                sink.write_marker(Marker::FixExt16);
            } else {
                sink.write_marker(Marker::Ext8);
                sink.write_u8(len);
            }
        } else if let Ok(len) = u16::try_from(len) {
            sink.write_marker(Marker::Ext16);
            sink.write_u16(len);
        } else {
            sink.write_marker(Marker::Ext32);
            sink.write_u32(len);
        }
        sink.write_u8(ty as u8);
        assert(sink@ =~= self@ + ext_header(len, ty));
        sink.writer
    }

    /// Writes an extension: its header, then the bytes.
    pub fn write_ext(self, data: &[u8], ty: i8) -> (writer: Vec<u8>)
        requires
            data@.len() <= u32::MAX,
            ty >= 0,
        ensures
            writer@ == self@ + ext_header(data@.len() as u32, ty) + data@,
    {
        let mut w = self.write_ext_meta(data.len() as u32, ty);
        append(&mut w, data);
        w
    }

    /// Writes a value of any kind, depth first: an array as its header and
    /// then its items in order, a map as its header and then each pair's key
    /// and value.
    pub fn write_value(self, value: &Value) -> (writer: Vec<u8>)
        requires
            value@.encodable(),
        ensures
            writer@ == self@ + value@.encoding(),
        decreases value,
    {
        match value {
            Value::Nil => self.write_nil(),
            Value::Boolean(val) => self.write_bool(*val),
            Value::Integer(val) => {
                if let Some(val) = val.as_i64() {
                    self.write_int(val)
                } else if let Some(val) = val.as_u64() {
                    self.write_int(val)
                } else {
                    unreached()
                }
            },
            Value::F32(bits) => self.write_f32(*bits),
            Value::F64(bits) => self.write_f64(*bits),
            Value::String(val) => self.write_str_bytes(val.as_slice()),
            Value::Binary(val) => self.write_bin(val.as_slice()),
            Value::Array(a) => {
                proof {
                    lemma_values_view(a@);
                    assert forall|i: int| 0 <= i < a@.len() implies (#[trigger] a@[i])@
                        .encodable() by {
                        assert(values_view(a@)[i].encodable());
                    }
                }
                let w = self.write_array_len(a.len() as u32);
                let w = write_items(w, a);
                assert(w@ =~= self@ + (array_header(a@.len() as u32) + items_encoding(
                    values_view(a@),
                )));
                w
            },
            Value::Mapping(m) => {
                proof {
                    lemma_pairs_view(m@);
                    assert forall|i: int| 0 <= i < m@.len() implies (#[trigger] m@[i]).0@
                        .encodable() && m@[i].1@.encodable() by {
                        assert(pairs_view(m@)[i].0.encodable());
                    }
                }
                let w = self.write_map_len(m.len() as u32);
                let w = write_pairs(w, m);
                assert(w@ =~= self@ + (map_header(m@.len() as u32) + pairs_encoding(
                    pairs_view(m@),
                )));
                w
            },
            Value::Ext(ty, bytes) => self.write_ext(bytes.as_slice(), *ty),
        }
    }
}

/// Writes the items of an array, in order.
fn write_items(writer: Vec<u8>, items: &Vec<Value>) -> (w: Vec<u8>)
    requires
        forall|i: int| 0 <= i < items@.len() ==> (#[trigger] items@[i])@.encodable(),
    ensures
        w@ == writer@ + items_encoding(values_view(items@)),
    decreases items,
{
    let ghost models = values_view(items@);
    proof {
        lemma_values_view(items@);
    }
    let mut w = writer;
    let mut i: usize = 0;
    while i < items.len()
        invariant
            i <= items@.len(),
            models.len() == items@.len(),
            forall|j: int| 0 <= j < items@.len() ==> (#[trigger] items@[j])@.encodable(),
            forall|j: int| 0 <= j < items@.len() ==> (#[trigger] models[j]) == items@[j]@,
            w@ == writer@ + items_encoding(models.take(i as int)),
        decreases items@.len() - i,
    {
        proof {
            let next = models.take(i + 1);
            assert(next.drop_last() =~= models.take(i as int));
            assert(next.last() == items@[i as int]@);
            assert(writer@ + items_encoding(next) =~= writer@ + items_encoding(
                models.take(i as int),
            ) + items@[i as int]@.encoding());
        }
        w = MsgPackSink::new(w).write_value(&items[i]);
        i = i + 1;
    }
    assert(models.take(i as int) =~= models);
    w
}

/// Writes the pairs of a map, in order: of each pair the key, then the
/// value.
fn write_pairs(writer: Vec<u8>, pairs: &Vec<(Value, Value)>) -> (w: Vec<u8>)
    requires
        forall|i: int|
            0 <= i < pairs@.len() ==> (#[trigger] pairs@[i]).0@.encodable()
                && pairs@[i].1@.encodable(),
    ensures
        w@ == writer@ + pairs_encoding(pairs_view(pairs@)),
    decreases pairs,
{
    let ghost models = pairs_view(pairs@);
    proof {
        lemma_pairs_view(pairs@);
    }
    let mut w = writer;
    let mut i: usize = 0;
    while i < pairs.len()
        invariant
            i <= pairs@.len(),
            models.len() == pairs@.len(),
            forall|j: int|
                0 <= j < pairs@.len() ==> (#[trigger] pairs@[j]).0@.encodable()
                    && pairs@[j].1@.encodable(),
            forall|j: int|
                0 <= j < pairs@.len() ==> (#[trigger] models[j]) == (pairs@[j].0@, pairs@[j].1@),
            w@ == writer@ + pairs_encoding(models.take(i as int)),
        decreases pairs@.len() - i,
    {
        proof {
            let next = models.take(i + 1);
            assert(next.drop_last() =~= models.take(i as int));
            assert(next.last() == (pairs@[i as int].0@, pairs@[i as int].1@));
            assert(writer@ + pairs_encoding(next) =~= writer@ + pairs_encoding(
                models.take(i as int),
            ) + pairs@[i as int].0@.encoding() + pairs@[i as int].1@.encoding());
        }
        w = MsgPackSink::new(w).write_value(&pairs[i].0);
        w = MsgPackSink::new(w).write_value(&pairs[i].1);
        i = i + 1;
    }
    assert(models.take(i as int) =~= models);
    w
}

} // verus!

//! The wire format, as byte sequences.
//!
//! Each spec function gives the bytes that stand for one item. The encoder's
//! contracts say that it appends exactly these bytes, and the decoder's that
//! it reads exactly these bytes back.

use crate::endian::{be_bytes_2, be_bytes_4, be_bytes_8, to_unsigned};
use crate::integer::EfficientInt;
use vstd::prelude::*;

verus! {

/// The single byte of nil.
pub open spec fn nil_encoding() -> Seq<u8> {
    seq![0xc0u8]
}

/// The single byte of a boolean.
pub open spec fn bool_encoding(val: bool) -> Seq<u8> {
    if val {
        seq![0xc3u8]
    } else {
        seq![0xc2u8]
    }
}

/// The bytes of an integer in a given representation: the fixed forms are
/// their own marker, the others a marker and the value, most significant byte
/// first, signed values in two's complement.
pub open spec fn int_encoding(val: EfficientInt) -> Seq<u8> {
    match val {
        EfficientInt::FixPos(v) => seq![v],
        EfficientInt::U8(v) => seq![0xccu8, v],
        EfficientInt::U16(v) => seq![0xcdu8] + be_bytes_2(v as int),
        EfficientInt::U32(v) => seq![0xceu8] + be_bytes_4(v as int),
        EfficientInt::U64(v) => seq![0xcfu8] + be_bytes_8(v as int),
        EfficientInt::FixNeg(v) => seq![to_unsigned(v as int, 0x100) as u8],
        EfficientInt::I8(v) => seq![0xd0u8, to_unsigned(v as int, 0x100) as u8],
        EfficientInt::I16(v) => seq![0xd1u8] + be_bytes_2(to_unsigned(v as int, 0x1_0000)),
        EfficientInt::I32(v) => seq![0xd2u8] + be_bytes_4(to_unsigned(v as int, 0x1_0000_0000)),
        EfficientInt::I64(v) => seq![0xd3u8] + be_bytes_8(
            to_unsigned(v as int, 0x1_0000_0000_0000_0000),
        ),
    }
}

/// The bytes of a 32-bit float, given by its IEEE-754 bit pattern.
pub open spec fn f32_encoding(bits: u32) -> Seq<u8> {
    seq![0xcau8] + be_bytes_4(bits as int)
}

/// The bytes of a 64-bit float, given by its IEEE-754 bit pattern.
pub open spec fn f64_encoding(bits: u64) -> Seq<u8> {
    seq![0xcbu8] + be_bytes_8(bits as int)
}

/// The header of an array of `len` items: up to 15 the length is part of the
/// marker, up to 65535 it follows in two bytes, beyond that in four.
pub open spec fn array_header(len: u32) -> Seq<u8> {
    if len <= 15 {
        seq![(0x90 + len) as u8]
    } else if len <= 0xffff {
        seq![0xdcu8] + be_bytes_2(len as int)
    } else {
        seq![0xddu8] + be_bytes_4(len as int)
    }
}

/// The header of a map of `len` pairs, in the same three classes as an
/// array's.
pub open spec fn map_header(len: u32) -> Seq<u8> {
    if len <= 15 {
        seq![(0x80 + len) as u8]
    } else if len <= 0xffff {
        seq![0xdeu8] + be_bytes_2(len as int)
    } else {
        seq![0xdfu8] + be_bytes_4(len as int)
    }
}

/// The header of `len` bytes of binary data: the length follows the marker in
/// one, two or four bytes.
pub open spec fn bin_header(len: u32) -> Seq<u8> {
    if len <= 0xff {
        seq![0xc4u8, len as u8]
    } else if len <= 0xffff {
        seq![0xc5u8] + be_bytes_2(len as int)
    } else {
        seq![0xc6u8] + be_bytes_4(len as int)
    }
}

/// The header of a string of `len` bytes: up to 31 the length is part of the
/// marker, beyond that it follows in one, two or four bytes.
pub open spec fn str_header(len: u32) -> Seq<u8> {
    if len <= 31 {
        seq![(0xa0 + len) as u8]
    } else if len <= 0xff {
        seq![0xd9u8, len as u8]
    } else if len <= 0xffff {
        seq![0xdau8] + be_bytes_2(len as int)
    } else {
        seq![0xdbu8] + be_bytes_4(len as int)
    }
}

/// The part of an extension header that gives the length of the data: a
/// marker of its own for each of the lengths 1, 2, 4, 8 and 16, else a marker
/// and the length in one, two or four bytes.
pub open spec fn ext_len_header(len: u32) -> Seq<u8> {
    if len == 1 {
        seq![0xd4u8]
    } else if len == 2 {
        seq![0xd5u8]
    } else if len == 4 {
        seq![0xd6u8]
    } else if len == 8 {
        seq![0xd7u8]
    } else if len == 16 {
        seq![0xd8u8]
    } else if len <= 0xff {
        seq![0xc7u8, len as u8]
    } else if len <= 0xffff {
        seq![0xc8u8] + be_bytes_2(len as int)
    } else {
        seq![0xc9u8] + be_bytes_4(len as int)
    }
}

/// The header of an extension of `len` bytes with the type tag `ty`, which is
/// not negative: the length part, then the tag in one byte.
pub open spec fn ext_header(len: u32, ty: i8) -> Seq<u8> {
    ext_len_header(len) + seq![ty as u8]
}

} // verus!

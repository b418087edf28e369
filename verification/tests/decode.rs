use msgpack_codec::decode::MsgPackSource;
use msgpack_codec::encode::MsgPackSink;
use msgpack_codec::parse::DecodeError;
use msgpack_codec::value::{Integer, Value};
use msgpack_codec::MsgPackOption;

fn read_int(bytes: &[u8]) -> Result<(Integer, usize), DecodeError> {
    MsgPackSource::new(bytes)
        .read_int()
        .map(|(val, rest)| (val, bytes.len() - rest.len()))
}

#[test]
fn unsigned_64_bit_integer_end_to_end() {
    let bytes = MsgPackSink::new(Vec::new()).write_int(4_294_967_296u64);
    assert_eq!(bytes, vec![0xcf, 0, 0, 0, 1, 0, 0, 0, 0]);
    assert_eq!(read_int(&bytes), Ok((Integer::PosInt(4_294_967_296), 9)));
    let (value, rest) = MsgPackSource::new(&bytes).read_value().unwrap();
    assert_eq!(value, Value::Integer(Integer::PosInt(4_294_967_296)));
    assert!(rest.is_empty());
}

#[test]
fn array_of_one_end_to_end() {
    let value = Value::Array(vec![Value::Integer(Integer::PosInt(1))]);
    let bytes = MsgPackSink::new(Vec::new()).write_value(&value);
    assert_eq!(bytes, vec![0x91, 0x01]);

    let items = MsgPackSource::new(&bytes).read_array().unwrap();
    assert_eq!(items.len(), 1);
    let (item, items) = items.next().unwrap().unwrap();
    assert_eq!(item, Value::Integer(Integer::PosInt(1)));
    assert_eq!(items.len(), 0);
    let rest = items.next().unwrap().unwrap_end();
    assert!(rest.is_empty());
}

#[test]
fn integers_read_back_at_every_boundary() {
    let unsigned: [u64; 9] = [
        0,
        127,
        128,
        255,
        256,
        65535,
        65536,
        4_294_967_295,
        4_294_967_296,
    ];
    for v in unsigned {
        let bytes = MsgPackSink::new(Vec::new()).write_int(v);
        assert_eq!(read_int(&bytes), Ok((Integer::PosInt(v), bytes.len())));
    }
    assert_eq!(
        read_int(&MsgPackSink::new(Vec::new()).write_int(u64::MAX)),
        Ok((Integer::PosInt(u64::MAX), 9))
    );
    let signed: [i64; 10] = [
        -1,
        -32,
        -33,
        -128,
        -129,
        -32768,
        -32769,
        -2_147_483_648,
        -2_147_483_649,
        i64::MIN,
    ];
    for v in signed {
        let bytes = MsgPackSink::new(Vec::new()).write_int(v);
        assert_eq!(read_int(&bytes), Ok((Integer::NegInt(v), bytes.len())));
    }
}

#[test]
fn encoded_lengths_of_integers() {
    let len = |v: i64| MsgPackSink::new(Vec::new()).write_int(v).len();
    assert_eq!(len(127), 1);
    assert_eq!(len(-32), 1);
    assert_eq!(len(128), 2);
    assert_eq!(len(-33), 2);
    assert_eq!(len(256), 3);
    assert_eq!(len(-129), 3);
    assert_eq!(len(65536), 5);
    assert_eq!(len(-32769), 5);
    assert_eq!(len(4_294_967_296), 9);
    assert_eq!(len(-2_147_483_649), 9);
}

#[test]
fn signed_representations_with_values_that_are_not_negative() {
    assert_eq!(read_int(&[0xd0, 0x05]), Ok((Integer::PosInt(5), 2)));
    assert_eq!(read_int(&[0xd1, 0x01, 0x00]), Ok((Integer::PosInt(256), 3)));
    assert_eq!(
        read_int(&[0xd2, 0x00, 0x01, 0x00, 0x00]),
        Ok((Integer::PosInt(65536), 5))
    );
    assert_eq!(
        read_int(&[0xd3, 0, 0, 0, 1, 0, 0, 0, 0]),
        Ok((Integer::PosInt(4_294_967_296), 9))
    );
}

#[test]
fn exact_bytes_of_signed_integers() {
    let sink = || MsgPackSink::new(Vec::new());
    assert_eq!(sink().write_int(-1i8), vec![0xff]);
    assert_eq!(sink().write_int(-32i8), vec![0xe0]);
    assert_eq!(sink().write_int(-33i8), vec![0xd0, 0xdf]);
    assert_eq!(sink().write_int(-129i16), vec![0xd1, 0xff, 0x7f]);
    assert_eq!(sink().write_int(-32769i32), vec![0xd2, 0xff, 0xff, 0x7f, 0xff]);
    assert_eq!(
        sink().write_int(-2_147_483_649i64),
        vec![0xd3, 0xff, 0xff, 0xff, 0xff, 0x7f, 0xff, 0xff, 0xff]
    );
    assert_eq!(sink().write_int(0x1234u16), vec![0xcd, 0x12, 0x34]);
    assert_eq!(
        sink().write_int(0x1234_5678u32),
        vec![0xce, 0x12, 0x34, 0x56, 0x78]
    );
    assert_eq!(
        sink().write_int(0x0102_0304_0506_0708u64),
        vec![0xcf, 1, 2, 3, 4, 5, 6, 7, 8]
    );
}

#[test]
fn array_and_map_headers_read_back() {
    for len in [0u32, 1, 15, 16, 65535, 65536, u32::MAX] {
        let bytes = MsgPackSink::new(Vec::new()).write_array_len(len);
        let expected = if len <= 15 {
            1
        } else if len <= 65535 {
            3
        } else {
            5
        };
        assert_eq!(bytes.len(), expected);
        let (read, rest) = MsgPackSource::new(&bytes).read_array_len().unwrap();
        assert_eq!(read, len);
        assert!(rest.is_empty());

        let bytes = MsgPackSink::new(Vec::new()).write_map_len(len);
        assert_eq!(bytes.len(), expected);
        let (read, rest) = MsgPackSource::new(&bytes).read_map_len().unwrap();
        assert_eq!(read, len);
        assert!(rest.is_empty());
    }
}

#[test]
fn string_and_binary_headers_read_back() {
    for len in [0u32, 1, 31, 32, 255, 256, 65535, 65536, u32::MAX] {
        let bytes = MsgPackSink::new(Vec::new()).write_str_len(len);
        let expected = if len <= 31 {
            1
        } else if len <= 255 {
            2
        } else if len <= 65535 {
            3
        } else {
            5
        };
        assert_eq!(bytes.len(), expected);
        let (read, rest) = MsgPackSource::new(&bytes).read_str_len().unwrap();
        assert_eq!(read, len);
        assert!(rest.is_empty());

        let bytes = MsgPackSink::new(Vec::new()).write_bin_len(len);
        let expected = if len <= 255 {
            2
        } else if len <= 65535 {
            3
        } else {
            5
        };
        assert_eq!(bytes.len(), expected);
        let (read, rest) = MsgPackSource::new(&bytes).read_bin_len().unwrap();
        assert_eq!(read, len);
        assert!(rest.is_empty());
    }
}

#[test]
fn extension_headers_read_back() {
    for len in [1u32, 2, 4, 8, 16, 17, 255, 256, 65535, 65536] {
        let bytes = MsgPackSink::new(Vec::new()).write_ext_meta(len, 42);
        let fixed = matches!(len, 1 | 2 | 4 | 8 | 16);
        let expected = if fixed {
            2
        } else if len <= 255 {
            3
        } else if len <= 65535 {
            4
        } else {
            6
        };
        assert_eq!(bytes.len(), expected);
        assert_eq!(bytes[bytes.len() - 1], 42);
        let ((read, ty), rest) = MsgPackSource::new(&bytes).read_ext_meta().unwrap();
        assert_eq!((read, ty), (len, 42));
        assert!(rest.is_empty());
    }
    assert_eq!(
        MsgPackSink::new(Vec::new()).write_ext_meta(1, 0),
        vec![0xd4, 0]
    );
    assert_eq!(
        MsgPackSink::new(Vec::new()).write_ext_meta(16, 127),
        vec![0xd8, 127]
    );
    assert_eq!(
        MsgPackSink::new(Vec::new()).write_ext_meta(0, 5),
        vec![0xc7, 0, 5]
    );
    assert_eq!(
        MsgPackSink::new(Vec::new()).write_ext_meta(3, 5),
        vec![0xc7, 3, 5]
    );
}

#[test]
fn negative_extension_tag_is_read_as_such() {
    let ((len, ty), rest) = MsgPackSource::new(&[0xd4, 0xff, 0x00])
        .read_ext_meta()
        .unwrap();
    assert_eq!((len, ty), (1, -1));
    assert_eq!(rest, &[0x00]);
}

#[test]
fn nil_bool_and_floats_read_back() {
    let bytes = MsgPackSink::new(Vec::new()).write_nil();
    assert_eq!(bytes, vec![0xc0]);
    assert!(MsgPackSource::new(&bytes).read_nil().is_ok());

    let bytes = MsgPackSink::new(Vec::new()).write_bool(true);
    assert_eq!(bytes, vec![0xc3]);
    assert_eq!(MsgPackSource::new(&bytes).read_bool().unwrap().0, true);
    let bytes = MsgPackSink::new(Vec::new()).write_bool(false);
    assert_eq!(bytes, vec![0xc2]);
    assert_eq!(MsgPackSource::new(&bytes).read_bool().unwrap().0, false);

    let bytes = MsgPackSink::new(Vec::new()).write_f32(1.5f32.to_bits());
    assert_eq!(bytes, vec![0xca, 0x3f, 0xc0, 0x00, 0x00]);
    let (bits, _) = MsgPackSource::new(&bytes).read_f32().unwrap();
    assert_eq!(f32::from_bits(bits), 1.5);

    let bytes = MsgPackSink::new(Vec::new()).write_f64(1.5f64.to_bits());
    assert_eq!(bytes, vec![0xcb, 0x3f, 0xf8, 0, 0, 0, 0, 0, 0]);
    let (bits, _) = MsgPackSource::new(&bytes).read_f64().unwrap();
    assert_eq!(f64::from_bits(bits), 1.5);
}

#[test]
fn payloads_read_back() {
    let bytes = MsgPackSink::new(vec![7]).write_bin(&[1, 2, 3, 4]);
    assert_eq!(bytes, vec![7, 0xc4, 4, 1, 2, 3, 4]);
    let (data, rest) = MsgPackSource::new(&bytes[1..]).read_bin().unwrap();
    assert_eq!(data, &[1, 2, 3, 4]);
    assert!(rest.is_empty());

    let bytes = MsgPackSink::new(Vec::new()).write_str("hello");
    assert_eq!(bytes, vec![0xa5, b'h', b'e', b'l', b'l', b'o']);
    let (data, rest) = MsgPackSource::new(&bytes).read_str_bytes().unwrap();
    assert_eq!(data, b"hello");
    assert!(rest.is_empty());

    let bytes = MsgPackSink::new(Vec::new()).write_str_bytes(&[0x61; 32]);
    assert_eq!(&bytes[..2], &[0xd9, 32]);
    assert_eq!(bytes.len(), 34);

    let bytes = MsgPackSink::new(Vec::new()).write_ext(&[9, 8], 3);
    assert_eq!(bytes, vec![0xd5, 3, 9, 8]);
    let ((ty, data), rest) = MsgPackSource::new(&bytes).read_ext().unwrap();
    assert_eq!((ty, data), (3, &[9u8, 8][..]));
    assert!(rest.is_empty());
}

#[test]
fn reads_stop_behind_the_item() {
    let bytes = [0x01, 0xc0, 0xc3];
    let (val, rest) = MsgPackSource::new(&bytes).read_int().unwrap();
    assert_eq!(val, Integer::PosInt(1));
    let ((), rest) = MsgPackSource::new(rest).read_nil().unwrap();
    let (val, rest) = MsgPackSource::new(rest).read_bool().unwrap();
    assert!(val);
    assert!(MsgPackSource::new(rest).into_inner().is_empty());
}

#[test]
fn end_of_bytes_is_an_error() {
    assert_eq!(
        MsgPackSource::new(&[]).read_value(),
        Err(DecodeError::UnexpectedEnd)
    );
    assert_eq!(
        MsgPackSource::new(&[]).read_marker().map(|_| ()),
        Err(DecodeError::UnexpectedEnd)
    );
    assert_eq!(read_int(&[0xcd, 0x01]), Err(DecodeError::UnexpectedEnd));
    assert_eq!(
        MsgPackSource::new(&[0xdc, 0x00]).read_array_len(),
        Err(DecodeError::UnexpectedEnd)
    );
    assert_eq!(
        MsgPackSource::new(&[0xc4, 3, 1, 2]).read_bin(),
        Err(DecodeError::UnexpectedEnd)
    );
    assert_eq!(
        MsgPackSource::new(&[0xd4]).read_ext_meta(),
        Err(DecodeError::UnexpectedEnd)
    );
    assert_eq!(
        MsgPackSource::new(&[0x92, 0x01]).read_value(),
        Err(DecodeError::UnexpectedEnd)
    );
    assert_eq!(
        MsgPackSource::new(&[0x81, 0x01]).read_value(),
        Err(DecodeError::UnexpectedEnd)
    );
    assert_eq!(
        MsgPackSource::new(&[0xdd, 0xff, 0xff, 0xff, 0xff, 0xc0]).read_value(),
        Err(DecodeError::UnexpectedEnd)
    );
}

#[test]
fn unused_marker_is_an_error() {
    assert_eq!(
        MsgPackSource::new(&[0xc1]).read_value(),
        Err(DecodeError::InvalidMarker)
    );
    assert_eq!(
        MsgPackSource::new(&[0xc1]).read_marker().map(|_| ()),
        Err(DecodeError::InvalidMarker)
    );
    assert_eq!(read_int(&[0xc1]), Err(DecodeError::InvalidMarker));
    assert_eq!(
        MsgPackSource::new(&[0x91, 0xc1]).read_value(),
        Err(DecodeError::InvalidMarker)
    );
}

#[test]
fn marker_of_another_kind_is_an_error() {
    assert_eq!(read_int(&[0xc0]), Err(DecodeError::TypeMismatch));
    assert_eq!(
        MsgPackSource::new(&[0x01]).read_nil(),
        Err(DecodeError::TypeMismatch)
    );
    assert_eq!(
        MsgPackSource::new(&[0x01]).read_bool(),
        Err(DecodeError::TypeMismatch)
    );
    assert_eq!(
        MsgPackSource::new(&[0x80]).read_array_len(),
        Err(DecodeError::TypeMismatch)
    );
    assert_eq!(
        MsgPackSource::new(&[0x90]).read_map_len(),
        Err(DecodeError::TypeMismatch)
    );
    assert_eq!(
        MsgPackSource::new(&[0xc4, 0]).read_str_len(),
        Err(DecodeError::TypeMismatch)
    );
    assert_eq!(
        MsgPackSource::new(&[0xa0]).read_bin_len(),
        Err(DecodeError::TypeMismatch)
    );
    assert_eq!(
        MsgPackSource::new(&[0xca, 0, 0, 0, 0]).read_f64(),
        Err(DecodeError::TypeMismatch)
    );
    assert_eq!(
        MsgPackSource::new(&[0xcb, 0, 0, 0, 0, 0, 0, 0, 0]).read_f32(),
        Err(DecodeError::TypeMismatch)
    );
    assert_eq!(
        MsgPackSource::new(&[0xc0]).read_ext(),
        Err(DecodeError::TypeMismatch)
    );
}

#[test]
fn markers_are_told_apart() {
    let (marker, rest) = MsgPackSource::new(&[0x93, 0x01]).read_marker().unwrap();
    assert_eq!(marker, rmp::Marker::FixArray(3));
    assert_eq!(rest, &[0x01]);
    let (marker, _) = MsgPackSource::new(&[0xe0]).read_marker().unwrap();
    assert_eq!(marker, rmp::Marker::FixNeg(-32));
    let (marker, _) = MsgPackSource::new(&[0xbf]).read_marker().unwrap();
    assert_eq!(marker, rmp::Marker::FixStr(31));
    let (marker, _) = MsgPackSource::new(&[0x8f]).read_marker().unwrap();
    assert_eq!(marker, rmp::Marker::FixMap(15));
}

#[test]
fn map_pairs_come_one_at_a_time() {
    let value = Value::Mapping(vec![
        (Value::String(b"a".to_vec()), Value::Boolean(true)),
        (Value::Integer(Integer::NegInt(-5)), Value::Nil),
    ]);
    let mut bytes = MsgPackSink::new(Vec::new()).write_value(&value);
    bytes.push(0xc0);

    let pairs = MsgPackSource::new(&bytes).read_map().unwrap();
    assert_eq!(pairs.len(), 2);
    let ((key, val), pairs) = pairs.next().unwrap().unwrap();
    assert_eq!(key, Value::String(b"a".to_vec()));
    assert_eq!(val, Value::Boolean(true));
    let ((key, val), pairs) = pairs.next().unwrap().unwrap();
    assert_eq!(key, Value::Integer(Integer::NegInt(-5)));
    assert_eq!(val, Value::Nil);
    match pairs.next().unwrap() {
        MsgPackOption::End(rest) => assert_eq!(rest, &[0xc0]),
        MsgPackOption::Item(_) => panic!("the map has two pairs"),
    }
}

#[test]
fn broken_item_stops_the_iteration() {
    let items = MsgPackSource::new(&[0x92, 0x01]).read_array().unwrap();
    let (_, items) = items.next().unwrap().unwrap();
    assert_eq!(items.len(), 1);
    assert!(matches!(items.next(), Err(DecodeError::UnexpectedEnd)));

    let pairs = MsgPackSource::new(&[0x81, 0x01, 0xc1]).read_map().unwrap();
    assert!(matches!(pairs.next(), Err(DecodeError::InvalidMarker)));
}

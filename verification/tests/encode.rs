use msgpack_codec::encode::MsgPackSink;
use msgpack_codec::integer::EfficientInt;
use msgpack_codec::value::{Integer, Value};

/// The library's value for one of `rmpv`.
fn to_value(value: &rmpv::Value) -> Value {
    match value {
        rmpv::Value::Nil => Value::Nil,
        rmpv::Value::Boolean(val) => Value::Boolean(*val),
        rmpv::Value::Integer(val) => {
            if let Some(val) = val.as_i64() {
                Value::Integer(Integer::from(val))
            } else {
                Value::Integer(Integer::from(val.as_u64().unwrap()))
            }
        }
        rmpv::Value::F32(val) => Value::F32(val.to_bits()),
        rmpv::Value::F64(val) => Value::F64(val.to_bits()),
        rmpv::Value::String(val) => Value::String(val.as_bytes().to_vec()),
        rmpv::Value::Binary(val) => Value::Binary(val.clone()),
        rmpv::Value::Array(a) => Value::Array(a.iter().map(to_value).collect()),
        rmpv::Value::Map(m) => {
            Value::Mapping(m.iter().map(|(k, v)| (to_value(k), to_value(v))).collect())
        }
        rmpv::Value::Ext(ty, bytes) => Value::Ext(*ty, bytes.clone()),
    }
}

/// Create two writers and wrap one in a `MsgPackSink`; call a function to
/// write with `rmp::encode` and with the sink, and return an optional
/// `rmpv::Value` that will get encoded with `MsgPackSink::write_value`. All
/// three are checked for equality.
fn test_jig<F>(f: F)
where
    F: FnOnce(&mut Vec<u8>, MsgPackSink) -> (Option<rmpv::Value>, Vec<u8>),
{
    let mut b1 = Vec::new();
    let msg1 = MsgPackSink::new(Vec::new());
    let (val, b2) = f(&mut b1, msg1);

    assert_eq!(b1, b2);

    if let Some(val) = val {
        let msg2 = MsgPackSink::new(Vec::new());
        let b3 = msg2.write_value(&to_value(&val));
        assert_eq!(b1, b3);
    }
}

#[test]
fn nil() {
    test_jig(|c1, msg| {
        rmp::encode::write_nil(c1).unwrap();
        (Some(rmpv::Value::Nil), msg.write_nil())
    });
}

#[test]
fn bool() {
    test_jig(|c1, msg| {
        rmp::encode::write_bool(c1, true).unwrap();
        (Some(rmpv::Value::Boolean(true)), msg.write_bool(true))
    });
    test_jig(|c1, msg| {
        rmp::encode::write_bool(c1, false).unwrap();
        (Some(rmpv::Value::Boolean(false)), msg.write_bool(false))
    });
}

#[test]
fn float() {
    test_jig(|c1, msg| {
        rmp::encode::write_f32(c1, 1.1).unwrap();
        (
            Some(rmpv::Value::F32(1.1)),
            msg.write_f32(1.1f32.to_bits()),
        )
    });
    test_jig(|c1, msg| {
        rmp::encode::write_f64(c1, 1.1).unwrap();
        (
            Some(rmpv::Value::F64(1.1)),
            msg.write_f64(1.1f64.to_bits()),
        )
    });
}

#[test]
fn array_len() {
    for i in &[0, 1, 15, 16, 65535, 65536, std::u32::MAX] {
        test_jig(|c1, msg| {
            rmp::encode::write_array_len(c1, *i).unwrap();
            (None, msg.write_array_len(*i))
        });
    }
}

#[test]
fn array() {
    test_jig(|c1, msg| {
        rmp::encode::write_array_len(c1, 1).unwrap();
        rmp::encode::write_uint(c1, 1).unwrap();
        let w = msg.write_array_len(1);
        let w = MsgPackSink::new(w).write_int(1);
        (Some(rmpv::Value::Array(vec![1.into()])), w)
    })
}

#[test]
fn map_len() {
    for i in &[0, 1, 15, 16, 65535, 65536, std::u32::MAX] {
        test_jig(|c1, msg| {
            rmp::encode::write_map_len(c1, *i).unwrap();
            (None, msg.write_map_len(*i))
        });
    }
}

#[test]
fn bin() {
    for i in &[0, 1, 255, 256, 65535, 65536, std::u32::MAX] {
        test_jig(|c1, msg| {
            rmp::encode::write_bin_len(c1, *i).unwrap();
            (None, msg.write_bin_len(*i))
        });
    }
    test_jig(|c1, msg| {
        let buf = [1, 2, 3, 4];
        rmp::encode::write_bin(c1, &buf).unwrap();
        (
            Some(rmpv::Value::Binary(buf[..].into())),
            msg.write_bin(&buf),
        )
    });
}

#[test]
fn ext() {
    for i in &[0, 1, 2, 4, 8, 16, 17, 255, 256, 65535, 65536, std::u32::MAX] {
        test_jig(|c1, msg| {
            rmp::encode::write_ext_meta(c1, *i, 42).unwrap();
            (None, msg.write_ext_meta(*i, 42))
        });
    }
}

#[test]
fn string() {
    for i in &[0, 1, 31, 32, 255, 256, 65535, 65536, std::u32::MAX] {
        test_jig(|c1, msg| {
            rmp::encode::write_str_len(c1, *i).unwrap();
            (None, msg.write_str_len(*i))
        });
    }
    test_jig(|c1, msg| {
        rmp::encode::write_str(c1, "hello").unwrap();
        (Some("hello".into()), msg.write_str("hello"))
    });
}

fn uint_against_rmpv<V: Into<u64> + Into<EfficientInt> + Into<rmpv::Value> + Copy>(val: V) {
    test_jig(|c1, msg| {
        rmp::encode::write_uint(c1, val.into()).unwrap();
        (Some(val.into()), msg.write_int(val))
    })
}

#[test]
fn efficient_uint() {
    uint_against_rmpv(1u8);
    uint_against_rmpv(127u8);
    uint_against_rmpv(128u8);
    uint_against_rmpv(255u8);

    uint_against_rmpv(1u16);
    uint_against_rmpv(127u16);
    uint_against_rmpv(128u16);
    uint_against_rmpv(255u16);
    uint_against_rmpv(256u16);
    uint_against_rmpv(65535u16);

    uint_against_rmpv(1u32);
    uint_against_rmpv(127u32);
    uint_against_rmpv(128u32);
    uint_against_rmpv(255u32);
    uint_against_rmpv(256u32);
    uint_against_rmpv(65535u32);
    uint_against_rmpv(65536u32);
    uint_against_rmpv(4_294_967_295u32);

    uint_against_rmpv(1u64);
    uint_against_rmpv(127u64);
    uint_against_rmpv(128u64);
    uint_against_rmpv(255u64);
    uint_against_rmpv(256u64);
    uint_against_rmpv(65535u64);
    uint_against_rmpv(65536u64);
    uint_against_rmpv(4_294_967_295u64);
    uint_against_rmpv(4_294_967_296u64);
    uint_against_rmpv(std::u64::MAX);
}

fn int_against_rmpv<V: Into<i64> + Into<EfficientInt> + Into<rmpv::Value> + Copy>(val: V) {
    test_jig(|c1, msg| {
        rmp::encode::write_sint(c1, val.into()).unwrap();
        (Some(val.into()), msg.write_int(val))
    })
}

#[test]
fn efficient_int() {
    int_against_rmpv(1i8);
    int_against_rmpv(-1i8);
    int_against_rmpv(-32i8);
    int_against_rmpv(-33i8);
    int_against_rmpv(127i8);
    int_against_rmpv(-128i8);

    int_against_rmpv(1i16);
    int_against_rmpv(-1i16);
    int_against_rmpv(-32i16);
    int_against_rmpv(-33i16);
    int_against_rmpv(127i16);
    int_against_rmpv(128i16);
    int_against_rmpv(-128i16);
    int_against_rmpv(-129i16);
    int_against_rmpv(255i16);
    int_against_rmpv(256i16);
    int_against_rmpv(-32768i16);

    int_against_rmpv(1i32);
    int_against_rmpv(-1i32);
    int_against_rmpv(-32i32);
    int_against_rmpv(-33i32);
    int_against_rmpv(127i32);
    int_against_rmpv(128i32);
    int_against_rmpv(-128i32);
    int_against_rmpv(-129i32);
    int_against_rmpv(255i32);
    int_against_rmpv(256i32);
    int_against_rmpv(-32768i32);
    int_against_rmpv(-32769i32);
    int_against_rmpv(65535i32);
    int_against_rmpv(65536i32);
    int_against_rmpv(-2_147_483_648i32);

    int_against_rmpv(1i64);
    int_against_rmpv(-1i64);
    int_against_rmpv(-32i64);
    int_against_rmpv(-33i64);
    int_against_rmpv(127i64);
    int_against_rmpv(128i64);
    int_against_rmpv(-128i64);
    int_against_rmpv(-129i64);
    int_against_rmpv(255i64);
    int_against_rmpv(256i64);
    int_against_rmpv(-32768i64);
    int_against_rmpv(-32769i64);
    int_against_rmpv(65535i64);
    int_against_rmpv(65536i64);
    int_against_rmpv(-2_147_483_648i64);
    int_against_rmpv(-2_147_483_649i64);
    int_against_rmpv(4_294_967_295i64);
    int_against_rmpv(4_294_967_296i64);
    int_against_rmpv(std::i64::MIN);
}

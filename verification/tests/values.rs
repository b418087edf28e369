use msgpack_codec::decode::MsgPackSource;
use msgpack_codec::encode::MsgPackSink;
use msgpack_codec::value::{Integer, Value};
use msgpack_codec::MsgPackOption;

/// The library's value for one of `rmpv`.
fn to_value(value: &rmpv::Value) -> Value {
    match value {
        rmpv::Value::Nil => Value::Nil,
        rmpv::Value::Boolean(val) => Value::Boolean(*val),
        rmpv::Value::Integer(val) => {
            if let Some(val) = val.as_i64() {
                Value::Integer(Integer::from(val))
            } else {
                Value::Integer(Integer::from(val.as_u64().unwrap()))
            }
        }
        rmpv::Value::F32(val) => Value::F32(val.to_bits()),
        rmpv::Value::F64(val) => Value::F64(val.to_bits()),
        rmpv::Value::String(val) => Value::String(val.as_bytes().to_vec()),
        rmpv::Value::Binary(val) => Value::Binary(val.clone()),
        rmpv::Value::Array(a) => Value::Array(a.iter().map(to_value).collect()),
        rmpv::Value::Map(m) => {
            Value::Mapping(m.iter().map(|(k, v)| (to_value(k), to_value(v))).collect())
        }
        rmpv::Value::Ext(ty, bytes) => Value::Ext(*ty, bytes.clone()),
    }
}

fn nested() -> rmpv::Value {
    rmpv::Value::Array(vec![
        rmpv::Value::Nil,
        rmpv::Value::Boolean(false),
        rmpv::Value::from(-2_147_483_649i64),
        rmpv::Value::from(u64::MAX),
        rmpv::Value::F32(0.25),
        rmpv::Value::F64(-1.0e100),
        rmpv::Value::from("a string of more than thirty-one bytes, to leave the fixed form"),
        rmpv::Value::Binary(vec![0; 300]),
        rmpv::Value::Ext(7, vec![1, 2, 3, 4, 5, 6, 7, 8]),
        rmpv::Value::Ext(8, vec![1, 2, 3]),
        rmpv::Value::Map(vec![
            (
                rmpv::Value::from("inner"),
                rmpv::Value::Array(vec![
                    rmpv::Value::Array(vec![]),
                    rmpv::Value::Map(vec![]),
                    rmpv::Value::Array((0..20).map(rmpv::Value::from).collect()),
                ]),
            ),
            (
                rmpv::Value::from(1),
                rmpv::Value::Map(
                    (0..17)
                        .map(|i| (rmpv::Value::from(i), rmpv::Value::from(-i)))
                        .collect(),
                ),
            ),
        ]),
    ])
}

#[test]
fn nested_value_is_written_as_rmpv_writes_it() {
    let value = nested();
    let mut expected = Vec::new();
    rmpv::encode::write_value(&mut expected, &value).unwrap();
    let written = MsgPackSink::new(Vec::new()).write_value(&to_value(&value));
    assert_eq!(written, expected);
}

#[test]
fn nested_value_reads_back() {
    let value = to_value(&nested());
    assert!(value.is_encodable());
    let mut bytes = MsgPackSink::new(Vec::new()).write_value(&value);
    bytes.extend_from_slice(&[0xc0, 0xc1]);
    let (read, rest) = MsgPackSource::new(&bytes).read_value().unwrap();
    assert_eq!(read, value);
    assert_eq!(rest, &[0xc0, 0xc1]);
}

#[test]
fn nested_value_is_read_as_rmpv_reads_it() {
    let value = nested();
    let mut bytes = Vec::new();
    rmpv::encode::write_value(&mut bytes, &value).unwrap();
    let by_rmpv = rmpv::decode::read_value(&mut &bytes[..]).unwrap();
    let (read, _) = MsgPackSource::new(&bytes).read_value().unwrap();
    assert_eq!(read, to_value(&by_rmpv));
}

#[test]
fn deep_nesting_reads_back() {
    let mut value = Value::Nil;
    for _ in 0..200 {
        value = Value::Array(vec![value]);
    }
    let bytes = MsgPackSink::new(Vec::new()).write_value(&value);
    assert_eq!(bytes.len(), 201);
    let (read, rest) = MsgPackSource::new(&bytes).read_value().unwrap();
    assert!(read == value);
    assert!(rest.is_empty());
}

#[test]
fn map_keeps_the_order_of_its_pairs() {
    let value = Value::Mapping(vec![
        (Value::Integer(Integer::PosInt(2)), Value::Nil),
        (Value::Integer(Integer::PosInt(1)), Value::Nil),
        (Value::Integer(Integer::PosInt(2)), Value::Boolean(true)),
    ]);
    let bytes = MsgPackSink::new(Vec::new()).write_value(&value);
    assert_eq!(bytes, vec![0x83, 0x02, 0xc0, 0x01, 0xc0, 0x02, 0xc3]);
    let (read, _) = MsgPackSource::new(&bytes).read_value().unwrap();
    assert_eq!(read, value);
}

#[test]
fn write_value_appends_to_what_the_writer_holds() {
    let w = MsgPackSink::new(vec![0xaa]).write_value(&Value::Boolean(true));
    let w = MsgPackSink::new(w).write_value(&Value::Nil);
    assert_eq!(w, vec![0xaa, 0xc3, 0xc0]);
    assert_eq!(MsgPackSink::new(vec![1, 2]).into_inner(), vec![1, 2]);
}

#[test]
fn integer_values_take_their_smallest_form() {
    let write = |n: Integer| MsgPackSink::new(Vec::new()).write_value(&Value::Integer(n));
    assert_eq!(write(Integer::PosInt(5)), vec![0x05]);
    assert_eq!(write(Integer::NegInt(5)), vec![0x05]);
    assert_eq!(write(Integer::NegInt(-5)), vec![0xfb]);
    assert_eq!(write(Integer::PosInt(200)), vec![0xcc, 200]);
    assert_eq!(
        write(Integer::PosInt(u64::MAX)),
        vec![0xcf, 0xff, 0xff, 0xff, 0xff, 0xff, 0xff, 0xff, 0xff]
    );
}

#[test]
fn integer_conversions() {
    assert_eq!(Integer::from(5i64), Integer::PosInt(5));
    assert_eq!(Integer::from(-5i64), Integer::NegInt(-5));
    assert_eq!(Integer::from(5u64), Integer::PosInt(5));
    assert_eq!(Integer::PosInt(5).as_i64(), Some(5));
    assert_eq!(Integer::PosInt(u64::MAX).as_i64(), None);
    assert_eq!(Integer::PosInt(u64::MAX).as_u64(), Some(u64::MAX));
    assert_eq!(Integer::NegInt(-1).as_i64(), Some(-1));
    assert_eq!(Integer::NegInt(-1).as_u64(), None);
    assert_eq!(Integer::NegInt(1).as_u64(), Some(1));
    assert_eq!(Integer::PosInt(i64::MAX as u64).as_i64(), Some(i64::MAX));
}

#[test]
fn negative_extension_tag_cannot_be_written() {
    assert!(!Value::Ext(-1, vec![]).is_encodable());
    assert!(Value::Ext(0, vec![]).is_encodable());
    assert!(!Value::Array(vec![Value::Nil, Value::Ext(-128, vec![1])]).is_encodable());
    assert!(!Value::Mapping(vec![(Value::Ext(-1, vec![]), Value::Nil)]).is_encodable());
    assert!(!Value::Mapping(vec![(Value::Nil, Value::Ext(-1, vec![]))]).is_encodable());
    assert!(Value::Mapping(vec![(Value::Nil, Value::Ext(1, vec![]))]).is_encodable());
}

#[test]
fn option_of_two_outcomes() {
    let item: MsgPackOption<u8, &str> = MsgPackOption::Item(3);
    assert_eq!(item.into_option(), Some(3));
    let end: MsgPackOption<u8, &str> = MsgPackOption::End("reader");
    assert_eq!(end.into_option(), None);
    let item: MsgPackOption<u8, &str> = MsgPackOption::Item(3);
    assert_eq!(item.unwrap(), 3);
    let end: MsgPackOption<u8, &str> = MsgPackOption::End("reader");
    assert_eq!(end.unwrap_end(), "reader");
}

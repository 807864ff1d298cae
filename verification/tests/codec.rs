use klickhouse::{
    i256, u256, Date, DateTime, DeserializerState, ErrorKind, Ipv4, Ipv6, Reader,
    SerializerState, Type, Tz, Uuid, Value,
};

fn text(s: &str) -> Value {
    Value::String(s.to_string())
}

fn prefix(t: &Type) -> Vec<u8> {
    let mut out = Vec::new();
    t.serialize_prefix(&mut out, &mut SerializerState {}).unwrap();
    out
}

fn column(t: &Type, values: &[Value]) -> Vec<u8> {
    let mut out = Vec::new();
    t.serialize_column(values, &mut out, &mut SerializerState {}).unwrap();
    out
}

fn single(t: &Type, value: &Value) -> Vec<u8> {
    let mut out = Vec::new();
    t.serialize(value, &mut out, &mut SerializerState {}).unwrap();
    out
}

fn read_column(t: &Type, bytes: &[u8], rows: usize) -> Result<Vec<Value>, ErrorKind> {
    let mut reader = Reader::new(bytes);
    let values = t
        .deserialize_column(&mut reader, rows, &mut DeserializerState {})
        .map_err(|e| e.kind())?;
    assert_eq!(reader.position(), bytes.len());
    Ok(values)
}

fn round_trip(t: &Type, values: Vec<Value>) {
    assert!(t.validate(0).is_ok());
    for v in &values {
        assert!(t.validate_value(v).is_ok());
    }
    let mut bytes = prefix(t);
    let head = bytes.len();
    bytes.extend(column(t, &values));
    bytes.extend([0xAA, 0xBB]);
    let mut reader = Reader::new(&bytes);
    let mut state = DeserializerState {};
    t.deserialize_prefix(&mut reader, &mut state).unwrap();
    assert_eq!(reader.position(), head);
    let back = t.deserialize_column(&mut reader, values.len(), &mut state).unwrap();
    assert_eq!(reader.position(), bytes.len() - 2);
    assert_eq!(reader.remaining(), 2);
    assert_eq!(back, values);
}

fn u64_le(v: u64) -> Vec<u8> {
    v.to_le_bytes().to_vec()
}

#[test]
fn uint32_column() {
    let values = [Value::UInt32(1), Value::UInt32(258), Value::UInt32(65536)];
    assert_eq!(
        column(&Type::UInt32, &values),
        vec![0x01, 0x00, 0x00, 0x00, 0x02, 0x01, 0x00, 0x00, 0x00, 0x00, 0x01, 0x00]
    );
    assert!(prefix(&Type::UInt32).is_empty());
}

#[test]
fn string_column() {
    assert_eq!(column(&Type::String, &[text(""), text("hi")]), vec![0x00, 0x02, 0x68, 0x69]);
}

#[test]
fn nullable_int8_column() {
    let t = Type::Nullable(Box::new(Type::Int8));
    let values = [Value::Int8(5), Value::Null, Value::Int8(-1)];
    assert_eq!(column(&t, &values), vec![0x00, 0x01, 0x00, 0x05, 0x00, 0xFF]);
    assert!(prefix(&t).is_empty());
}

#[test]
fn array_uint8_column() {
    let t = Type::Array(Box::new(Type::UInt8));
    let values = [
        Value::Array(vec![Value::UInt8(1), Value::UInt8(2), Value::UInt8(3)]),
        Value::Array(vec![]),
    ];
    let mut expected = u64_le(3);
    expected.extend(u64_le(3));
    expected.extend([0x01, 0x02, 0x03]);
    assert_eq!(column(&t, &values), expected);
}

#[test]
fn low_cardinality_nullable_string_column() {
    let t = Type::LowCardinality(Box::new(Type::Nullable(Box::new(Type::String))));
    let values = [text("a"), Value::Null, text("b"), text("a")];
    assert_eq!(prefix(&t), u64_le(1));
    let bytes = column(&t, &values);
    let flags = u64::from_le_bytes(bytes[0..8].try_into().unwrap());
    assert_eq!(flags & 0xff, 0);
    assert_eq!(flags, 512 + 1024);
    assert_eq!(bytes[8..16], u64_le(3)[..]);
    assert_eq!(bytes[16..21], [0x00, 0x01, 0x61, 0x01, 0x62]);
    assert_eq!(bytes[21..29], u64_le(4)[..]);
    assert_eq!(bytes[29..], [0x01, 0x00, 0x02, 0x01]);
}

#[test]
fn tuple_column() {
    let t = Type::Tuple(vec![Type::UInt8, Type::String]);
    let values = [
        Value::Tuple(vec![Value::UInt8(7), text("x")]),
        Value::Tuple(vec![Value::UInt8(8), text("yy")]),
    ];
    assert_eq!(column(&t, &values), vec![0x07, 0x08, 0x01, 0x78, 0x02, 0x79, 0x79]);
}

#[test]
fn map_column() {
    let t = Type::Mapping(Box::new(Type::String), Box::new(Type::UInt16));
    let values = [
        Value::Mapping(vec![text("a"), text("b")], vec![Value::UInt16(1), Value::UInt16(2)]),
        Value::Mapping(vec![], vec![]),
        Value::Mapping(vec![text("c")], vec![Value::UInt16(0x0304)]),
    ];
    let mut expected = u64_le(2);
    expected.extend(u64_le(2));
    expected.extend(u64_le(3));
    expected.extend([1, b'a', 1, b'b', 1, b'c']);
    expected.extend([1, 0, 2, 0, 4, 3]);
    assert_eq!(column(&t, &values), expected);
    round_trip(&t, values.to_vec_values());
}

trait ToVecValues {
    fn to_vec_values(&self) -> Vec<Value>;
}

impl ToVecValues for [Value; 3] {
    fn to_vec_values(&self) -> Vec<Value> {
        self.iter().map(|v| v.clone()).collect()
    }
}

#[test]
fn sized_values() {
    let utc = Tz::utc;
    let cases: Vec<(Type, Value, Vec<u8>)> = vec![
        (Type::Int8, Value::Int8(-128), vec![0x80]),
        (Type::Int16, Value::Int16(-2), vec![0xFE, 0xFF]),
        (Type::Int32, Value::Int32(i32::MIN), vec![0, 0, 0, 0x80]),
        (Type::Int64, Value::Int64(-1), vec![0xFF; 8]),
        (Type::Int64, Value::Int64(i64::MAX), vec![0xFF, 0xFF, 0xFF, 0xFF, 0xFF, 0xFF, 0xFF, 0x7F]),
        (Type::Int128, Value::Int128(i128::MIN), {
            let mut b = vec![0; 16];
            b[15] = 0x80;
            b
        }),
        (Type::Int128, Value::Int128(-1), vec![0xFF; 16]),
        (Type::Int128, Value::Int128(0x0102), {
            let mut b = vec![0; 16];
            b[0] = 2;
            b[1] = 1;
            b
        }),
        (Type::Int256, Value::Int256(i256([7; 32])), vec![7; 32]),
        (Type::UInt8, Value::UInt8(255), vec![0xFF]),
        (Type::UInt16, Value::UInt16(0x1234), vec![0x34, 0x12]),
        (Type::UInt64, Value::UInt64(u64::MAX), vec![0xFF; 8]),
        (Type::UInt128, Value::UInt128(u128::MAX), vec![0xFF; 16]),
        (Type::UInt256, Value::UInt256(u256([9; 32])), vec![9; 32]),
        (Type::Float32, Value::Float32(1.5f32.to_bits()), 1.5f32.to_le_bytes().to_vec()),
        (Type::Float64, Value::Float64((-2.25f64).to_bits()), (-2.25f64).to_le_bytes().to_vec()),
        (Type::Decimal32(2), Value::Decimal32(2, -100), (-100i32).to_le_bytes().to_vec()),
        (Type::Decimal64(2), Value::Decimal64(2, 12345), 12345i64.to_le_bytes().to_vec()),
        (Type::Decimal128(2), Value::Decimal128(2, -5), (-5i128).to_le_bytes().to_vec()),
        (Type::Decimal256(2), Value::Decimal256(2, i256([1; 32])), vec![1; 32]),
        (
            Type::Uuid,
            Value::Uuid(Uuid::from_u128(0x0011_2233_4455_6677_8899_AABB_CCDD_EEFF)),
            vec![
                0x77, 0x66, 0x55, 0x44, 0x33, 0x22, 0x11, 0x00, 0xFF, 0xEE, 0xDD, 0xCC, 0xBB, 0xAA,
                0x99, 0x88,
            ],
        ),
        (Type::Date, Value::Date(Date(0x0102)), vec![0x02, 0x01]),
        (
            Type::DateTime(utc()),
            Value::DateTime(DateTime(utc(), 0x01020304)),
            vec![0x04, 0x03, 0x02, 0x01],
        ),
        (
            Type::DateTime64(3, utc()),
            Value::DateTime64(utc(), 3, -1000),
            (-1000i64).to_le_bytes().to_vec(),
        ),
        (Type::Ipv4, Value::Ipv4(Ipv4(0xC0A80001)), vec![0x01, 0x00, 0xA8, 0xC0]),
        (
            Type::Ipv6,
            Value::Ipv6(Ipv6([0, 1, 2, 3, 4, 5, 6, 7, 8, 9, 10, 11, 12, 13, 14, 15])),
            vec![0, 1, 2, 3, 4, 5, 6, 7, 8, 9, 10, 11, 12, 13, 14, 15],
        ),
        (Type::Enum8(vec![("a".to_string(), -3)]), Value::Enum8(-3), vec![0xFD]),
        (Type::Enum16(vec![("a".to_string(), 300)]), Value::Enum16(300), vec![0x2C, 0x01]),
    ];
    for (t, v, bytes) in cases {
        assert_eq!(single(&t, &v), bytes, "{:?}", t);
        assert_eq!(column(&t, &[v.clone(), v.clone()]), [bytes.clone(), bytes.clone()].concat());
        let mut reader = Reader::new(&bytes);
        let back = t.deserialize(&mut reader, &mut DeserializerState {}).unwrap();
        assert_eq!(back, v);
        assert_eq!(reader.position(), bytes.len());
        assert_eq!(
            read_column(&t, &bytes[..bytes.len() - 1], 1).unwrap_err(),
            ErrorKind::ProtocolError
        );
        round_trip(&t, vec![v.clone(), v]);
    }
}

#[test]
fn long_strings_have_long_lengths() {
    let s = "x".repeat(300);
    let bytes = single(&Type::String, &text(&s));
    assert_eq!(bytes[..2], [0xAC, 0x02]);
    assert_eq!(bytes.len(), 302);
    round_trip(&Type::String, vec![text(&s), text("\u{e9}\u{4e2d}\u{1f600}"), text("")]);
    assert_eq!(single(&Type::String, &text("\u{e9}")), vec![2, 0xC3, 0xA9]);
}

#[test]
fn fixed_strings_are_padded() {
    let t = Type::FixedString(4);
    assert_eq!(single(&t, &text("ab")), vec![b'a', b'b', 0, 0]);
    assert_eq!(single(&t, &text("abcd")), vec![b'a', b'b', b'c', b'd']);
    assert_eq!(single(&t, &text("")), vec![0, 0, 0, 0]);
    let mut out = vec![1, 2, 3];
    let e = t.serialize(&text("abcde"), &mut out, &mut SerializerState {}).unwrap_err();
    assert_eq!(e.kind(), ErrorKind::TypeMismatch);
    assert_eq!(out, vec![1, 2, 3]);
    assert_eq!(read_column(&t, b"ab\0\0", 1).unwrap(), vec![text("ab\0\0")]);
    round_trip(&t, vec![text("abcd"), text("\u{e9}\u{e9}")]);
    assert_eq!(single(&Type::FixedString(0), &text("")), Vec::<u8>::new());
}

#[test]
fn strings_must_be_utf8() {
    assert_eq!(read_column(&Type::String, &[2, 0xC3, 0x28], 1).unwrap_err(), ErrorKind::ProtocolError);
    assert_eq!(
        read_column(&Type::FixedString(2), &[0xFF, 0xFE], 1).unwrap_err(),
        ErrorKind::ProtocolError
    );
    assert_eq!(read_column(&Type::String, &[3, b'a', b'b'], 1).unwrap_err(), ErrorKind::ProtocolError);
    assert_eq!(read_column(&Type::String, &[0x80], 1).unwrap_err(), ErrorKind::ProtocolError);
    assert_eq!(read_column(&Type::String, &[], 1).unwrap_err(), ErrorKind::ProtocolError);
    assert_eq!(read_column(&Type::String, &[0x81, 0x00, b'a'], 1).unwrap(), vec![text("a")]);
    assert_eq!(
        read_column(&Type::String, &[0x80; 11], 1).unwrap_err(),
        ErrorKind::ProtocolError
    );
    assert_eq!(
        read_column(
            &Type::String,
            &[0xFF, 0xFF, 0xFF, 0xFF, 0xFF, 0xFF, 0xFF, 0xFF, 0xFF, 0x02],
            1
        )
        .unwrap_err(),
        ErrorKind::ProtocolError
    );
}

#[test]
fn mismatched_values_are_not_written() {
    let cases: Vec<(Type, Value)> = vec![
        (Type::Int8, Value::Int16(1)),
        (Type::String, Value::Int8(1)),
        (Type::Int8, Value::Null),
        (Type::Array(Box::new(Type::Int8)), Value::Array(vec![Value::Int8(1), text("a")])),
        (Type::Array(Box::new(Type::Int8)), Value::Int8(1)),
        (Type::Tuple(vec![Type::Int8, Type::Int8]), Value::Tuple(vec![Value::Int8(1)])),
        (Type::Tuple(vec![Type::Int8]), Value::Tuple(vec![Value::Int8(1), Value::Int8(2)])),
        (Type::Tuple(vec![Type::Int8]), Value::Tuple(vec![text("a")])),
        (
            Type::Mapping(Box::new(Type::String), Box::new(Type::Int8)),
            Value::Mapping(vec![text("a")], vec![]),
        ),
        (
            Type::Mapping(Box::new(Type::String), Box::new(Type::Int8)),
            Value::Mapping(vec![Value::Int8(1)], vec![Value::Int8(1)]),
        ),
        (Type::LowCardinality(Box::new(Type::String)), Value::Null),
        (Type::LowCardinality(Box::new(Type::String)), Value::Int8(1)),
        (Type::Nullable(Box::new(Type::String)), Value::Int8(1)),
    ];
    for (t, v) in cases {
        assert!(!t.can_serialize(&v), "{:?} {:?}", t, v);
        let mut out = vec![9u8];
        let mut state = SerializerState {};
        let e = t.serialize(&v, &mut out, &mut state).unwrap_err();
        assert_eq!(e.kind(), ErrorKind::TypeMismatch);
        assert_eq!(out, vec![9u8]);
        let good = t.default_value();
        let e = t.serialize_column(&[good, v], &mut out, &mut state).unwrap_err();
        assert_eq!(e.kind(), ErrorKind::TypeMismatch);
        assert_eq!(out, vec![9u8]);
    }
}

#[test]
fn shape_is_all_that_writing_asks() {
    assert!(Type::Decimal32(2).can_serialize(&Value::Decimal32(5, 1)));
    assert!(Type::Enum8(vec![]).can_serialize(&Value::Enum8(1)));
    assert!(Type::DateTime(Tz::utc())
        .can_serialize(&Value::DateTime(DateTime(Tz::from_name("Asia/Tokyo").unwrap(), 1))));
    assert!(Type::Nullable(Box::new(Type::Int8)).can_serialize(&Value::Null));
    assert!(Type::LowCardinality(Box::new(Type::Nullable(Box::new(Type::String))))
        .can_serialize(&Value::Null));
}

#[test]
fn offsets_are_cumulative() {
    let t = Type::Array(Box::new(Type::String));
    let values = vec![
        Value::Array(vec![text("a")]),
        Value::Array(vec![]),
        Value::Array(vec![text("b"), text("c")]),
        Value::Array(vec![]),
    ];
    let bytes = column(&t, &values);
    let offsets: Vec<u64> =
        (0..4).map(|i| u64::from_le_bytes(bytes[8 * i..8 * i + 8].try_into().unwrap())).collect();
    assert_eq!(offsets, vec![1, 1, 3, 3]);
    assert_eq!(bytes[32..], [1, b'a', 1, b'b', 1, b'c']);
    round_trip(&t, values);
    assert_eq!(column(&t, &[]), Vec::<u8>::new());
    assert_eq!(read_column(&t, &[], 0).unwrap(), vec![]);
}

#[test]
fn offsets_must_ascend() {
    let t = Type::Array(Box::new(Type::UInt8));
    let mut bytes = u64_le(2);
    bytes.extend(u64_le(1));
    bytes.extend([1, 2]);
    assert_eq!(read_column(&t, &bytes, 2).unwrap_err(), ErrorKind::ProtocolError);
    let mut bytes = u64_le(1);
    bytes.extend(u64_le(3));
    bytes.extend([1, 2]);
    assert_eq!(read_column(&t, &bytes, 2).unwrap_err(), ErrorKind::ProtocolError);
    assert_eq!(read_column(&t, &u64_le(0)[..7], 1).unwrap_err(), ErrorKind::ProtocolError);
    let mut bytes = u64_le(1);
    bytes.extend(u64_le(3));
    bytes.extend([1, 2, 3]);
    assert_eq!(
        read_column(&t, &bytes, 2).unwrap(),
        vec![
            Value::Array(vec![Value::UInt8(1)]),
            Value::Array(vec![Value::UInt8(2), Value::UInt8(3)])
        ]
    );
    assert_eq!(read_column(&t, &u64_le(u64::MAX), 1).unwrap_err(), ErrorKind::ProtocolError);
}

#[test]
fn nested_arrays() {
    let t = Type::Array(Box::new(Type::Array(Box::new(Type::Nullable(Box::new(Type::Int16))))));
    round_trip(
        &t,
        vec![
            Value::Array(vec![
                Value::Array(vec![Value::Int16(1), Value::Null]),
                Value::Array(vec![]),
            ]),
            Value::Array(vec![]),
            Value::Array(vec![Value::Array(vec![Value::Int16(-7)])]),
        ],
    );
}

#[test]
fn nullable_columns_hold_a_value_for_every_row() {
    let t = Type::Nullable(Box::new(Type::UInt32));
    for nulls in 0..=3usize {
        let values: Vec<Value> =
            (0..3).map(|i| if i < nulls { Value::Null } else { Value::UInt32(7) }).collect();
        assert_eq!(column(&t, &values).len(), 3 + 3 * 4);
        round_trip(&t, values);
    }
    let t = Type::Nullable(Box::new(Type::String));
    assert_eq!(column(&t, &[Value::Null, text("a")]), vec![1, 0, 0, 1, b'a']);
    let t = Type::Nullable(Box::new(Type::FixedString(2)));
    assert_eq!(column(&t, &[Value::Null, text("ab")]), vec![1, 0, 0, 0, b'a', b'b']);
}

#[test]
fn any_nonzero_mask_byte_is_null() {
    let t = Type::Nullable(Box::new(Type::UInt8));
    assert_eq!(
        read_column(&t, &[0, 1, 2, 0xFF, 10, 11, 12, 13], 4).unwrap(),
        vec![Value::UInt8(10), Value::Null, Value::Null, Value::Null]
    );
    assert_eq!(read_column(&t, &[0, 1, 10], 2).unwrap_err(), ErrorKind::ProtocolError);
    assert_eq!(read_column(&t, &[0], 2).unwrap_err(), ErrorKind::ProtocolError);
}

#[test]
fn tuples_of_columns() {
    let t = Type::Tuple(vec![
        Type::Array(Box::new(Type::UInt8)),
        Type::LowCardinality(Box::new(Type::String)),
        Type::Tuple(vec![]),
    ]);
    assert_eq!(prefix(&t), u64_le(1));
    round_trip(
        &t,
        vec![
            Value::Tuple(vec![Value::Array(vec![Value::UInt8(1)]), text("a"), Value::Tuple(vec![])]),
            Value::Tuple(vec![Value::Array(vec![]), text("b"), Value::Tuple(vec![])]),
        ],
    );
    let empty = Type::Tuple(vec![]);
    assert_eq!(column(&empty, &[Value::Tuple(vec![]), Value::Tuple(vec![])]), Vec::<u8>::new());
    assert_eq!(
        read_column(&empty, &[], 2).unwrap(),
        vec![Value::Tuple(vec![]), Value::Tuple(vec![])]
    );
}

#[test]
fn prefixes_nest() {
    let lc = || Type::LowCardinality(Box::new(Type::String));
    let t = Type::Mapping(Box::new(lc()), Box::new(Type::Array(Box::new(lc()))));
    let mut expected = u64_le(1);
    expected.extend(u64_le(1));
    assert_eq!(prefix(&t), expected);
    assert_eq!(prefix(&Type::Nullable(Box::new(Type::Int8))), Vec::<u8>::new());
    assert_eq!(prefix(&Type::Tuple(vec![lc(), Type::Int8, lc()])).len(), 16);
    let mut reader = Reader::new(&expected);
    t.deserialize_prefix(&mut reader, &mut DeserializerState {}).unwrap();
    assert_eq!(reader.position(), 16);
    let mut reader = Reader::new(&expected[..12]);
    let e = t.deserialize_prefix(&mut reader, &mut DeserializerState {}).unwrap_err();
    assert_eq!(e.kind(), ErrorKind::ProtocolError);
}

#[test]
fn unexpected_version_is_a_protocol_error() {
    let t = Type::LowCardinality(Box::new(Type::String));
    for bytes in [u64_le(0), u64_le(2), u64_le(1 << 32), vec![1, 0, 0]] {
        let mut reader = Reader::new(&bytes);
        let e = t.deserialize_prefix(&mut reader, &mut DeserializerState {}).unwrap_err();
        assert_eq!(e.kind(), ErrorKind::ProtocolError);
    }
}

fn dictionary_column(flags: u64, dict: &[&str], width: usize, indices: &[u64]) -> Vec<u8> {
    let mut bytes = u64_le(flags);
    bytes.extend(u64_le(dict.len() as u64));
    for s in dict {
        bytes.push(s.len() as u8);
        bytes.extend(s.as_bytes());
    }
    bytes.extend(u64_le(indices.len() as u64));
    for i in indices {
        bytes.extend(&i.to_le_bytes()[..width]);
    }
    bytes
}

#[test]
fn every_index_width_is_read() {
    let t = Type::LowCardinality(Box::new(Type::String));
    let expected = vec![text("b"), text("a"), text("b")];
    for (code, width) in [(0u64, 1usize), (1, 2), (2, 4), (3, 8)] {
        let bytes = dictionary_column(512 + code, &["a", "b"], width, &[1, 0, 1]);
        assert_eq!(read_column(&t, &bytes, 3).unwrap(), expected);
        let bytes = dictionary_column(512 + 1024 + code, &["a", "b"], width, &[1, 0, 1]);
        assert_eq!(read_column(&t, &bytes, 3).unwrap(), expected);
    }
}

#[test]
fn only_index_zero_is_null() {
    let t = Type::LowCardinality(Box::new(Type::Nullable(Box::new(Type::String))));
    let bytes = dictionary_column(512, &["", "a", ""], 1, &[0, 1, 2, 0]);
    assert_eq!(
        read_column(&t, &bytes, 4).unwrap(),
        vec![Value::Null, text("a"), text(""), Value::Null]
    );
    let plain = Type::LowCardinality(Box::new(Type::String));
    assert_eq!(
        read_column(&plain, &bytes, 4).unwrap(),
        vec![text(""), text("a"), text(""), text("")]
    );
}

#[test]
fn empty_strings_keep_their_own_slot_under_nullable() {
    let t = Type::LowCardinality(Box::new(Type::Nullable(Box::new(Type::String))));
    let values = vec![text(""), Value::Null, text(""), text("x")];
    let bytes = column(&t, &values);
    assert_eq!(bytes, dictionary_column(1536, &["", "", "x"], 1, &[1, 0, 1, 2]));
    round_trip(&t, values);
}

#[test]
fn bad_dictionary_columns() {
    let t = Type::LowCardinality(Box::new(Type::String));
    let good = dictionary_column(512, &["a", "b"], 1, &[1, 0]);
    assert!(read_column(&t, &good, 2).is_ok());
    let cases = vec![
        dictionary_column(512, &["a", "b"], 1, &[2, 0]),
        dictionary_column(512 + 4, &["a", "b"], 1, &[1, 0]),
        dictionary_column(0, &["a", "b"], 1, &[1, 0]),
        dictionary_column(512 + 256, &["a", "b"], 1, &[1, 0]),
        dictionary_column(512, &["a", "b"], 1, &[1, 0, 1]),
        dictionary_column(512, &["a", "b"], 1, &[1]),
        dictionary_column(512, &[], 1, &[0, 0]),
        good[..good.len() - 1].to_vec(),
        good[..20].to_vec(),
        good[..15].to_vec(),
        good[..3].to_vec(),
    ];
    for bytes in cases {
        assert_eq!(read_column(&t, &bytes, 2).unwrap_err(), ErrorKind::ProtocolError);
    }
    let mut huge = u64_le(512);
    huge.extend(u64_le(u64::MAX));
    assert_eq!(read_column(&t, &huge, 0).unwrap_err(), ErrorKind::ProtocolError);
}

#[test]
fn index_width_is_the_narrowest() {
    let t = Type::LowCardinality(Box::new(Type::UInt16));
    for (count, code, width) in [(1usize, 0u64, 1usize), (256, 0, 1), (257, 1, 2), (300, 1, 2)] {
        let values: Vec<Value> = (0..count).map(|i| Value::UInt16(i as u16)).collect();
        let bytes = column(&t, &values);
        assert_eq!(u64::from_le_bytes(bytes[0..8].try_into().unwrap()), 1536 + code);
        assert_eq!(u64::from_le_bytes(bytes[8..16].try_into().unwrap()), count as u64);
        assert_eq!(bytes.len(), 16 + 2 * count + 8 + width * count);
        round_trip(&t, values);
    }
    let nullable = Type::LowCardinality(Box::new(Type::Nullable(Box::new(Type::UInt16))));
    let values: Vec<Value> = (0..256).map(|i| Value::UInt16(i as u16)).collect();
    let bytes = column(&nullable, &values);
    assert_eq!(u64::from_le_bytes(bytes[0..8].try_into().unwrap()), 1536 + 1);
    assert_eq!(u64::from_le_bytes(bytes[8..16].try_into().unwrap()), 257);
    round_trip(&nullable, values);
}

#[test]
fn dictionary_keeps_first_seen_order() {
    let t = Type::LowCardinality(Box::new(Type::String));
    let values = vec![text("b"), text("a"), text("b"), text("c"), text("a")];
    assert_eq!(column(&t, &values), dictionary_column(1536, &["b", "a", "c"], 1, &[0, 1, 0, 2, 1]));
    assert_eq!(column(&t, &[]), dictionary_column(1536, &[], 1, &[]));
    let nullable = Type::LowCardinality(Box::new(Type::Nullable(Box::new(Type::String))));
    assert_eq!(column(&nullable, &[]), dictionary_column(1536, &[""], 1, &[]));
    assert_eq!(
        column(&nullable, &[Value::Null, Value::Null]),
        dictionary_column(1536, &[""], 1, &[0, 0])
    );
    round_trip(&t, values);
    round_trip(&t, vec![]);
    round_trip(&nullable, vec![Value::Null, Value::Null]);
}

#[test]
fn single_values_are_columns_of_one_row() {
    let t = Type::Array(Box::new(Type::UInt8));
    let v = Value::Array(vec![Value::UInt8(4), Value::UInt8(5)]);
    let mut expected = u64_le(2);
    expected.extend([4, 5]);
    assert_eq!(single(&t, &v), expected);
    let mut reader = Reader::new(&expected);
    assert_eq!(t.deserialize(&mut reader, &mut DeserializerState {}).unwrap(), v);
    assert_eq!(reader.position(), 10);

    let t = Type::Nullable(Box::new(Type::UInt8));
    assert_eq!(single(&t, &Value::Null), vec![1, 0]);
    assert_eq!(single(&t, &Value::UInt8(3)), vec![0, 3]);
    let mut reader = Reader::new(&[1, 9]);
    assert_eq!(t.deserialize(&mut reader, &mut DeserializerState {}).unwrap(), Value::Null);

    let t = Type::Tuple(vec![Type::UInt8, Type::String]);
    let v = Value::Tuple(vec![Value::UInt8(1), text("a")]);
    assert_eq!(single(&t, &v), vec![1, 1, b'a']);
    let mut reader = Reader::new(&[1, 1, b'a']);
    assert_eq!(t.deserialize(&mut reader, &mut DeserializerState {}).unwrap(), v);

    let t = Type::LowCardinality(Box::new(Type::String));
    assert_eq!(single(&t, &text("a")), dictionary_column(1536, &["a"], 1, &[0]));
    let mut reader = Reader::new(&[]);
    let e = t.deserialize(&mut reader, &mut DeserializerState {}).unwrap_err();
    assert_eq!(e.kind(), ErrorKind::ProtocolError);
}

#[test]
fn defaults() {
    let utc = Tz::utc;
    assert_eq!(Type::Int8.default_value(), Value::Int8(0));
    assert_eq!(Type::Int256.default_value(), Value::Int256(i256([0; 32])));
    assert_eq!(Type::UInt256.default_value(), Value::UInt256(u256([0; 32])));
    assert_eq!(Type::Float32.default_value(), Value::Float32(0));
    assert_eq!(Type::Decimal64(4).default_value(), Value::Decimal64(4, 0));
    assert_eq!(Type::Decimal256(4).default_value(), Value::Decimal256(4, i256([0; 32])));
    assert_eq!(Type::String.default_value(), text(""));
    assert_eq!(Type::FixedString(3).default_value(), text(""));
    assert_eq!(Type::Uuid.default_value(), Value::Uuid(Uuid::from_u128(0)));
    assert_eq!(Type::Date.default_value(), Value::Date(Date(0)));
    assert_eq!(Type::DateTime(utc()).default_value(), Value::DateTime(DateTime(utc(), 0)));
    assert_eq!(Type::DateTime64(3, utc()).default_value(), Value::DateTime64(utc(), 3, 0));
    assert_eq!(Type::Ipv4.default_value(), Value::Ipv4(Ipv4(0)));
    assert_eq!(Type::Ipv6.default_value(), Value::Ipv6(Ipv6([0; 16])));
    assert_eq!(Type::Enum8(vec![]).default_value(), Value::Enum8(0));
    assert_eq!(Type::Enum16(vec![]).default_value(), Value::Enum16(0));
    assert_eq!(Type::LowCardinality(Box::new(Type::String)).default_value(), text(""));
    assert_eq!(Type::Array(Box::new(Type::String)).default_value(), Value::Array(vec![]));
    assert_eq!(
        Type::Tuple(vec![Type::Int8, Type::Nullable(Box::new(Type::Int8))]).default_value(),
        Value::Tuple(vec![Value::Int8(0), Value::Null])
    );
    assert_eq!(Type::Nullable(Box::new(Type::Int8)).default_value(), Value::Null);
    assert_eq!(
        Type::Mapping(Box::new(Type::String), Box::new(Type::Int8)).default_value(),
        Value::Mapping(vec![], vec![])
    );
}

#[test]
fn value_conformance() {
    let utc = Tz::utc;
    let tokyo = || Tz::from_name("Asia/Tokyo").unwrap();
    let ok = |t: &Type, v: &Value| t.validate_value(v).is_ok();
    let kind = |t: &Type, v: &Value| t.validate_value(v).unwrap_err().kind();
    assert!(ok(&Type::Int8, &Value::Int8(1)));
    assert_eq!(kind(&Type::Int8, &Value::Int16(1)), ErrorKind::TypeMismatch);
    assert_eq!(kind(&Type::Int8, &Value::Null), ErrorKind::TypeMismatch);
    assert!(ok(&Type::Decimal32(3), &Value::Decimal32(3, 5)));
    assert_eq!(kind(&Type::Decimal32(3), &Value::Decimal32(4, 5)), ErrorKind::TypeMismatch);
    assert_eq!(kind(&Type::Decimal32(0), &Value::Decimal32(0, 5)), ErrorKind::InvalidType);
    assert_eq!(kind(&Type::Decimal32(0), &Value::Int8(5)), ErrorKind::InvalidType);
    assert!(ok(&Type::DateTime(utc()), &Value::DateTime(DateTime(utc(), 5))));
    assert_eq!(
        kind(&Type::DateTime(utc()), &Value::DateTime(DateTime(tokyo(), 5))),
        ErrorKind::TypeMismatch
    );
    assert!(ok(&Type::DateTime64(3, tokyo()), &Value::DateTime64(tokyo(), 3, 5)));
    assert_eq!(
        kind(&Type::DateTime64(3, tokyo()), &Value::DateTime64(tokyo(), 4, 5)),
        ErrorKind::TypeMismatch
    );
    assert_eq!(
        kind(&Type::DateTime64(3, tokyo()), &Value::DateTime64(utc(), 3, 5)),
        ErrorKind::TypeMismatch
    );
    let e8 = Type::Enum8(vec![("a".to_string(), 1), ("b".to_string(), -2)]);
    assert!(ok(&e8, &Value::Enum8(-2)));
    assert_eq!(kind(&e8, &Value::Enum8(0)), ErrorKind::TypeMismatch);
    let e16 = Type::Enum16(vec![("a".to_string(), 1000)]);
    assert!(ok(&e16, &Value::Enum16(1000)));
    assert_eq!(kind(&e16, &Value::Enum16(1)), ErrorKind::TypeMismatch);
    assert_eq!(kind(&e16, &Value::Enum8(1)), ErrorKind::TypeMismatch);
    let nullable = Type::Nullable(Box::new(Type::String));
    assert!(ok(&nullable, &Value::Null));
    assert!(ok(&nullable, &text("a")));
    assert_eq!(kind(&nullable, &Value::Int8(1)), ErrorKind::TypeMismatch);
    let lc = Type::LowCardinality(Box::new(Type::Nullable(Box::new(Type::String))));
    assert!(ok(&lc, &Value::Null));
    assert!(ok(&lc, &text("a")));
    let array = Type::Array(Box::new(Type::Int8));
    assert!(ok(&array, &Value::Array(vec![])));
    assert!(ok(&array, &Value::Array(vec![Value::Int8(1), Value::Int8(2)])));
    assert_eq!(
        kind(&array, &Value::Array(vec![Value::Int8(1), Value::Int16(2)])),
        ErrorKind::TypeMismatch
    );
    let tuple = Type::Tuple(vec![Type::Int8, Type::String]);
    assert!(ok(&tuple, &Value::Tuple(vec![Value::Int8(1), text("a")])));
    assert!(ok(&tuple, &Value::Tuple(vec![Value::Int8(1)])));
    assert_eq!(
        kind(&tuple, &Value::Tuple(vec![text("a"), text("a")])),
        ErrorKind::TypeMismatch
    );
    let map = Type::Mapping(Box::new(Type::String), Box::new(Type::Int8));
    assert!(ok(&map, &Value::Mapping(vec![text("a")], vec![Value::Int8(1)])));
    assert_eq!(
        kind(&map, &Value::Mapping(vec![Value::Int8(1)], vec![Value::Int8(1)])),
        ErrorKind::TypeMismatch
    );
    assert_eq!(
        kind(&map, &Value::Mapping(vec![text("a")], vec![text("a")])),
        ErrorKind::TypeMismatch
    );
    assert!(Type::FixedString(1).inner_validate_value(&text("toolong")));
    assert!(!Type::Nullable(Box::new(Type::Array(Box::new(Type::Int8))))
        .inner_validate_value(&Value::Int8(1)));
    assert!(Type::Nullable(Box::new(Type::Array(Box::new(Type::Int8))))
        .inner_validate_value(&Value::Null));
}

#[test]
fn values_compare_and_copy() {
    let tokyo = || Tz::from_name("Asia/Tokyo").unwrap();
    let values = vec![
        Value::Int8(1),
        Value::Int16(1),
        Value::UInt8(1),
        Value::Int256(i256([1; 32])),
        Value::UInt256(u256([1; 32])),
        Value::Decimal32(1, 1),
        Value::Decimal32(2, 1),
        Value::Decimal256(2, i256([1; 32])),
        text("a"),
        text("b"),
        Value::Uuid(Uuid::from_u128(1)),
        Value::Date(Date(1)),
        Value::DateTime(DateTime(Tz::utc(), 1)),
        Value::DateTime(DateTime(tokyo(), 1)),
        Value::DateTime64(tokyo(), 1, 1),
        Value::DateTime64(tokyo(), 2, 1),
        Value::Ipv4(Ipv4(1)),
        Value::Ipv6(Ipv6([1; 16])),
        Value::Ipv6(Ipv6([2; 16])),
        Value::Enum8(1),
        Value::Enum16(1),
        Value::Array(vec![]),
        Value::Array(vec![Value::Int8(1)]),
        Value::Array(vec![Value::Int8(2)]),
        Value::Tuple(vec![]),
        Value::Tuple(vec![Value::Int8(1)]),
        Value::Null,
        Value::Mapping(vec![], vec![]),
        Value::Mapping(vec![Value::Int8(1)], vec![Value::Int8(1)]),
        Value::Mapping(vec![Value::Int8(1)], vec![Value::Int8(2)]),
    ];
    for (i, a) in values.iter().enumerate() {
        assert_eq!(&a.clone(), a);
        assert_eq!(&a.duplicate(), a);
        for (j, b) in values.iter().enumerate() {
            assert_eq!(a.same(b), i == j, "{:?} {:?}", a, b);
            assert_eq!(a == b, i == j);
        }
    }
    assert_eq!(Uuid::from_u128(77).as_u128(), 77);
    assert_eq!(i256::default(), i256([0; 32]));
    assert_eq!(u256::default(), u256([0; 32]));
    assert_eq!(Ipv4::default(), Ipv4(0));
    assert_eq!(Ipv6::default(), Ipv6([0; 16]));
}

struct Dice(u64);

impl Dice {
    fn roll(&mut self, sides: u64) -> u64 {
        self.0 = self.0.wrapping_mul(6364136223846793005).wrapping_add(1442695040888963407);
        (self.0 >> 33) % sides
    }
}

fn some_scalar(dice: &mut Dice) -> Type {
    match dice.roll(12) {
        0 => Type::Int8,
        1 => Type::UInt64,
        2 => Type::Int128,
        3 => Type::UInt256,
        4 => Type::String,
        5 => Type::FixedString(3),
        6 => Type::Date,
        7 => Type::DateTime(Tz::from_name("Europe/Berlin").unwrap()),
        8 => Type::Ipv4,
        9 => Type::Ipv6,
        10 => Type::Decimal64(4),
        _ => Type::Uuid,
    }
}

fn some_type(dice: &mut Dice, depth: u64) -> Type {
    if depth == 0 {
        return some_scalar(dice);
    }
    match dice.roll(7) {
        0 => Type::Array(Box::new(some_type(dice, depth - 1))),
        1 => Type::Nullable(Box::new(some_scalar(dice))),
        2 => Type::LowCardinality(Box::new(some_scalar(dice))),
        3 => Type::LowCardinality(Box::new(Type::Nullable(Box::new(some_scalar(dice))))),
        4 => {
            let n = dice.roll(4);
            Type::Tuple((0..n).map(|_| some_type(dice, depth - 1)).collect())
        }
        5 => Type::Mapping(Box::new(some_scalar(dice)), Box::new(some_type(dice, depth - 1))),
        _ => some_scalar(dice),
    }
}

fn some_value(dice: &mut Dice, t: &Type) -> Value {
    match t {
        Type::Int8 => Value::Int8(dice.roll(256) as u8 as i8),
        Type::UInt64 => Value::UInt64(dice.roll(u64::MAX)),
        Type::Int128 => Value::Int128((dice.roll(1 << 40) as i128 - (1 << 39)) << 70),
        Type::UInt256 => Value::UInt256(u256([dice.roll(256) as u8; 32])),
        Type::String => text(&"ab\u{e9}\u{4e2d}"[..[0, 1, 2, 4, 7][dice.roll(5) as usize]]),
        Type::FixedString(_) => text(["abc", "\u{e9}x", "\0\0\0"][dice.roll(3) as usize]),
        Type::Date => Value::Date(Date(dice.roll(65536) as u16)),
        Type::DateTime(tz) => Value::DateTime(DateTime(tz.clone(), dice.roll(1 << 32) as u32)),
        Type::Ipv4 => Value::Ipv4(Ipv4(dice.roll(1 << 32) as u32)),
        Type::Ipv6 => Value::Ipv6(Ipv6([dice.roll(256) as u8; 16])),
        Type::Decimal64(s) => Value::Decimal64(*s, dice.roll(1 << 40) as i64 - (1 << 39)),
        Type::Uuid => Value::Uuid(Uuid::from_u128((dice.roll(u64::MAX) as u128) << 37)),
        Type::Array(x) => {
            let n = dice.roll(4);
            Value::Array((0..n).map(|_| some_value(dice, x)).collect())
        }
        Type::Nullable(x) => {
            if dice.roll(3) == 0 {
                Value::Null
            } else {
                some_value(dice, x)
            }
        }
        Type::LowCardinality(x) => some_value(dice, x),
        Type::Tuple(ts) => Value::Tuple(ts.iter().map(|x| some_value(dice, x)).collect()),
        Type::Mapping(k, v) => {
            let n = dice.roll(3);
            Value::Mapping(
                (0..n).map(|_| some_value(dice, k)).collect(),
                (0..n).map(|_| some_value(dice, v)).collect(),
            )
        }
        _ => unreachable!(),
    }
}

#[test]
fn many_columns_come_back() {
    let mut dice = Dice(2024);
    for _ in 0..300 {
        let t = some_type(&mut dice, 3);
        let rows = dice.roll(6);
        let values: Vec<Value> = (0..rows).map(|_| some_value(&mut dice, &t)).collect();
        assert_eq!(Type::from_str(&t.to_string()).unwrap(), t);
        for v in &values {
            assert!(t.can_serialize(v), "{:?} {:?}", t, v);
            assert!(t.inner_validate_value(v), "{:?} {:?}", t, v);
        }
        let mut bytes = prefix(&t);
        bytes.extend(column(&t, &values));
        let mut reader = Reader::new(&bytes);
        let mut state = DeserializerState {};
        t.deserialize_prefix(&mut reader, &mut state).unwrap();
        let back = t.deserialize_column(&mut reader, values.len(), &mut state).unwrap();
        assert_eq!(back, values, "{:?}", t);
        assert_eq!(reader.remaining(), 0);
        for v in &values {
            let bytes = single(&t, v);
            let mut reader = Reader::new(&bytes);
            assert_eq!(&t.deserialize(&mut reader, &mut state).unwrap(), v);
            assert_eq!(reader.remaining(), 0);
        }
        if !bytes.is_empty() {
            let cut = &bytes[..bytes.len() - 1];
            let mut reader = Reader::new(cut);
            let whole = t
                .deserialize_prefix(&mut reader, &mut state)
                .and_then(|_| t.deserialize_column(&mut reader, values.len(), &mut state));
            assert_eq!(whole.unwrap_err().kind(), ErrorKind::ProtocolError);
        }
    }
}

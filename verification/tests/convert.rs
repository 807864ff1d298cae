use klickhouse::{unexpected_type, Error, ErrorKind, FromSql, Row, ToSql, Type, Uuid, Value};

#[test]
fn values_convert_to_themselves() {
    assert_eq!(Value::Int8(3).to_sql().unwrap(), Value::Int8(3));
    assert_eq!(Value::from_sql(&Type::String, Value::Int8(3)).unwrap(), Value::Int8(3));
}

#[test]
fn uuids_convert() {
    let id = Uuid::from_u128(42);
    assert_eq!(id.to_sql().unwrap(), Value::Uuid(id));
    assert_eq!(Uuid::from_sql(&Type::Uuid, Value::Uuid(id)).unwrap(), id);
    let e = Uuid::from_sql(&Type::String, Value::Uuid(id)).unwrap_err();
    assert_eq!(e.kind(), ErrorKind::TypeMismatch);
    assert_eq!(e.to_string(), "unexpected type: String");
    let e = Uuid::from_sql(&Type::Uuid, Value::Int8(1)).unwrap_err();
    assert_eq!(e.kind(), ErrorKind::TypeMismatch);
}

#[test]
fn unexpected_type_names_the_type() {
    let e = unexpected_type(&Type::Array(Box::new(Type::Decimal32(3))));
    assert_eq!(e.kind(), ErrorKind::TypeMismatch);
    assert_eq!(e.to_string(), "unexpected type: Array(Decimal32(3))");
}

#[test]
fn errors_carry_kind_and_message() {
    let e = Error::new(ErrorKind::ProtocolError, "truncated");
    assert_eq!(e.kind(), ErrorKind::ProtocolError);
    assert_eq!(e.to_string(), "truncated");
    assert_eq!(Type::from_str("Nested(a Int8)").unwrap_err().kind(), ErrorKind::Unsupported);
    assert_eq!(Type::Decimal32(0).validate(0).unwrap_err().kind(), ErrorKind::InvalidType);
    assert_eq!(Type::from_str("?").unwrap_err().kind(), ErrorKind::BadType);
}

#[test]
fn boolean_rows() {
    let t = Type::UInt8;
    assert_eq!(bool::deserialize_row(vec![("x", &t, Value::UInt8(1))]).unwrap(), true);
    assert_eq!(bool::deserialize_row(vec![("x", &t, Value::UInt8(0))]).unwrap(), false);
    assert_eq!(bool::deserialize_row(vec![("x", &t, Value::UInt8(2))]).unwrap(), false);
    let e = bool::deserialize_row(vec![]).unwrap_err();
    assert_eq!(e.kind(), ErrorKind::TypeMismatch);
    let e = bool::deserialize_row(vec![("x", &t, Value::UInt8(1)), ("y", &t, Value::UInt8(1))])
        .unwrap_err();
    assert_eq!(e.kind(), ErrorKind::TypeMismatch);
    let e = bool::deserialize_row(vec![("x", &t, Value::Int8(1))]).unwrap_err();
    assert_eq!(e.kind(), ErrorKind::TypeMismatch);
    assert_eq!(true.serialize_row().unwrap_err().kind(), ErrorKind::Unsupported);
}

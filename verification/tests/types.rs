use klickhouse::{eat_identifier, parse_args, ErrorKind, Type, Tz};
use std::str::FromStr;

fn tz(name: &str) -> Tz {
    Tz::from_name(name).unwrap()
}

fn parse(text: &str) -> Type {
    Type::from_str(text).unwrap()
}

fn parse_error(text: &str) -> ErrorKind {
    Type::from_str(text).unwrap_err().kind()
}

#[test]
fn parses_nullable_low_cardinality() {
    assert_eq!(
        parse("Nullable(LowCardinality(String))"),
        Type::Nullable(Box::new(Type::LowCardinality(Box::new(Type::String))))
    );
}

#[test]
fn parses_decimal_to_narrowest_width() {
    assert_eq!(parse("Decimal(20, 4)"), Type::Decimal128(4));
    assert_eq!(parse("Decimal(9, 2)"), Type::Decimal32(2));
    assert_eq!(parse("Decimal(10, 2)"), Type::Decimal64(2));
    assert_eq!(parse("Decimal(18, 2)"), Type::Decimal64(2));
    assert_eq!(parse("Decimal(19, 2)"), Type::Decimal128(2));
    assert_eq!(parse("Decimal(38, 2)"), Type::Decimal128(2));
    assert_eq!(parse("Decimal(39, 2)"), Type::Decimal256(2));
    assert_eq!(parse("Decimal(76, 2)"), Type::Decimal256(2));
    assert_eq!(parse_error("Decimal(77, 2)"), ErrorKind::BadType);
    assert_eq!(parse_error("Decimal(5)"), ErrorKind::BadType);
    assert_eq!(parse_error("Decimal(a, 2)"), ErrorKind::BadType);
}

#[test]
fn parses_date_time_64_with_default_zone() {
    assert_eq!(parse("DateTime64(6)"), Type::DateTime64(6, Tz::utc()));
    assert_eq!(parse("DateTime"), Type::DateTime(Tz::utc()));
}

#[test]
fn parses_zones() {
    assert_eq!(parse("DateTime('Europe/London')"), Type::DateTime(tz("Europe/London")));
    assert_eq!(
        parse("DateTime64(3, 'America/New_York')"),
        Type::DateTime64(3, tz("America/New_York"))
    );
    assert_eq!(parse("DateTime('UTC')"), Type::DateTime(Tz::utc()));
    assert_eq!(parse_error("DateTime('Nowhere/Land')"), ErrorKind::BadType);
    assert_eq!(parse_error("DateTime(UTC)"), ErrorKind::BadType);
    assert_eq!(parse_error("DateTime(')"), ErrorKind::BadType);
    assert_eq!(parse_error("DateTime('UTC', 'UTC')"), ErrorKind::BadType);
    assert_eq!(parse_error("DateTime64(3, UTC)"), ErrorKind::BadType);
    assert_eq!(parse_error("DateTime64()"), ErrorKind::BadType);
}

#[test]
fn zone_names() {
    assert!(Tz::from_name("UTC").is_some());
    assert!(Tz::from_name("Asia/Tokyo").is_some());
    assert!(Tz::from_name("asia/tokyo").is_none());
    assert!(Tz::from_name("").is_none());
    assert!(Tz::from_name("Mars/Olympus").is_none());
    assert_eq!(tz("Asia/Tokyo").name(), "Asia/Tokyo");
    assert!(tz("Asia/Tokyo").same_zone(&tz("Asia/Tokyo")));
    assert!(!tz("Asia/Tokyo").same_zone(&Tz::utc()));
    assert_eq!(Tz::utc().name(), "UTC");
}

#[test]
fn parses_plain_names() {
    assert_eq!(parse("Int8"), Type::Int8);
    assert_eq!(parse("Int16"), Type::Int16);
    assert_eq!(parse("Int32"), Type::Int32);
    assert_eq!(parse("Int64"), Type::Int64);
    assert_eq!(parse("Int128"), Type::Int128);
    assert_eq!(parse("Int256"), Type::Int256);
    assert_eq!(parse("UInt8"), Type::UInt8);
    assert_eq!(parse("UInt16"), Type::UInt16);
    assert_eq!(parse("UInt32"), Type::UInt32);
    assert_eq!(parse("UInt64"), Type::UInt64);
    assert_eq!(parse("UInt128"), Type::UInt128);
    assert_eq!(parse("UInt256"), Type::UInt256);
    assert_eq!(parse("Float32"), Type::Float32);
    assert_eq!(parse("Float64"), Type::Float64);
    assert_eq!(parse("String"), Type::String);
    assert_eq!(parse("UUID"), Type::Uuid);
    assert_eq!(parse("Date"), Type::Date);
    assert_eq!(parse("IPv4"), Type::Ipv4);
    assert_eq!(parse("IPv6"), Type::Ipv6);
}

#[test]
fn parses_constructors() {
    assert_eq!(parse("FixedString(16)"), Type::FixedString(16));
    assert_eq!(parse("FixedString(+16)"), Type::FixedString(16));
    assert_eq!(parse("Decimal32(3)"), Type::Decimal32(3));
    assert_eq!(parse("Decimal64(3)"), Type::Decimal64(3));
    assert_eq!(parse("Decimal128(3)"), Type::Decimal128(3));
    assert_eq!(parse("Decimal256(3)"), Type::Decimal256(3));
    assert_eq!(parse("Array(UInt8)"), Type::Array(Box::new(Type::UInt8)));
    assert_eq!(
        parse("Map(String, Array(Int64))"),
        Type::Mapping(Box::new(Type::String), Box::new(Type::Array(Box::new(Type::Int64))))
    );
    assert_eq!(
        parse("Tuple(UInt8, String, Nullable(Date))"),
        Type::Tuple(vec![Type::UInt8, Type::String, Type::Nullable(Box::new(Type::Date))])
    );
    assert_eq!(parse("Tuple()"), Type::Tuple(vec![]));
    assert_eq!(parse("Array( UInt8 )"), Type::Array(Box::new(Type::UInt8)));
    assert_eq!(parse("Array (UInt8) "), Type::Array(Box::new(Type::UInt8)));
}

#[test]
fn rejects_bad_text() {
    assert_eq!(parse_error(""), ErrorKind::BadType);
    assert_eq!(parse_error("8Int"), ErrorKind::BadType);
    assert_eq!(parse_error("Bogus"), ErrorKind::BadType);
    assert_eq!(parse_error("Int8()"), ErrorKind::BadType);
    assert_eq!(parse_error("Bogus(Int8)"), ErrorKind::BadType);
    assert_eq!(parse_error("Array"), ErrorKind::BadType);
    assert_eq!(parse_error("Array("), ErrorKind::BadType);
    assert_eq!(parse_error("Array(Int8"), ErrorKind::BadType);
    assert_eq!(parse_error("Array(Int8))"), ErrorKind::BadType);
    assert_eq!(parse_error("Array(Int8)))("), ErrorKind::BadType);
    assert_eq!(parse_error("Array(Int8, Int8)"), ErrorKind::BadType);
    assert_eq!(parse_error("Array()"), ErrorKind::BadType);
    assert_eq!(parse_error("Map(String)"), ErrorKind::BadType);
    assert_eq!(parse_error("Nullable(Int8, Int8)"), ErrorKind::BadType);
    assert_eq!(parse_error("LowCardinality()"), ErrorKind::BadType);
    assert_eq!(parse_error("FixedString(x)"), ErrorKind::BadType);
    assert_eq!(parse_error("FixedString(-1)"), ErrorKind::BadType);
    assert_eq!(parse_error("FixedString()"), ErrorKind::BadType);
    assert_eq!(parse_error("FixedString(99999999999999999999999999)"), ErrorKind::BadType);
    assert_eq!(parse_error("Int8 x"), ErrorKind::BadType);
    assert_eq!(parse_error("Tuple(Int8, Bogus)"), ErrorKind::BadType);
}

#[test]
fn enum_and_nested_text_is_unsupported() {
    assert_eq!(parse_error("Enum8('a' = 1, 'b' = 2)"), ErrorKind::Unsupported);
    assert_eq!(parse_error("Enum16('a' = 1)"), ErrorKind::Unsupported);
    assert_eq!(parse_error("Nested(a Int8)"), ErrorKind::Unsupported);
    assert_eq!(parse_error("Array(Enum8('a' = 1))"), ErrorKind::Unsupported);
    assert_eq!(parse_error("Tuple(Bogus, Enum8('a' = 1))"), ErrorKind::BadType);
    assert_eq!(parse_error("Tuple(Enum8('a' = 1), Bogus)"), ErrorKind::Unsupported);
    assert_eq!(parse_error("Enum8"), ErrorKind::BadType);
}

#[test]
fn eats_identifiers() {
    assert_eq!(eat_identifier("Array(Int8)"), ("Array", "(Int8)"));
    assert_eq!(eat_identifier("Int8"), ("Int8", ""));
    assert_eq!(eat_identifier("8Int"), ("", "8Int"));
    assert_eq!(eat_identifier("_a$1 rest"), ("_a$1", " rest"));
    assert_eq!(eat_identifier(""), ("", ""));
    assert_eq!(eat_identifier("\u{e9}t\u{e9}(x)"), ("\u{e9}t\u{e9}", "(x)"));
    assert_eq!(eat_identifier("a\u{0663}+"), ("a\u{0663}", "+"));
}

#[test]
fn cuts_arguments() {
    assert_eq!(parse_args("(a, b)").unwrap(), vec!["a", "b"]);
    assert_eq!(parse_args("()").unwrap(), Vec::<&str>::new());
    assert_eq!(parse_args("(  )").unwrap(), Vec::<&str>::new());
    assert_eq!(parse_args("( a ,b(c, d) , e )").unwrap(), vec!["a", "b(c, d)", "e"]);
    assert_eq!(parse_args("(a,)").unwrap(), vec!["a"]);
    assert_eq!(parse_args("(a,,b)").unwrap(), vec!["a", "", "b"]);
    assert_eq!(parse_args("(\u{a0}a\u{2003})").unwrap(), vec!["a"]);
    assert_eq!(parse_args("a, b").unwrap_err().kind(), ErrorKind::BadType);
    assert_eq!(parse_args("(").unwrap_err().kind(), ErrorKind::BadType);
    assert_eq!(parse_args("(a").unwrap_err().kind(), ErrorKind::BadType);
    assert_eq!(parse_args("(a(b)").unwrap_err().kind(), ErrorKind::BadType);
    assert_eq!(parse_args("(a)b)").unwrap_err().kind(), ErrorKind::BadType);
    assert_eq!(parse_args("").unwrap_err().kind(), ErrorKind::BadType);
}

#[test]
fn prints_canonical_text() {
    assert_eq!(Type::Int8.to_string(), "Int8");
    assert_eq!(Type::Uuid.to_string(), "UUID");
    assert_eq!(Type::Ipv4.to_string(), "IPv4");
    assert_eq!(Type::Ipv6.to_string(), "IPv6");
    assert_eq!(Type::Decimal32(0).to_string(), "Decimal32(0)");
    assert_eq!(Type::Decimal128(4).to_string(), "Decimal128(4)");
    assert_eq!(Type::FixedString(1234567890).to_string(), "FixedString(1234567890)");
    assert_eq!(Type::DateTime(Tz::utc()).to_string(), "DateTime('UTC')");
    assert_eq!(
        Type::DateTime64(6, tz("Europe/Paris")).to_string(),
        "DateTime64(6,'Europe/Paris')"
    );
    assert_eq!(
        Type::Enum8(vec![("a".to_string(), 1), ("b".to_string(), -2)]).to_string(),
        "Enum8(a=1,b=-2)"
    );
    assert_eq!(
        Type::Enum16(vec![("x".to_string(), -32768), ("y".to_string(), 300)]).to_string(),
        "Enum16(x=-32768,y=300)"
    );
    assert_eq!(Type::Enum8(vec![]).to_string(), "Enum8()");
    assert_eq!(
        Type::Mapping(Box::new(Type::String), Box::new(Type::Array(Box::new(Type::Int64))))
            .to_string(),
        "Map(String,Array(Int64))"
    );
    assert_eq!(
        Type::Tuple(vec![Type::UInt8, Type::String, Type::Nullable(Box::new(Type::Date))])
            .to_string(),
        "Tuple(UInt8,String,Nullable(Date))"
    );
    assert_eq!(Type::Tuple(vec![]).to_string(), "Tuple()");
    assert_eq!(
        Type::LowCardinality(Box::new(Type::Nullable(Box::new(Type::String)))).to_string(),
        "LowCardinality(Nullable(String))"
    );
}

#[test]
fn printing_then_parsing_gives_the_type_back() {
    let types = vec![
        Type::Int8,
        Type::UInt256,
        Type::Float64,
        Type::Decimal32(9),
        Type::Decimal64(18),
        Type::Decimal256(76),
        Type::FixedString(0),
        Type::FixedString(usize::MAX),
        Type::DateTime(Tz::utc()),
        Type::DateTime(tz("Etc/GMT+5")),
        Type::DateTime64(3, tz("America/Argentina/Buenos_Aires")),
        Type::Array(Box::new(Type::Array(Box::new(Type::Nullable(Box::new(Type::String)))))),
        Type::Tuple(vec![]),
        Type::Tuple(vec![Type::Tuple(vec![Type::Int8, Type::Int16]), Type::Uuid]),
        Type::Mapping(
            Box::new(Type::LowCardinality(Box::new(Type::String))),
            Box::new(Type::Tuple(vec![Type::DateTime64(1, tz("Asia/Tokyo")), Type::Ipv6])),
        ),
    ];
    for t in types {
        assert_eq!(Type::from_str(&t.to_string()).unwrap(), t);
    }
}

#[test]
fn validation_rejects() {
    let int8 = || Box::new(Type::Int8);
    let rejected = vec![
        Type::Nullable(Box::new(Type::Array(int8()))),
        Type::Nullable(Box::new(Type::Nullable(int8()))),
        Type::Array(Box::new(Type::Array(Box::new(Type::Array(int8()))))),
        Type::LowCardinality(Box::new(Type::Array(int8()))),
        Type::Mapping(Box::new(Type::Float32), int8()),
        Type::Decimal32(0),
        Type::Decimal32(10),
    ];
    for t in rejected {
        assert_eq!(t.validate(0).unwrap_err().kind(), ErrorKind::InvalidType);
    }
}

#[test]
fn validation_bounds() {
    assert!(Type::Decimal32(1).validate(0).is_ok());
    assert!(Type::Decimal32(9).validate(0).is_ok());
    assert!(Type::Decimal64(18).validate(0).is_ok());
    assert!(Type::Decimal64(19).validate(0).is_err());
    assert!(Type::Decimal64(0).validate(0).is_err());
    assert!(Type::DateTime64(18, Tz::utc()).validate(0).is_ok());
    assert!(Type::DateTime64(19, Tz::utc()).validate(0).is_err());
    assert!(Type::DateTime64(0, Tz::utc()).validate(0).is_err());
    assert!(Type::Decimal128(38).validate(0).is_ok());
    assert!(Type::Decimal128(39).validate(0).is_err());
    assert!(Type::Decimal256(10).validate(0).is_ok());
    assert!(Type::Decimal256(76).validate(0).is_ok());
    assert!(Type::Decimal256(77).validate(0).is_err());
    assert!(Type::Decimal256(0).validate(0).is_err());
}

#[test]
fn validation_of_containers() {
    let string = || Box::new(Type::String);
    assert!(Type::Array(Box::new(Type::Array(string()))).validate(0).is_ok());
    assert!(Type::Array(string()).validate(1).is_ok());
    assert!(Type::Array(string()).validate(2).is_err());
    assert!(Type::Mapping(string(), Box::new(Type::Array(string()))).validate(0).is_ok());
    assert!(Type::Mapping(string(), Box::new(Type::Array(Box::new(Type::Array(string())))))
        .validate(0)
        .is_err());
    assert!(Type::Mapping(string(), Box::new(Type::Date)).validate(0).is_err());
    assert!(Type::Mapping(Box::new(Type::FixedString(2)), Box::new(Type::UInt256))
        .validate(0)
        .is_ok());
    assert!(Type::Mapping(string(), string()).validate(2).is_err());
    assert!(Type::LowCardinality(Box::new(Type::Nullable(string()))).validate(0).is_ok());
    assert!(Type::LowCardinality(Box::new(Type::DateTime(Tz::utc()))).validate(0).is_ok());
    assert!(Type::LowCardinality(Box::new(Type::Float32)).validate(0).is_err());
    assert!(Type::LowCardinality(Box::new(Type::Uuid)).validate(0).is_err());
    assert!(Type::LowCardinality(Box::new(Type::Nullable(Box::new(Type::Decimal32(3)))))
        .validate(0)
        .is_err());
    assert!(Type::Nullable(Box::new(Type::Tuple(vec![]))).validate(0).is_err());
    assert!(Type::Nullable(Box::new(Type::Mapping(string(), string()))).validate(0).is_err());
    assert!(Type::Nullable(Box::new(Type::LowCardinality(string()))).validate(0).is_err());
    assert!(Type::Nullable(Box::new(Type::Decimal32(10))).validate(0).is_err());
    assert!(Type::Tuple(vec![Type::Int8, Type::Decimal32(0)]).validate(0).is_err());
    assert!(Type::Tuple(vec![Type::Int8, Type::Array(string())]).validate(1).is_ok());
    assert!(Type::Tuple(vec![Type::Int8, Type::Array(string())]).validate(2).is_err());
    assert!(Type::Enum8(vec![]).validate(0).is_ok());
}

#[test]
fn valid_types_have_valid_parts() {
    let t = Type::Mapping(
        Box::new(Type::String),
        Box::new(Type::Array(Box::new(Type::Nullable(Box::new(Type::Decimal64(5)))))),
    );
    assert!(t.validate(0).is_ok());
    let (key, value) = t.unwrap_map();
    assert!(key.validate(0).is_ok());
    assert!(value.validate(0).is_ok());
    let member = value.unwrap_array();
    assert!(member.validate(0).is_ok());
    assert!(member.strip_null().validate(0).is_ok());
}

#[test]
fn accessors() {
    let t = Type::Array(Box::new(Type::Nullable(Box::new(Type::Int8))));
    assert_eq!(t.unwrap_array(), &Type::Nullable(Box::new(Type::Int8)));
    assert!(t.unwrap_array().is_nullable());
    assert!(!t.is_nullable());
    assert_eq!(t.unwrap_array().strip_null(), &Type::Int8);
    assert_eq!(t.strip_null(), &t);
    let lc = Type::LowCardinality(Box::new(Type::String));
    assert_eq!(lc.strip_low_cardinality(), &Type::String);
    assert_eq!(Type::String.strip_low_cardinality(), &Type::String);
    let tuple = Type::Tuple(vec![Type::Int8, Type::String]);
    assert_eq!(tuple.unwrap_tuple(), &[Type::Int8, Type::String][..]);
    let map = Type::Mapping(Box::new(Type::String), Box::new(Type::Int8));
    assert_eq!(map.unwrap_map(), (&Type::String, &Type::Int8));
    assert_eq!(t.clone(), t);
    assert_eq!(
        Type::Enum8(vec![("a".to_string(), 1)]).clone(),
        Type::Enum8(vec![("a".to_string(), 1)])
    );
    assert!(Type::Int256.is_integer());
    assert!(!Type::Float32.is_integer());
    assert!(Type::FixedString(3).is_text());
    assert!(tuple.is_composite());
    assert!(!Type::Date.is_composite());
}

#[test]
fn standard_traits_for_text() {
    let t: Type = "Array(Nullable(Int8))".parse().unwrap();
    assert_eq!(t, Type::Array(Box::new(Type::Nullable(Box::new(Type::Int8)))));
    assert_eq!(ToString::to_string(&t), "Array(Nullable(Int8))");
    assert_eq!(<Type as FromStr>::from_str("Int8").unwrap(), Type::Int8);
    assert_eq!("Bogus".parse::<Type>().unwrap_err().kind(), ErrorKind::BadType);
}

#[test]
fn types_compare() {
    let types = vec![
        Type::Int8,
        Type::UInt8,
        Type::Decimal32(1),
        Type::Decimal32(2),
        Type::Decimal64(1),
        Type::FixedString(1),
        Type::String,
        Type::DateTime(Tz::utc()),
        Type::DateTime(tz("Asia/Tokyo")),
        Type::DateTime64(1, Tz::utc()),
        Type::DateTime64(2, Tz::utc()),
        Type::DateTime64(1, tz("Asia/Tokyo")),
        Type::Enum8(vec![]),
        Type::Enum8(vec![("a".to_string(), 1)]),
        Type::Enum8(vec![("a".to_string(), 2)]),
        Type::Enum8(vec![("b".to_string(), 1)]),
        Type::Enum16(vec![("a".to_string(), 1)]),
        Type::Enum16(vec![("a".to_string(), 1), ("b".to_string(), 2)]),
        Type::LowCardinality(Box::new(Type::String)),
        Type::Array(Box::new(Type::String)),
        Type::Array(Box::new(Type::Int8)),
        Type::Nullable(Box::new(Type::String)),
        Type::Tuple(vec![]),
        Type::Tuple(vec![Type::Int8]),
        Type::Tuple(vec![Type::Int8, Type::Int8]),
        Type::Tuple(vec![Type::Int8, Type::Int16]),
        Type::Mapping(Box::new(Type::String), Box::new(Type::Int8)),
        Type::Mapping(Box::new(Type::String), Box::new(Type::Int16)),
        Type::Mapping(Box::new(Type::Int8), Box::new(Type::Int8)),
    ];
    for (i, a) in types.iter().enumerate() {
        assert_eq!(&a.clone(), a);
        for (j, b) in types.iter().enumerate() {
            assert_eq!(a.same(b), i == j, "{:?} {:?}", a, b);
            assert_eq!(a == b, i == j);
        }
    }
}

#[test]
fn every_zone_of_the_database_is_a_zone() {
    assert!(chrono_tz::TZ_VARIANTS.len() > 500);
    for zone in chrono_tz::TZ_VARIANTS.iter() {
        let tz = Tz::from_name(zone.name()).unwrap();
        assert_eq!(tz.name(), zone.name());
        let t = Type::DateTime64(3, tz);
        assert_eq!(Type::from_str(&t.to_string()).unwrap(), t);
    }
}

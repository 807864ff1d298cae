//! The rules of composition of types, and the conformance of values to
//! types.

use crate::errors::{Error, ErrorKind};
use crate::types::{SpecType, Type};
use crate::values::{SpecValue, Value};
use vstd::prelude::*;

verus! {

broadcast use vstd::std_specs::vec::axiom_vec_index_decreases;

/// The types that a `LowCardinality` may hold, under at most one `Nullable`.
pub open spec fn low_cardinality_admits(t: SpecType) -> bool {
    t.is_text() || t is Date || t is DateTime || t is Ipv4 || t is Ipv6 || t.is_integer()
}

/// The types that may be the key of a map.
pub open spec fn map_key_admits(t: SpecType) -> bool {
    t.is_text() || t.is_integer()
}

/// The types that may be the value of a map.
pub open spec fn map_value_admits(t: SpecType) -> bool {
    t.is_text() || t.is_integer() || t is Array
}

/// Whether a type obeys the rules of composition, seen from inside
/// `dimensions` levels of arrays and maps.
pub open spec fn valid(t: SpecType, dimensions: nat) -> bool
    decreases t,
{
    match t {
        SpecType::Decimal32(p) => 1 <= p <= 9,
        SpecType::Decimal64(p) => 1 <= p <= 18,
        SpecType::DateTime64(p, _) => 1 <= p <= 18,
        SpecType::Decimal128(p) => 1 <= p <= 38,
        SpecType::Decimal256(p) => 1 <= p <= 76,
        SpecType::LowCardinality(x) => low_cardinality_admits(x.strip_null()) && valid(
            *x,
            dimensions,
        ),
        SpecType::Array(x) => dimensions < 2 && valid(*x, dimensions + 1),
        SpecType::Tuple(ts) => forall|i: int|
            0 <= i < ts.len() ==> valid(#[trigger] ts[i], dimensions),
        SpecType::Nullable(x) => !x.is_composite() && valid(*x, dimensions),
        SpecType::Mapping(k, v) => {
            &&& dimensions < 2
            &&& map_key_admits(*k)
            &&& valid(*k, dimensions + 1)
            &&& map_value_admits(*v)
            &&& valid(*v, dimensions + 1)
        },
        _ => true,
    }
}

/// Whether the number `index` belongs to an entry of an `Enum8`.
pub open spec fn enum8_has(entries: Seq<(Seq<char>, i8)>, index: i8) -> bool {
    exists|i: int| 0 <= i < entries.len() && (#[trigger] entries[i]).1 == index
}

/// Whether the number `index` belongs to an entry of an `Enum16`.
pub open spec fn enum16_has(entries: Seq<(Seq<char>, i16)>, index: i16) -> bool {
    exists|i: int| 0 <= i < entries.len() && (#[trigger] entries[i]).1 == index
}

/// Whether the value `v` can be assigned to the type `t`: the variant is the
/// type's, a decimal's scale and a time's zone and precision are the type's,
/// an enumeration's number is one of its entries, `Nullable` admits `Null`
/// besides, and the members of a container conform one by one (of a tuple, as
/// far as types and values pair up).
pub open spec fn conforms(t: SpecType, v: SpecValue) -> bool
    decreases t,
{
    match t {
        SpecType::Int8 => v is Int8,
        SpecType::Int16 => v is Int16,
        SpecType::Int32 => v is Int32,
        SpecType::Int64 => v is Int64,
        SpecType::Int128 => v is Int128,
        SpecType::Int256 => v is Int256,
        SpecType::UInt8 => v is UInt8,
        SpecType::UInt16 => v is UInt16,
        SpecType::UInt32 => v is UInt32,
        SpecType::UInt64 => v is UInt64,
        SpecType::UInt128 => v is UInt128,
        SpecType::UInt256 => v is UInt256,
        SpecType::Float32 => v is Float32,
        SpecType::Float64 => v is Float64,
        SpecType::Decimal32(p) => v is Decimal32 && v->Decimal32_0 == p,
        SpecType::Decimal64(p) => v is Decimal64 && v->Decimal64_0 == p,
        SpecType::Decimal128(p) => v is Decimal128 && v->Decimal128_0 == p,
        SpecType::Decimal256(p) => v is Decimal256 && v->Decimal256_0 == p,
        SpecType::String => v is String,
        SpecType::FixedString(_) => v is String,
        SpecType::Uuid => v is Uuid,
        SpecType::Date => v is Date,
        SpecType::DateTime(tz) => v is DateTime && v->DateTime_0 == tz,
        SpecType::DateTime64(p, tz) => v is DateTime64 && v->DateTime64_0 == tz
            && v->DateTime64_1 == p,
        SpecType::Ipv4 => v is Ipv4,
        SpecType::Ipv6 => v is Ipv6,
        SpecType::Enum8(entries) => v is Enum8 && enum8_has(entries, v->Enum8_0),
        SpecType::Enum16(entries) => v is Enum16 && enum16_has(entries, v->Enum16_0),
        SpecType::LowCardinality(x) => conforms(*x, v),
        SpecType::Array(x) => v is Array && forall|i: int|
            0 <= i < v->Array_0.len() ==> conforms(*x, #[trigger] v->Array_0[i]),
        SpecType::Tuple(ts) => v is Tuple && forall|i: int|
            0 <= i < ts.len() && i < v->Tuple_0.len() ==> conforms(
                #[trigger] ts[i],
                v->Tuple_0[i],
            ),
        SpecType::Nullable(x) => v is Null || conforms(*x, v),
        SpecType::Mapping(k, x) => {
            &&& v is Mapping
            &&& forall|i: int|
                0 <= i < v->Mapping_0.len() ==> conforms(*k, #[trigger] v->Mapping_0[i])
            &&& forall|i: int|
                0 <= i < v->Mapping_1.len() ==> conforms(*x, #[trigger] v->Mapping_1[i])
        },
    }
}

/// Whether `part` is `t` itself or a type that occurs within `t`.
pub open spec fn is_part(part: SpecType, t: SpecType) -> bool
    decreases t,
{
    part == t || match t {
        SpecType::LowCardinality(x) => is_part(part, *x),
        SpecType::Array(x) => is_part(part, *x),
        SpecType::Nullable(x) => is_part(part, *x),
        SpecType::Tuple(ts) => exists|i: int| 0 <= i < ts.len() && is_part(part, #[trigger] ts[i]),
        SpecType::Mapping(k, v) => is_part(part, *k) || is_part(part, *v),
        _ => false,
    }
}

/// A type that is valid inside some number of arrays and maps is valid inside
/// fewer.
pub proof fn lemma_valid_shallower(t: SpecType, shallow: nat, deep: nat)
    requires
        valid(t, deep),
        shallow <= deep,
    ensures
        valid(t, shallow),
    decreases t,
{
    match t {
        SpecType::LowCardinality(x) => lemma_valid_shallower(*x, shallow, deep),
        SpecType::Array(x) => lemma_valid_shallower(*x, shallow + 1, deep + 1),
        SpecType::Nullable(x) => lemma_valid_shallower(*x, shallow, deep),
        SpecType::Tuple(ts) => {
            assert forall|i: int| 0 <= i < ts.len() implies valid(#[trigger] ts[i], shallow) by {
                lemma_valid_shallower(ts[i], shallow, deep);
            }
        },
        SpecType::Mapping(k, v) => {
            lemma_valid_shallower(*k, shallow + 1, deep + 1);
            lemma_valid_shallower(*v, shallow + 1, deep + 1);
        },
        _ => {},
    }
}

/// Validation is monotonic: every type that occurs within a valid type is
/// valid, at the depth of the whole and on its own.
pub proof fn lemma_valid_parts(part: SpecType, t: SpecType, dimensions: nat)
    requires
        valid(t, dimensions),
        is_part(part, t),
    ensures
        valid(part, dimensions),
        valid(part, 0),
    decreases t,
{
    if part != t {
        match t {
            SpecType::LowCardinality(x) => lemma_valid_parts(part, *x, dimensions),
            SpecType::Array(x) => {
                lemma_valid_parts(part, *x, dimensions + 1);
                lemma_valid_shallower(part, dimensions, dimensions + 1);
            },
            SpecType::Nullable(x) => lemma_valid_parts(part, *x, dimensions),
            SpecType::Tuple(ts) => {
                let i = choose|i: int| 0 <= i < ts.len() && is_part(part, #[trigger] ts[i]);
                lemma_valid_parts(part, ts[i], dimensions);
            },
            SpecType::Mapping(k, v) => {
                if is_part(part, *k) {
                    lemma_valid_parts(part, *k, dimensions + 1);
                } else {
                    lemma_valid_parts(part, *v, dimensions + 1);
                }
                lemma_valid_shallower(part, dimensions, dimensions + 1);
            },
            _ => {},
        }
    }
    lemma_valid_shallower(part, 0, dimensions);
}

fn invalid(message: &str) -> (e: Error)
    ensures
        e.kind == ErrorKind::InvalidType,
        e.message@ == message@,
{
    Error::new(ErrorKind::InvalidType, message)
}

impl Type {
    /// Signed and unsigned integers of every width.
    pub fn is_integer(&self) -> (b: bool)
        ensures
            b == self@.is_integer(),
    {
        match self {
            Type::Int8
            | Type::Int16
            | Type::Int32
            | Type::Int64
            | Type::Int128
            | Type::Int256
            | Type::UInt8
            | Type::UInt16
            | Type::UInt32
            | Type::UInt64
            | Type::UInt128
            | Type::UInt256 => true,
            _ => false,
        }
    }

    /// `String` and `FixedString(n)`.
    pub fn is_text(&self) -> (b: bool)
        ensures
            b == self@.is_text(),
    {
        match self {
            Type::String | Type::FixedString(_) => true,
            _ => false,
        }
    }

    /// The container constructors.
    pub fn is_composite(&self) -> (b: bool)
        ensures
            b == self@.is_composite(),
    {
        match self {
            Type::Array(_)
            | Type::Mapping(_, _)
            | Type::LowCardinality(_)
            | Type::Tuple(_)
            | Type::Nullable(_) => true,
            _ => false,
        }
    }

    fn low_cardinality_admits(&self) -> (b: bool)
        ensures
            b == low_cardinality_admits(self@),
    {
        self.is_text() || self.is_integer() || match self {
            Type::Date | Type::DateTime(_) | Type::Ipv4 | Type::Ipv6 => true,
            _ => false,
        }
    }

    /// Checks the rules of composition, as seen from inside `dimensions`
    /// levels of arrays and maps.
    ///
    /// Fails with `InvalidType` exactly on the types that break a rule:
    /// a scale or precision out of bounds, more than two levels of arrays
    /// and maps, a composite under `Nullable`, a type under
    /// `LowCardinality` or in a map that may not stand there.
    pub fn validate(&self, dimensions: usize) -> (r: Result<(), Error>)
        ensures
            r is Ok <==> valid(self@, dimensions as nat),
            r matches Err(e) ==> e.kind == ErrorKind::InvalidType,
        decreases self,
    {
        match self {
            Type::Decimal32(precision) => {
                if *precision == 0 || *precision > 9 {
                    return Err(invalid("precision out of bounds for Decimal32, must be in 1..=9"));
                }
            },
            Type::DateTime64(precision, _) => {
                if *precision == 0 || *precision > 18 {
                    return Err(
                        invalid("precision out of bounds for DateTime64, must be in 1..=18"),
                    );
                }
            },
            Type::Decimal64(precision) => {
                if *precision == 0 || *precision > 18 {
                    return Err(invalid("precision out of bounds for Decimal64, must be in 1..=18"));
                }
            },
            Type::Decimal128(precision) => {
                if *precision == 0 || *precision > 38 {
                    return Err(
                        invalid("precision out of bounds for Decimal128, must be in 1..=38"),
                    );
                }
            },
            Type::Decimal256(precision) => {
                if *precision == 0 || *precision > 76 {
                    return Err(
                        invalid("precision out of bounds for Decimal256, must be in 1..=76"),
                    );
                }
            },
            Type::LowCardinality(inner) => {
                if !inner.strip_null().low_cardinality_admits() {
                    return Err(invalid("illegal type in LowCardinality"));
                }
                return inner.validate(dimensions);
            },
            Type::Array(inner) => {
                if dimensions >= 2 {
                    return Err(invalid("too many dimensions (limited to 2D structure)"));
                }
                return inner.validate(dimensions + 1);
            },
            Type::Tuple(inner) => {
                let mut i: usize = 0;
                while i < inner.len()
                    invariant
                        *self == Type::Tuple(*inner),
                        i <= inner.len(),
                        forall|j: int| 0 <= j < i ==> valid(#[trigger] inner[j]@, dimensions as nat),
                    decreases inner.len() - i,
                {
                    proof {
                        assert(decreases_to!(*self => self->Tuple_0));
                    }
                    match inner[i].validate(dimensions) {
                        Ok(()) => {},
                        Err(e) => {
                            assert(self@->Tuple_0[i as int] == inner[i as int]@);
                            return Err(e);
                        },
                    }
                    i += 1;
                }
                assert forall|j: int| 0 <= j < self@->Tuple_0.len() implies valid(
                    #[trigger] self@->Tuple_0[j],
                    dimensions as nat,
                ) by {
                    assert(self@->Tuple_0[j] == inner[j]@);
                }
            },
            Type::Nullable(inner) => {
                if inner.is_composite() {
                    return Err(invalid("nullable cannot contain composite type"));
                }
                return inner.validate(dimensions);
            },
            Type::Mapping(key, value) => {
                if dimensions >= 2 {
                    return Err(invalid("too many dimensions (limited to 2D structure)"));
                }
                if !(key.is_text() || key.is_integer()) {
                    return Err(invalid("key in map must be String, FixedString(n), or integer"));
                }
                match key.validate(dimensions + 1) {
                    Ok(()) => {},
                    Err(e) => { return Err(e); },
                }
                if !(value.is_text() || value.is_integer() || matches!(&**value, Type::Array(_))) {
                    return Err(
                        invalid(
                            "value in map must be String, FixedString(n), integer, or array",
                        ),
                    );
                }
                return value.validate(dimensions + 1);
            },
            _ => {},
        }
        Ok(())
    }

    /// Checks the type, then the value against it.
    ///
    /// Fails with `InvalidType` if the type breaks a rule of composition,
    /// else with `TypeMismatch` if the value does not conform to the type.
    pub fn validate_value(&self, value: &Value) -> (r: Result<(), Error>)
        ensures
            r is Ok <==> valid(self@, 0) && conforms(self@, value@),
            r matches Err(e) ==> e.kind == (if valid(self@, 0) {
                ErrorKind::TypeMismatch
            } else {
                ErrorKind::InvalidType
            }),
    {
        match self.validate(0) {
            Ok(()) => {},
            Err(e) => { return Err(e); },
        }
        if !self.inner_validate_value(value) {
            return Err(Error::new(ErrorKind::TypeMismatch, "could not assign value to type"));
        }
        Ok(())
    }

    /// Whether each value of `values` conforms to the type.
    fn all_conform(&self, values: &Vec<Value>) -> (b: bool)
        ensures
            b == forall|i: int|
                0 <= i < values.len() ==> conforms(
                    self@,
                    #[trigger] crate::values::value_models(values@)[i],
                ),
        decreases self, 1nat,
    {
        let ghost vs = crate::values::value_models(values@);
        let mut i: usize = 0;
        while i < values.len()
            invariant
                i <= values.len(),
                vs == crate::values::value_models(values@),
                forall|j: int| 0 <= j < i ==> conforms(self@, #[trigger] vs[j]),
            decreases values.len() - i,
        {
            assert(vs[i as int] == values[i as int]@);
            if !self.inner_validate_value(&values[i]) {
                return false;
            }
            i += 1;
        }
        true
    }

    /// Whether the value conforms to the type, the type's own validity aside.
    pub fn inner_validate_value(&self, value: &Value) -> (b: bool)
        ensures
            b == conforms(self@, value@),
        decreases self, 0nat,
    {
        match (self, value) {
            (Type::Int8, Value::Int8(_))
            | (Type::Int16, Value::Int16(_))
            | (Type::Int32, Value::Int32(_))
            | (Type::Int64, Value::Int64(_))
            | (Type::Int128, Value::Int128(_))
            | (Type::Int256, Value::Int256(_))
            | (Type::UInt8, Value::UInt8(_))
            | (Type::UInt16, Value::UInt16(_))
            | (Type::UInt32, Value::UInt32(_))
            | (Type::UInt64, Value::UInt64(_))
            | (Type::UInt128, Value::UInt128(_))
            | (Type::UInt256, Value::UInt256(_))
            | (Type::Float32, Value::Float32(_))
            | (Type::Float64, Value::Float64(_)) => true,
            (Type::Decimal32(precision1), Value::Decimal32(precision2, _)) => *precision1
                == *precision2,
            (Type::Decimal64(precision1), Value::Decimal64(precision2, _)) => *precision1
                == *precision2,
            (Type::Decimal128(precision1), Value::Decimal128(precision2, _)) => *precision1
                == *precision2,
            (Type::Decimal256(precision1), Value::Decimal256(precision2, _)) => *precision1
                == *precision2,
            (Type::String, Value::String(_))
            | (Type::FixedString(_), Value::String(_))
            | (Type::Uuid, Value::Uuid(_))
            | (Type::Date, Value::Date(_)) => true,
            (Type::DateTime(tz1), Value::DateTime(date)) => tz1.same_zone(&date.0),
            (Type::DateTime64(precision1, tz1), Value::DateTime64(tz2, precision2, _)) => {
                tz1.same_zone(tz2) && *precision1 == *precision2
            },
            (Type::Ipv4, Value::Ipv4(_)) | (Type::Ipv6, Value::Ipv6(_)) => true,
            (Type::Enum8(entries), Value::Enum8(index)) => {
                let ghost models = crate::types::enum8_models(entries@);
                let mut i: usize = 0;
                while i < entries.len()
                    invariant
                        i <= entries.len(),
                        models == crate::types::enum8_models(entries@),
                        self@ == SpecType::Enum8(models),
                        value@ == SpecValue::Enum8(*index),
                        forall|j: int| 0 <= j < i ==> (#[trigger] models[j]).1 != *index,
                    decreases entries.len() - i,
                {
                    if entries[i].1 == *index {
                        assert(models[i as int].1 == *index);
                        return true;
                    }
                    i += 1;
                }
                false
            },
            (Type::Enum16(entries), Value::Enum16(index)) => {
                let ghost models = crate::types::enum16_models(entries@);
                let mut i: usize = 0;
                while i < entries.len()
                    invariant
                        i <= entries.len(),
                        models == crate::types::enum16_models(entries@),
                        self@ == SpecType::Enum16(models),
                        value@ == SpecValue::Enum16(*index),
                        forall|j: int| 0 <= j < i ==> (#[trigger] models[j]).1 != *index,
                    decreases entries.len() - i,
                {
                    if entries[i].1 == *index {
                        assert(models[i as int].1 == *index);
                        return true;
                    }
                    i += 1;
                }
                false
            },
            (Type::LowCardinality(x), value) => x.inner_validate_value(value),
            (Type::Array(inner_type), Value::Array(values)) => {
                proof {
                    crate::values::lemma_container_models(*values, *values);
                    assert(value@->Array_0 == crate::values::value_models(values@));
                }
                inner_type.all_conform(values)
            },
            (Type::Tuple(inner_types), Value::Tuple(values)) => {
                proof {
                    crate::values::lemma_container_models(*values, *values);
                    crate::types::lemma_tuple_model(*inner_types);
                }
                let ghost ts = crate::types::type_models(inner_types@);
                let ghost vs = crate::values::value_models(values@);
                let mut i: usize = 0;
                while i < inner_types.len() && i < values.len()
                    invariant
                        *self == Type::Tuple(*inner_types),
                        ts == crate::types::type_models(inner_types@),
                        vs == crate::values::value_models(values@),
                        self@ == SpecType::Tuple(ts),
                        value@ == SpecValue::Tuple(vs),
                        forall|j: int|
                            0 <= j < i ==> j < ts.len() && j < vs.len() && conforms(
                                #[trigger] ts[j],
                                vs[j],
                            ),
                    decreases inner_types.len() - i,
                {
                    proof {
                        assert(decreases_to!(*self => self->Tuple_0));
                        assert(ts[i as int] == inner_types[i as int]@);
                        assert(vs[i as int] == values[i as int]@);
                    }
                    if !inner_types[i].inner_validate_value(&values[i]) {
                        assert(self@->Tuple_0[i as int] == ts[i as int]);
                        assert(value@->Tuple_0[i as int] == vs[i as int]);
                        return false;
                    }
                    i += 1;
                }
                assert(self@->Tuple_0 == ts && value@->Tuple_0 == vs);
                true
            },
            (Type::Nullable(inner), value) => {
                matches!(value, Value::Null) || inner.inner_validate_value(value)
            },
            (Type::Mapping(key_type, value_type), Value::Mapping(keys, values)) => {
                proof {
                    crate::values::lemma_container_models(*keys, *values);
                    assert(value@->Mapping_0 == crate::values::value_models(keys@));
                    assert(value@->Mapping_1 == crate::values::value_models(values@));
                }
                key_type.all_conform(keys) && value_type.all_conform(values)
            },
            (_, _) => false,
        }
    }
}

} // verus!

//! The value that stands in for a missing value of a type.

use crate::types::{SpecType, Type};
use crate::values::{i256, u256, zeros, Date, DateTime, Ipv4, Ipv6, SpecValue, Uuid, Value};
use vstd::prelude::*;

verus! {

broadcast use vstd::std_specs::vec::axiom_vec_index_decreases;

/// The value that stands in for a missing value of type `t`: zero, the empty
/// string, the empty container, `Null` for a nullable type, and member by
/// member for a tuple.
pub open spec fn default_of(t: SpecType) -> SpecValue
    decreases t,
{
    match t {
        SpecType::Int8 => SpecValue::Int8(0),
        SpecType::Int16 => SpecValue::Int16(0),
        SpecType::Int32 => SpecValue::Int32(0),
        SpecType::Int64 => SpecValue::Int64(0),
        SpecType::Int128 => SpecValue::Int128(0),
        SpecType::Int256 => SpecValue::Int256(zeros(32)),
        SpecType::UInt8 => SpecValue::UInt8(0),
        SpecType::UInt16 => SpecValue::UInt16(0),
        SpecType::UInt32 => SpecValue::UInt32(0),
        SpecType::UInt64 => SpecValue::UInt64(0),
        SpecType::UInt128 => SpecValue::UInt128(0),
        SpecType::UInt256 => SpecValue::UInt256(zeros(32)),
        SpecType::Float32 => SpecValue::Float32(0),
        SpecType::Float64 => SpecValue::Float64(0),
        SpecType::Decimal32(s) => SpecValue::Decimal32(s, 0),
        SpecType::Decimal64(s) => SpecValue::Decimal64(s, 0),
        SpecType::Decimal128(s) => SpecValue::Decimal128(s, 0),
        SpecType::Decimal256(s) => SpecValue::Decimal256(s, zeros(32)),
        SpecType::String => SpecValue::String(Seq::empty()),
        SpecType::FixedString(_) => SpecValue::String(Seq::empty()),
        SpecType::Uuid => SpecValue::Uuid(Uuid(0)),
        SpecType::Date => SpecValue::Date(Date(0)),
        SpecType::DateTime(tz) => SpecValue::DateTime(tz, 0),
        SpecType::DateTime64(p, tz) => SpecValue::DateTime64(tz, p, 0),
        SpecType::Ipv4 => SpecValue::Ipv4(Ipv4(0)),
        SpecType::Ipv6 => SpecValue::Ipv6(zeros(16)),
        SpecType::Enum8(_) => SpecValue::Enum8(0),
        SpecType::Enum16(_) => SpecValue::Enum16(0),
        SpecType::LowCardinality(x) => default_of(*x),
        SpecType::Array(_) => SpecValue::Array(Seq::empty()),
        SpecType::Tuple(ts) => SpecValue::Tuple(
            Seq::new(
                ts.len(),
                |i: int|
                    if 0 <= i < ts.len() {
                        default_of(ts[i])
                    } else {
                        SpecValue::Null
                    },
            ),
        ),
        SpecType::Nullable(_) => SpecValue::Null,
        SpecType::Mapping(_, _) => SpecValue::Mapping(Seq::empty(), Seq::empty()),
    }
}

impl Type {
    /// The value that stands in for a missing value of this type.
    pub fn default_value(&self) -> (v: Value)
        ensures
            v@ == default_of(self@),
        decreases self,
    {
        match self {
            Type::Int8 => Value::Int8(0),
            Type::Int16 => Value::Int16(0),
            Type::Int32 => Value::Int32(0),
            Type::Int64 => Value::Int64(0),
            Type::Int128 => Value::Int128(0),
            Type::Int256 => Value::Int256(i256::default()),
            Type::UInt8 => Value::UInt8(0),
            Type::UInt16 => Value::UInt16(0),
            Type::UInt32 => Value::UInt32(0),
            Type::UInt64 => Value::UInt64(0),
            Type::UInt128 => Value::UInt128(0),
            Type::UInt256 => Value::UInt256(u256::default()),
            Type::Float32 => Value::Float32(0),
            Type::Float64 => Value::Float64(0),
            Type::Decimal32(s) => Value::Decimal32(*s, 0),
            Type::Decimal64(s) => Value::Decimal64(*s, 0),
            Type::Decimal128(s) => Value::Decimal128(*s, 0),
            Type::Decimal256(s) => Value::Decimal256(*s, i256::default()),
            Type::String => {
                let v = Value::String(String::new());
                assert(v@->String_0 =~= Seq::<char>::empty());
                v
            },
            Type::FixedString(_) => {
                let v = Value::String(String::new());
                assert(v@->String_0 =~= Seq::<char>::empty());
                v
            },
            Type::Uuid => Value::Uuid(Uuid::from_u128(0)),
            Type::Date => Value::Date(Date(0)),
            Type::DateTime(tz) => Value::DateTime(DateTime(tz.clone(), 0)),
            Type::DateTime64(precision, tz) => Value::DateTime64(tz.clone(), *precision, 0),
            Type::Ipv4 => Value::Ipv4(Ipv4::default()),
            Type::Ipv6 => Value::Ipv6(Ipv6::default()),
            Type::Enum8(_) => Value::Enum8(0),
            Type::Enum16(_) => Value::Enum16(0),
            Type::LowCardinality(x) => x.default_value(),
            Type::Array(_) => {
                let v = Value::Array(Vec::new());
                assert(v@->Array_0 =~= Seq::<SpecValue>::empty());
                v
            },
            Type::Tuple(types) => {
                let mut out: Vec<Value> = Vec::new();
                let mut i: usize = 0;
                while i < types.len()
                    invariant
                        *self == Type::Tuple(*types),
                        i <= types.len(),
                        out.len() == i,
                        forall|j: int| 0 <= j < i ==> (#[trigger] out[j])@ == default_of(types[j]@),
                    decreases types.len() - i,
                {
                    proof {
                        assert(decreases_to!(*self => self->Tuple_0));
                    }
                    out.push(types[i].default_value());
                    i += 1;
                }
                let v = Value::Tuple(out);
                assert(v@->Tuple_0 =~= default_of(self@)->Tuple_0);
                v
            },
            Type::Nullable(_) => Value::Null,
            Type::Mapping(_, _) => {
                let v = Value::Mapping(Vec::new(), Vec::new());
                assert(v@->Mapping_0 =~= Seq::<SpecValue>::empty());
                assert(v@->Mapping_1 =~= Seq::<SpecValue>::empty());
                v
            },
        }
    }
}

} // verus!

//! Writing columns: the strategies by kind of type, and the functions of a
//! type that choose among them.

use crate::errors::{Error, ErrorKind};
use crate::types::{SpecType, Type};
use crate::types::layout::{
    all_writable, column_bytes, fits_wire, prefix_bytes, value_bytes, writable,
};
use crate::values::{value_models, SpecValue, Value};
use vstd::prelude::*;

pub mod array;
pub mod mapping;
pub mod nullable;
pub mod sized;
pub mod strings;
pub mod tuple;

verus! {

broadcast use vstd::std_specs::vec::axiom_vec_index_decreases;

/// The state that a connection keeps while it writes columns. It holds
/// nothing yet: each column announces what it needs.
#[derive(Debug, Default)]
pub struct SerializerState {}

fn mismatch(message: &str) -> (e: Error)
    ensures
        e.kind == ErrorKind::TypeMismatch,
        e.message@ == message@,
{
    Error::new(ErrorKind::TypeMismatch, message)
}

/// A column of one value is the value's own bytes.
pub proof fn lemma_single_scalar(t: SpecType, v: SpecValue)
    requires
        !t.is_composite(),
    ensures
        value_bytes(t, v) == crate::types::layout::scalar_bytes(t, v),
{
    let one = seq![v];
    assert(one.drop_last() =~= Seq::<SpecValue>::empty());
    assert(one.last() == v);
    assert(crate::types::layout::scalars_bytes(t, one.drop_last()) =~= Seq::<u8>::empty());
    assert(crate::types::layout::scalars_bytes(t, one) =~= crate::types::layout::scalar_bytes(
        t,
        v,
    ));
}

impl Type {
    /// Whether each of `values` has the shape that the type's wire form takes.
    fn all_serializable(&self, values: &Vec<Value>) -> (b: bool)
        ensures
            b == all_writable(self@, value_models(values@)),
        decreases self, 1nat,
    {
        let ghost models = value_models(values@);
        let mut i: usize = 0;
        while i < values.len()
            invariant
                i <= values.len(),
                models == value_models(values@),
                forall|j: int| 0 <= j < i ==> writable(self@, #[trigger] models[j]),
            decreases values.len() - i,
        {
            assert(models[i as int] == values[i as int]@);
            if !self.can_serialize(&values[i]) {
                return false;
            }
            i += 1;
        }
        true
    }

    /// Whether `value` has the shape that the type's wire form takes.
    pub fn can_serialize(&self, value: &Value) -> (b: bool)
        ensures
            b == writable(self@, value@),
        decreases self, 0nat,
    {
        match self {
            Type::Int8 => matches!(value, Value::Int8(_)),
            Type::Int16 => matches!(value, Value::Int16(_)),
            Type::Int32 => matches!(value, Value::Int32(_)),
            Type::Int64 => matches!(value, Value::Int64(_)),
            Type::Int128 => matches!(value, Value::Int128(_)),
            Type::UInt8 => matches!(value, Value::UInt8(_)),
            Type::UInt16 => matches!(value, Value::UInt16(_)),
            Type::UInt32 => matches!(value, Value::UInt32(_)),
            Type::UInt64 => matches!(value, Value::UInt64(_)),
            Type::UInt128 => matches!(value, Value::UInt128(_)),
            Type::Float32 => matches!(value, Value::Float32(_)),
            Type::Float64 => matches!(value, Value::Float64(_)),
            Type::Uuid => matches!(value, Value::Uuid(_)),
            Type::Date => matches!(value, Value::Date(_)),
            Type::Ipv4 => matches!(value, Value::Ipv4(_)),
            Type::Int256 => matches!(value, Value::Int256(_)),
            Type::UInt256 => matches!(value, Value::UInt256(_)),
            Type::Decimal32(_) => matches!(value, Value::Decimal32(_, _)),
            Type::Decimal64(_) => matches!(value, Value::Decimal64(_, _)),
            Type::Decimal128(_) => matches!(value, Value::Decimal128(_, _)),
            Type::Decimal256(_) => matches!(value, Value::Decimal256(_, _)),
            Type::String => matches!(value, Value::String(_)),
            Type::FixedString(n) => match value {
                Value::String(s) => s.as_str().as_bytes().len() <= *n,
                _ => false,
            },
            Type::DateTime(_) => matches!(value, Value::DateTime(_)),
            Type::DateTime64(_, _) => matches!(value, Value::DateTime64(_, _, _)),
            Type::Ipv6 => matches!(value, Value::Ipv6(_)),
            Type::Enum8(_) => matches!(value, Value::Enum8(_)),
            Type::Enum16(_) => matches!(value, Value::Enum16(_)),
            Type::LowCardinality(x) => x.can_serialize(value),
            Type::Array(x) => match value {
                Value::Array(members) => {
                    proof {
                        crate::values::lemma_container_models(*members, *members);
                        assert(value@->Array_0 == value_models(members@));
                    }
                    x.all_serializable(members)
                },
                _ => false,
            },
            Type::Tuple(types) => match value {
                Value::Tuple(members) => {
                    proof {
                        crate::values::lemma_container_models(*members, *members);
                        crate::types::lemma_tuple_model(*types);
                        assert(value@->Tuple_0 == value_models(members@));
                        assert(self@->Tuple_0 == crate::types::type_models(types@));
                    }
                    if members.len() != types.len() {
                        return false;
                    }
                    let ghost ts = crate::types::type_models(types@);
                    let ghost vs = value_models(members@);
                    let mut i: usize = 0;
                    while i < types.len()
                        invariant
                            *self == Type::Tuple(*types),
                            i <= types.len(),
                            members.len() == types.len(),
                            ts == crate::types::type_models(types@),
                            vs == value_models(members@),
                            self@ == SpecType::Tuple(ts),
                            value@ == SpecValue::Tuple(vs),
                            forall|j: int| 0 <= j < i ==> writable(#[trigger] ts[j], vs[j]),
                        decreases types.len() - i,
                    {
                        proof {
                            assert(decreases_to!(*self => self->Tuple_0));
                            assert(ts[i as int] == types[i as int]@);
                            assert(vs[i as int] == members[i as int]@);
                        }
                        if !types[i].can_serialize(&members[i]) {
                            assert(self@->Tuple_0[i as int] == ts[i as int]);
                            assert(value@->Tuple_0[i as int] == vs[i as int]);
                            return false;
                        }
                        i += 1;
                    }
                    assert(self@->Tuple_0 == ts && value@->Tuple_0 == vs);
                    true
                },
                _ => false,
            },
            Type::Nullable(x) => matches!(value, Value::Null) || x.can_serialize(value),
            Type::Mapping(key_type, value_type) => match value {
                Value::Mapping(keys, values) => {
                    proof {
                        crate::values::lemma_container_models(*keys, *values);
                        assert(value@->Mapping_0 == value_models(keys@));
                        assert(value@->Mapping_1 == value_models(values@));
                    }
                    keys.len() == values.len() && key_type.all_serializable(keys)
                        && value_type.all_serializable(values)
                },
                _ => false,
            },
        }
    }

    /// Appends what stands before the body of a column of this type: the
    /// version tag of each `LowCardinality` in it.
    pub fn write_prefix(&self, out: &mut Vec<u8>, state: &mut SerializerState)
        ensures
            final(out)@ == old(out)@ + prefix_bytes(self@),
            *final(state) == *old(state),
        decreases self, 1nat, 0nat,
    {
        match self {
            Type::Int8
            | Type::Int16
            | Type::Int32
            | Type::Int64
            | Type::Int128
            | Type::Int256
            | Type::UInt8
            | Type::UInt16
            | Type::UInt32
            | Type::UInt64
            | Type::UInt128
            | Type::UInt256
            | Type::Float32
            | Type::Float64
            | Type::Decimal32(_)
            | Type::Decimal64(_)
            | Type::Decimal128(_)
            | Type::Decimal256(_)
            | Type::Uuid
            | Type::Date
            | Type::DateTime(_)
            | Type::DateTime64(_, _)
            | Type::Ipv4
            | Type::Ipv6
            | Type::Enum8(_)
            | Type::Enum16(_) => sized::write_prefix(self, out, state),
            Type::String | Type::FixedString(_) => strings::write_prefix(self, out, state),
            Type::Array(_) => array::write_prefix(self, out, state),
            Type::Tuple(_) => tuple::write_prefix(self, out, state),
            Type::Nullable(_) => nullable::write_prefix(self, out, state),
            Type::Mapping(_, _) => mapping::write_prefix(self, out, state),
            Type::LowCardinality(_) => crate::types::low_cardinality::write_prefix(
                self,
                out,
                state,
            ),
        }
    }

    /// Appends the bytes of a column whose values have the shape of the
    /// type's wire form.
    pub fn write_column(&self, values: &[Value], out: &mut Vec<u8>, state: &mut SerializerState)
        requires
            all_writable(self@, value_models(values@)),
        ensures
            final(out)@ == old(out)@ + column_bytes(self@, value_models(values@)),
            fits_wire(self@, value_models(values@)),
            *final(state) == *old(state),
        decreases self, 1nat, 0nat,
    {
        match self {
            Type::Int8
            | Type::Int16
            | Type::Int32
            | Type::Int64
            | Type::Int128
            | Type::Int256
            | Type::UInt8
            | Type::UInt16
            | Type::UInt32
            | Type::UInt64
            | Type::UInt128
            | Type::UInt256
            | Type::Float32
            | Type::Float64
            | Type::Decimal32(_)
            | Type::Decimal64(_)
            | Type::Decimal128(_)
            | Type::Decimal256(_)
            | Type::Uuid
            | Type::Date
            | Type::DateTime(_)
            | Type::DateTime64(_, _)
            | Type::Ipv4
            | Type::Ipv6
            | Type::Enum8(_)
            | Type::Enum16(_) => sized::write_n(self, values, out, state),
            Type::String | Type::FixedString(_) => strings::write_n(self, values, out, state),
            Type::Array(_) => array::write_n(self, values, out, state),
            Type::Tuple(_) => tuple::write_n(self, values, out, state),
            Type::Nullable(_) => nullable::write_n(self, values, out, state),
            Type::Mapping(_, _) => mapping::write_n(self, values, out, state),
            Type::LowCardinality(_) => crate::types::low_cardinality::write_n(
                self,
                values,
                out,
                state,
            ),
        }
    }

    /// Appends the bytes of one value that has the shape of the type's wire
    /// form, as a column of one row.
    pub fn write_value(&self, value: &Value, out: &mut Vec<u8>, state: &mut SerializerState)
        requires
            writable(self@, value@),
        ensures
            final(out)@ == old(out)@ + value_bytes(self@, value@),
            fits_wire(self@, seq![value@]),
            *final(state) == *old(state),
    {
        match self {
            Type::Int8
            | Type::Int16
            | Type::Int32
            | Type::Int64
            | Type::Int128
            | Type::Int256
            | Type::UInt8
            | Type::UInt16
            | Type::UInt32
            | Type::UInt64
            | Type::UInt128
            | Type::UInt256
            | Type::Float32
            | Type::Float64
            | Type::Decimal32(_)
            | Type::Decimal64(_)
            | Type::Decimal128(_)
            | Type::Decimal256(_)
            | Type::Uuid
            | Type::Date
            | Type::DateTime(_)
            | Type::DateTime64(_, _)
            | Type::Ipv4
            | Type::Ipv6
            | Type::Enum8(_)
            | Type::Enum16(_) => {
                proof {
                    lemma_single_scalar(self@, value@);
                }
                sized::write(value, out, state)
            },
            Type::String | Type::FixedString(_) => {
                proof {
                    lemma_single_scalar(self@, value@);
                }
                strings::write(self, value, out, state)
            },
            Type::Array(_) => array::write(self, value, out, state),
            Type::Tuple(_) => tuple::write(self, value, out, state),
            Type::Nullable(_) => nullable::write(self, value, out, state),
            Type::Mapping(_, _) => mapping::write(self, value, out, state),
            Type::LowCardinality(_) => crate::types::low_cardinality::write(
                self,
                value,
                out,
                state,
            ),
        }
    }

    /// Writes what stands before the body of a column of this type: the
    /// version tag of each `LowCardinality` in it. Always succeeds.
    pub fn serialize_prefix(&self, out: &mut Vec<u8>, state: &mut SerializerState) -> (r: Result<
        (),
        Error,
    >)
        ensures
            r is Ok,
            final(out)@ == old(out)@ + prefix_bytes(self@),
            *final(state) == *old(state),
    {
        self.write_prefix(out, state);
        Ok(())
    }

    /// Writes the body of a column.
    ///
    /// Succeeds exactly when every value has the shape of the type's wire
    /// form, and then appends the column's bytes. Fails with `TypeMismatch`
    /// otherwise, and then writes nothing.
    pub fn serialize_column(
        &self,
        values: &[Value],
        out: &mut Vec<u8>,
        state: &mut SerializerState,
    ) -> (r: Result<(), Error>)
        ensures
            r is Ok <==> all_writable(self@, value_models(values@)),
            r is Ok ==> final(out)@ == old(out)@ + column_bytes(self@, value_models(values@)),
            r is Ok ==> fits_wire(self@, value_models(values@)),
            r matches Err(e) ==> e.kind == ErrorKind::TypeMismatch && final(out)@ == old(out)@,
            *final(state) == *old(state),
    {
        let ghost models = value_models(values@);
        let mut i: usize = 0;
        while i < values.len()
            invariant
                i <= values.len(),
                models == value_models(values@),
                out@ == old(out)@,
                *state == *old(state),
                forall|j: int| 0 <= j < i ==> writable(self@, #[trigger] models[j]),
            decreases values.len() - i,
        {
            assert(models[i as int] == values[i as int]@);
            if !self.can_serialize(&values[i]) {
                return Err(mismatch("value does not have the shape of its column's type"));
            }
            i += 1;
        }
        self.write_column(values, out, state);
        Ok(())
    }

    /// Writes one value on its own, as a column of one row.
    ///
    /// Succeeds exactly when the value has the shape of the type's wire
    /// form, and then appends its bytes. Fails with `TypeMismatch` otherwise,
    /// and then writes nothing.
    pub fn serialize(&self, value: &Value, out: &mut Vec<u8>, state: &mut SerializerState) -> (r:
        Result<(), Error>)
        ensures
            r is Ok <==> writable(self@, value@),
            r is Ok ==> final(out)@ == old(out)@ + value_bytes(self@, value@),
            r is Ok ==> fits_wire(self@, seq![value@]),
            r matches Err(e) ==> e.kind == ErrorKind::TypeMismatch && final(out)@ == old(out)@,
            *final(state) == *old(state),
    {
        if !self.can_serialize(value) {
            return Err(mismatch("value does not have the shape of its type"));
        }
        self.write_value(value, out, state);
        Ok(())
    }
}

} // verus!

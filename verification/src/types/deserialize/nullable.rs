//! Reading nullable columns.

use crate::errors::Error;
use crate::types::Type;
use crate::types::deserialize::{column_read, prefix_read, value_read, DeserializerState};
use crate::types::reading::nullable_rows;
use crate::values::{value_models, Value};
use crate::wire::Reader;
use vstd::prelude::*;

verus! {

/// The rows of a nullable column: `Null` where the mask byte is not zero,
/// else the value underneath.
pub fn mask_rows(mask: &Vec<u8>, inner: &Vec<Value>) -> (out: Vec<Value>)
    requires
        mask.len() == inner.len(),
    ensures
        value_models(out@) == nullable_rows(mask@, value_models(inner@)),
        out.len() == mask.len(),
{
    let ghost models = value_models(inner@);
    let mut out: Vec<Value> = Vec::new();
    let mut i: usize = 0;
    while i < mask.len()
        invariant
            i <= mask.len(),
            mask.len() == inner.len(),
            models == value_models(inner@),
            out.len() == i,
            forall|k: int| 0 <= k < i ==> (#[trigger] out[k])@ == nullable_rows(mask@, models)[k],
        decreases mask.len() - i,
    {
        assert(models[i as int] == inner[i as int]@);
        if mask[i] != 0 {
            out.push(Value::Null);
        } else {
            out.push(inner[i].duplicate());
        }
        i += 1;
    }
    assert(value_models(out@) =~= nullable_rows(mask@, models));
    out
}

/// Reads what stands before a nullable column: what stands before a column
/// of the type underneath.
pub fn read_prefix(type_: &Type, reader: &mut Reader, state: &mut DeserializerState) -> (r: Result<
    (),
    Error,
>)
    requires
        old(reader).wf(),
        type_@ is Nullable,
    ensures
        prefix_read(type_@, *old(reader), *final(reader), r),
        *final(state) == *old(state),
    decreases type_, 0nat, 0nat,
{
    match type_ {
        Type::Nullable(inner) => inner.deserialize_prefix(reader, state),
        _ => {
            assert(false);
            Err(crate::wire::protocol_error("not a nullable type"))
        },
    }
}

/// Reads one nullable value on its own: a column of one row.
pub fn read(type_: &Type, reader: &mut Reader, state: &mut DeserializerState) -> (r: Result<
    Value,
    Error,
>)
    requires
        old(reader).wf(),
        type_@ is Nullable,
    ensures
        value_read(type_@, *old(reader), *final(reader), r),
        *final(state) == *old(state),
    decreases type_, 0nat, 1nat,
{
    let mut rows = read_n(type_, reader, 1, state)?;
    let ghost models = value_models(rows@);
    match rows.pop() {
        Some(v) => {
            assert(models[0] == v@);
            Ok(v)
        },
        None => Err(crate::wire::protocol_error("column of one row is empty")),
    }
}

/// Reads a nullable column: one mask byte for each row, then the column of
/// the type underneath.
pub fn read_n(
    type_: &Type,
    reader: &mut Reader,
    rows: usize,
    state: &mut DeserializerState,
) -> (r: Result<Vec<Value>, Error>)
    requires
        old(reader).wf(),
        type_@ is Nullable,
    ensures
        column_read(type_@, *old(reader), *final(reader), rows as nat, r),
        *final(state) == *old(state),
    decreases type_, 0nat, 0nat,
{
    match type_ {
        Type::Nullable(inner) => {
            let mask = reader.read_bytes(rows)?;
            let values = inner.deserialize_column(reader, rows, state)?;
            Ok(mask_rows(&mask, &values))
        },
        _ => {
            assert(false);
            Err(crate::wire::protocol_error("not a nullable type"))
        },
    }
}

} // verus!

//! Reading columns of arrays.

use crate::errors::Error;
use crate::types::Type;
use crate::types::deserialize::{
    column_read, copy_range, lemma_ascending, prefix_read, read_offsets_of, row_start, sizes,
    value_read, DeserializerState,
};
use crate::types::reading::{array_rows, last_offset, row_members};
use crate::values::{value_models, SpecValue, Value};
use crate::wire::Reader;
use vstd::prelude::*;

verus! {

/// The rows of a column of arrays, cut from the members of all rows at the
/// rows' offsets.
pub fn cut_rows(members: &Vec<Value>, offsets: &Vec<usize>) -> (out: Vec<Value>)
    requires
        crate::types::reading::ascending(sizes(offsets@)),
        last_offset(sizes(offsets@)) == members.len(),
    ensures
        value_models(out@) == array_rows(value_models(members@), sizes(offsets@)),
        out.len() == offsets.len(),
{
    let ghost offs = sizes(offsets@);
    let ghost models = value_models(members@);
    let mut out: Vec<Value> = Vec::new();
    let mut i: usize = 0;
    while i < offsets.len()
        invariant
            i <= offsets.len(),
            offs == sizes(offsets@),
            models == value_models(members@),
            crate::types::reading::ascending(offs),
            last_offset(offs) == members.len(),
            out.len() == i,
            forall|k: int|
                0 <= k < i ==> (#[trigger] out[k])@ == SpecValue::Array(
                    row_members(models, offs, k),
                ),
        decreases offsets.len() - i,
    {
        let start = row_start(offsets, i);
        let end = offsets[i];
        proof {
            assert(offs[i as int] == end);
            lemma_ascending(offs, i as int, offs.len() - 1);
            if i > 0 {
                lemma_ascending(offs, i - 1, i as int);
            }
        }
        let row = copy_range(members, start, end);
        proof {
            crate::values::lemma_container_models(row, row);
        }
        out.push(Value::Array(row));
        i += 1;
    }
    assert(value_models(out@) =~= array_rows(models, offs));
    out
}

/// Reads what stands before a column of arrays: what stands before a column
/// of the members.
pub fn read_prefix(type_: &Type, reader: &mut Reader, state: &mut DeserializerState) -> (r: Result<
    (),
    Error,
>)
    requires
        old(reader).wf(),
        type_@ is Array,
    ensures
        prefix_read(type_@, *old(reader), *final(reader), r),
        *final(state) == *old(state),
    decreases type_, 0nat, 0nat,
{
    match type_ {
        Type::Array(inner) => inner.deserialize_prefix(reader, state),
        _ => {
            assert(false);
            Err(crate::wire::protocol_error("not an array type"))
        },
    }
}

/// Reads one array on its own: a column of one row.
pub fn read(type_: &Type, reader: &mut Reader, state: &mut DeserializerState) -> (r: Result<
    Value,
    Error,
>)
    requires
        old(reader).wf(),
        type_@ is Array,
    ensures
        value_read(type_@, *old(reader), *final(reader), r),
        *final(state) == *old(state),
    decreases type_, 0nat, 1nat,
{
    let mut rows = read_n(type_, reader, 1, state)?;
    let ghost models = value_models(rows@);
    match rows.pop() {
        Some(v) => {
            assert(models[0] == v@);
            Ok(v)
        },
        None => Err(crate::wire::protocol_error("column of one row is empty")),
    }
}

/// Reads a column of arrays: the offsets of the rows, then the column of all
/// members.
pub fn read_n(
    type_: &Type,
    reader: &mut Reader,
    rows: usize,
    state: &mut DeserializerState,
) -> (r: Result<Vec<Value>, Error>)
    requires
        old(reader).wf(),
        type_@ is Array,
    ensures
        column_read(type_@, *old(reader), *final(reader), rows as nat, r),
        *final(state) == *old(state),
    decreases type_, 0nat, 0nat,
{
    match type_ {
        Type::Array(inner) => {
            let offsets = read_offsets_of(reader, rows)?;
            let total: usize = if rows == 0 {
                0
            } else {
                offsets[rows - 1]
            };
            assert(total == last_offset(sizes(offsets@)));
            let members = inner.deserialize_column(reader, total, state)?;
            Ok(cut_rows(&members, &offsets))
        },
        _ => {
            assert(false);
            Err(crate::wire::protocol_error("not an array type"))
        },
    }
}

} // verus!

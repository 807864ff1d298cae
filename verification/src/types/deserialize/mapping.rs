//! Reading columns of maps.

use crate::errors::Error;
use crate::types::Type;
use crate::types::deserialize::{
    column_read, copy_range, lemma_ascending, prefix_read, read_offsets_of, row_start, sizes,
    value_read, DeserializerState,
};
use crate::types::reading::{last_offset, map_rows, row_members};
use crate::values::{value_models, SpecValue, Value};
use crate::wire::Reader;
use vstd::prelude::*;

verus! {

/// The rows of a column of maps, cut from the keys and the values of all
/// rows at the rows' offsets.
pub fn cut_rows(keys: &Vec<Value>, values: &Vec<Value>, offsets: &Vec<usize>) -> (out: Vec<Value>)
    requires
        crate::types::reading::ascending(sizes(offsets@)),
        last_offset(sizes(offsets@)) == keys.len(),
        keys.len() == values.len(),
    ensures
        value_models(out@) == map_rows(
            value_models(keys@),
            value_models(values@),
            sizes(offsets@),
        ),
        out.len() == offsets.len(),
{
    let ghost offs = sizes(offsets@);
    let ghost key_models = value_models(keys@);
    let ghost value_models_ = value_models(values@);
    let mut out: Vec<Value> = Vec::new();
    let mut i: usize = 0;
    while i < offsets.len()
        invariant
            i <= offsets.len(),
            offs == sizes(offsets@),
            key_models == value_models(keys@),
            value_models_ == value_models(values@),
            crate::types::reading::ascending(offs),
            last_offset(offs) == keys.len(),
            keys.len() == values.len(),
            out.len() == i,
            forall|k: int|
                0 <= k < i ==> (#[trigger] out[k])@ == SpecValue::Mapping(
                    row_members(key_models, offs, k),
                    row_members(value_models_, offs, k),
                ),
        decreases offsets.len() - i,
    {
        let start = row_start(offsets, i);
        let end = offsets[i];
        proof {
            assert(offs[i as int] == end);
            lemma_ascending(offs, i as int, offs.len() - 1);
            if i > 0 {
                lemma_ascending(offs, i - 1, i as int);
            }
        }
        let row_keys = copy_range(keys, start, end);
        let row_values = copy_range(values, start, end);
        proof {
            crate::values::lemma_container_models(row_keys, row_values);
        }
        out.push(Value::Mapping(row_keys, row_values));
        i += 1;
    }
    assert(value_models(out@) =~= map_rows(key_models, value_models_, offs));
    out
}

/// Reads what stands before a column of maps: what stands before a column
/// of the keys, then what stands before a column of the values.
pub fn read_prefix(type_: &Type, reader: &mut Reader, state: &mut DeserializerState) -> (r: Result<
    (),
    Error,
>)
    requires
        old(reader).wf(),
        type_@ is Mapping,
    ensures
        prefix_read(type_@, *old(reader), *final(reader), r),
        *final(state) == *old(state),
    decreases type_, 0nat, 0nat,
{
    match type_ {
        Type::Mapping(key_type, value_type) => {
            key_type.deserialize_prefix(reader, state)?;
            value_type.deserialize_prefix(reader, state)
        },
        _ => {
            assert(false);
            Err(crate::wire::protocol_error("not a map type"))
        },
    }
}

/// Reads one map on its own: a column of one row.
pub fn read(type_: &Type, reader: &mut Reader, state: &mut DeserializerState) -> (r: Result<
    Value,
    Error,
>)
    requires
        old(reader).wf(),
        type_@ is Mapping,
    ensures
        value_read(type_@, *old(reader), *final(reader), r),
        *final(state) == *old(state),
    decreases type_, 0nat, 1nat,
{
    let mut rows = read_n(type_, reader, 1, state)?;
    let ghost models = value_models(rows@);
    match rows.pop() {
        Some(v) => {
            assert(models[0] == v@);
            Ok(v)
        },
        None => Err(crate::wire::protocol_error("column of one row is empty")),
    }
}

/// Reads a column of maps: the offsets of the rows, then the column of all
/// keys, then the column of all values.
pub fn read_n(
    type_: &Type,
    reader: &mut Reader,
    rows: usize,
    state: &mut DeserializerState,
) -> (r: Result<Vec<Value>, Error>)
    requires
        old(reader).wf(),
        type_@ is Mapping,
    ensures
        column_read(type_@, *old(reader), *final(reader), rows as nat, r),
        *final(state) == *old(state),
    decreases type_, 0nat, 0nat,
{
    match type_ {
        Type::Mapping(key_type, value_type) => {
            let offsets = read_offsets_of(reader, rows)?;
            let total: usize = if rows == 0 {
                0
            } else {
                offsets[rows - 1]
            };
            assert(total == last_offset(sizes(offsets@)));
            let keys = key_type.deserialize_column(reader, total, state)?;
            let values = value_type.deserialize_column(reader, total, state)?;
            Ok(cut_rows(&keys, &values, &offsets))
        },
        _ => {
            assert(false);
            Err(crate::wire::protocol_error("not a map type"))
        },
    }
}

} // verus!

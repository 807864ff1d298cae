//! Dictionary-encoded columns: writing and reading `LowCardinality`.

use crate::errors::{Error, ErrorKind};
use crate::types::Type;
use crate::types::defaults::default_of;
use crate::types::deserialize::{column_read, prefix_read, value_read, DeserializerState};
use crate::types::layout::{
    all_writable, column_bytes, dictionary, dictionary_column_bytes, dictionary_index, fits_wire,
    indices_bytes, position, prefix_bytes, reserved_slots, value_bytes, writable,
    HAS_ADDITIONAL_KEYS_BIT, LOW_CARDINALITY_VERSION, NEED_GLOBAL_DICTIONARY_BIT,
    NEED_UPDATE_DICTIONARY_BIT,
};
use crate::types::serialize::SerializerState;
use crate::types::serialize::nullable::lemma_default_writable;
use crate::values::{value_models, SpecValue, Value};
use crate::wire::{put_uint, Reader};
use vstd::prelude::*;

verus! {

/// The slot of a value lies at or behind where the search began, holds the
/// value if it lies within the dictionary, and no slot before it does.
pub proof fn lemma_position_bounds(dict: Seq<SpecValue>, v: SpecValue, from: int)
    requires
        0 <= from <= dict.len(),
    ensures
        from <= position(dict, v, from) <= dict.len(),
        position(dict, v, from) < dict.len() ==> dict[position(dict, v, from)] == v,
        forall|k: int| from <= k < position(dict, v, from) ==> dict[k] != v,
    decreases dict.len() - from,
{
    if from < dict.len() && dict[from] != v {
        lemma_position_bounds(dict, v, from + 1);
    }
}

/// A value keeps its slot when the dictionary grows.
pub proof fn lemma_position_push(dict: Seq<SpecValue>, x: SpecValue, v: SpecValue, from: int)
    requires
        0 <= from <= dict.len(),
    ensures
        position(dict, v, from) < dict.len() ==> position(dict.push(x), v, from) == position(
            dict,
            v,
            from,
        ),
        position(dict, v, from) == dict.len() && x == v ==> position(dict.push(x), v, from)
            == dict.len(),
    decreases dict.len() - from,
{
    if from < dict.len() {
        assert(dict.push(x)[from] == dict[from]);
        if dict[from] != v {
            lemma_position_push(dict, x, v, from + 1);
        }
    } else {
        assert(dict.push(x)[from] == x);
    }
}

/// The slot of `v` in `dict` at or after `from`, or the length of `dict`.
fn find(dict: &Vec<Value>, v: &Value, from: usize) -> (r: usize)
    requires
        from <= dict.len(),
    ensures
        r == position(value_models(dict@), v@, from as int),
        from <= r <= dict.len(),
{
    let ghost models = value_models(dict@);
    let mut j: usize = from;
    while j < dict.len()
        invariant
            from <= j <= dict.len(),
            models == value_models(dict@),
            position(models, v@, from as int) == position(models, v@, j as int),
        decreases dict.len() - j,
    {
        assert(models[j as int] == dict[j as int]@);
        if dict[j].same(v) {
            return j;
        }
        j += 1;
    }
    j
}

/// Appends the body of a dictionary-encoded column to `out`: the flags with
/// the index width, the size of the dictionary, the dictionary as a column
/// of `inner`, the number of rows, and the index of each row.
fn write_dictionary_column(
    inner: &Type,
    nullable: bool,
    values: &[Value],
    out: &mut Vec<u8>,
    state: &mut SerializerState,
)
    requires
        forall|i: int|
            0 <= i < values.len() ==> (nullable && (#[trigger] values[i]@) is Null) || writable(
                inner@,
                values[i]@,
            ),
    ensures
        final(out)@ == old(out)@ + dictionary_column_bytes(
            dictionary(value_models(values@), nullable, default_of(inner@)),
            nullable,
            value_models(values@),
            column_bytes(
                inner@,
                dictionary(value_models(values@), nullable, default_of(inner@)),
            ),
        ),
        values.len() <= usize::MAX,
        dictionary(value_models(values@), nullable, default_of(inner@)).len() <= usize::MAX,
        fits_wire(inner@, dictionary(value_models(values@), nullable, default_of(inner@))),
        *final(state) == *old(state),
    decreases inner, 2nat, 0nat,
{
    let ghost models = value_models(values@);
    let ghost placeholder = default_of(inner@);
    let mut dict: Vec<Value> = Vec::new();
    let start: usize = if nullable {
        1
    } else {
        0
    };
    if nullable {
        dict.push(inner.default_value());
    }
    let mut indices: Vec<usize> = Vec::new();
    let mut i: usize = 0;
    proof {
        lemma_default_writable(inner@);
        assert(models.take(0) =~= Seq::<SpecValue>::empty());
        assert(value_models(dict@) =~= dictionary(models.take(0), nullable, placeholder));
    }
    while i < values.len()
        invariant
            i <= values.len(),
            models == value_models(values@),
            placeholder == default_of(inner@),
            start == reserved_slots(nullable),
            start <= dict.len(),
            forall|i: int|
                0 <= i < values.len() ==> (nullable && (#[trigger] values[i]@) is Null)
                    || writable(inner@, values[i]@),
            value_models(dict@) == dictionary(models.take(i as int), nullable, placeholder),
            all_writable(inner@, value_models(dict@)),
            indices.len() == i,
            forall|k: int|
                0 <= k < i ==> (#[trigger] indices[k]) == dictionary_index(
                    value_models(dict@),
                    nullable,
                    models[k],
                ) && indices[k] < dict.len(),
        decreases values.len() - i,
    {
        let ghost before = value_models(dict@);
        let ghost next = models.take(i + 1);
        let value = &values[i];
        proof {
            assert(next.drop_last() =~= models.take(i as int));
            assert(next.last() == value@);
            assert(models[i as int] == value@);
        }
        if nullable && matches!(value, Value::Null) {
            indices.push(0);
        } else {
            let slot = find(&dict, value, start);
            if slot == dict.len() {
                let ghost old_dict = dict@;
                let copy = value.duplicate();
                dict.push(copy);
                proof {
                    crate::values::lemma_value_models_push(old_dict, copy);
                    assert forall|k: int| 0 <= k < i implies (#[trigger] indices[k])
                        == dictionary_index(value_models(dict@), nullable, models[k]) by {
                        lemma_position_push(before, value@, models[k], start as int);
                    }
                    lemma_position_push(before, value@, value@, start as int);
                    assert forall|k: int|
                        0 <= k < value_models(dict@).len() implies writable(
                        inner@,
                        #[trigger] value_models(dict@)[k],
                    ) by {
                        if k < before.len() {
                            assert(value_models(dict@)[k] == before[k]);
                        }
                    }
                }
            }
            indices.push(slot);
        }
        i += 1;
    }
    assert(models.take(values.len() as int) =~= models);
    let ghost entries = value_models(dict@);
    let size: u64 = dict.len() as u64;
    let code: u64 = if size <= 0x100 {
        0
    } else if size <= 0x1_0000 {
        1
    } else if size <= 0x1_0000_0000 {
        2
    } else {
        3
    };
    let width: usize = if code == 0 {
        1
    } else if code == 1 {
        2
    } else if code == 2 {
        4
    } else {
        8
    };
    put_uint(out, (HAS_ADDITIONAL_KEYS_BIT + NEED_UPDATE_DICTIONARY_BIT + code) as u128, 8);
    put_uint(out, size as u128, 8);
    inner.write_column(dict.as_slice(), out, state);
    put_uint(out, values.len() as u128, 8);
    let ghost head = out@;
    let mut k: usize = 0;
    assert(out@ =~= head + indices_bytes(entries, nullable, models, width as nat, 0));
    while k < indices.len()
        invariant
            k <= indices.len(),
            indices.len() == values.len(),
            models == value_models(values@),
            models.len() == values.len(),
            forall|k: int|
                0 <= k < indices.len() ==> (#[trigger] indices[k]) == dictionary_index(
                    entries,
                    nullable,
                    models[k],
                ),
            out@ == head + indices_bytes(entries, nullable, models, width as nat, k as nat),
        decreases indices.len() - k,
    {
        put_uint(out, indices[k] as u128, width);
        assert(out@ =~= head + indices_bytes(entries, nullable, models, width as nat, (k + 1) as nat));
        k += 1;
    }
    assert(out@ =~= old(out)@ + dictionary_column_bytes(
        entries,
        nullable,
        models,
        column_bytes(inner@, entries),
    ));
}

/// Writes what stands before a `LowCardinality` column: the version tag.
pub fn write_prefix(type_: &Type, out: &mut Vec<u8>, state: &mut SerializerState)
    requires
        type_@ is LowCardinality,
    ensures
        final(out)@ == old(out)@ + prefix_bytes(type_@),
        *final(state) == *old(state),
{
    put_uint(out, LOW_CARDINALITY_VERSION as u128, 8);
}

/// Writes one value of a `LowCardinality` type on its own: a column of one
/// row.
pub fn write(type_: &Type, value: &Value, out: &mut Vec<u8>, state: &mut SerializerState)
    requires
        type_@ is LowCardinality,
        writable(type_@, value@),
    ensures
        final(out)@ == old(out)@ + value_bytes(type_@, value@),
        fits_wire(type_@, seq![value@]),
        *final(state) == *old(state),
    decreases type_, 0nat, 1nat,
{
    let mut one: Vec<Value> = Vec::new();
    one.push(value.duplicate());
    assert(value_models(one@) =~= seq![value@]);
    write_n(type_, one.as_slice(), out, state)
}

/// Appends the bytes of a `LowCardinality` column to `out`.
pub fn write_n(type_: &Type, values: &[Value], out: &mut Vec<u8>, state: &mut SerializerState)
    requires
        type_@ is LowCardinality,
        all_writable(type_@, value_models(values@)),
    ensures
        final(out)@ == old(out)@ + column_bytes(type_@, value_models(values@)),
        fits_wire(type_@, value_models(values@)),
        *final(state) == *old(state),
    decreases type_, 0nat, 0nat,
{
    let ghost models = value_models(values@);
    match type_ {
        Type::LowCardinality(x) => {
            proof {
                assert forall|i: int| 0 <= i < values.len() implies writable(
                    x@,
                    #[trigger] values[i]@,
                ) by {
                    assert(models[i] == values[i]@);
                    assert(writable(type_@, models[i]));
                }
            }
            assert(*type_@->LowCardinality_0 == x@);
            match &**x {
                Type::Nullable(y) => {
                    assert(x@ is Nullable && *x@->Nullable_0 == y@);
                    write_dictionary_column(y, true, values, out, state)
                },
                inner => {
                    assert(!(x@ is Nullable) && x@ == inner@);
                    write_dictionary_column(inner, false, values, out, state)
                },
            }
        },
        _ => {
            assert(false);
        },
    }
}

/// The rows of a dictionary-encoded column: for each index the dictionary's
/// value, and `Null` for index `0` of a nullable column.
fn look_up(dict: &Vec<Value>, nullable: bool, indices: &Vec<u64>) -> (r: Option<Vec<Value>>)
    ensures
        r is Some <==> crate::types::reading::all_below(
            crate::types::deserialize::numbers(indices@),
            dict.len() as nat,
        ),
        r matches Some(out) ==> out.len() == indices.len() && value_models(out@)
            == crate::types::reading::dictionary_rows(
            value_models(dict@),
            nullable,
            crate::types::deserialize::numbers(indices@),
        ),
{
    let ghost models = value_models(dict@);
    let ghost xs = crate::types::deserialize::numbers(indices@);
    let mut out: Vec<Value> = Vec::new();
    let mut i: usize = 0;
    while i < indices.len()
        invariant
            i <= indices.len(),
            models == value_models(dict@),
            xs == crate::types::deserialize::numbers(indices@),
            out.len() == i,
            forall|k: int| 0 <= k < i ==> #[trigger] xs[k] < dict.len(),
            forall|k: int|
                0 <= k < i ==> (#[trigger] out[k])@ == crate::types::reading::dictionary_rows(
                    models,
                    nullable,
                    xs,
                )[k],
        decreases indices.len() - i,
    {
        let index = indices[i];
        assert(xs[i as int] == index);
        if index >= dict.len() as u64 {
            return None;
        }
        if nullable && index == 0 {
            out.push(Value::Null);
        } else {
            assert(models[index as int] == dict[index as int]@);
            out.push(dict[index as usize].duplicate());
        }
        i += 1;
    }
    assert(value_models(out@) =~= crate::types::reading::dictionary_rows(models, nullable, xs));
    Some(out)
}

/// Reads the body of a dictionary-encoded column of `rows` rows whose
/// dictionary holds values of type `inner`: the flags with the index width,
/// the size of the dictionary, the dictionary as a column of `inner`, the
/// number of rows, and the index of each row.
fn read_dictionary_column(
    inner: &Type,
    nullable: bool,
    reader: &mut Reader,
    rows: usize,
    state: &mut DeserializerState,
) -> (r: Result<Vec<Value>, Error>)
    requires
        old(reader).wf(),
    ensures
        *final(state) == *old(state),
        final(reader).wf(),
        final(reader).data() == old(reader).data(),
        match crate::types::reading::read_dictionary_column(
            inner@,
            old(reader).data(),
            old(reader).pos(),
            rows as nat,
        ) {
            Some(parts) => r matches Ok(x) && x.len() == rows && value_models(x@)
                == crate::types::reading::dictionary_rows(parts.entries, nullable, parts.indices)
                && final(reader).pos() == parts.end,
            None => r matches Err(e) && e.kind == ErrorKind::ProtocolError,
        },
    decreases inner, 2nat, 0nat,
{
    if reader.remaining() < 16 {
        return Err(crate::wire::protocol_error("unexpected end of data"));
    }
    proof {
        crate::wire::lemma_pow256_values();
    }
    let flags = reader.read_uint(8)? as u64;
    let size = reader.read_uint(8)? as u64;
    let code = flags % 256;
    if code > 3 {
        return Err(crate::wire::protocol_error("unknown width of dictionary indices"));
    }
    if (flags / NEED_GLOBAL_DICTIONARY_BIT) % 2 == 1 {
        return Err(crate::wire::protocol_error("global dictionaries are not supported"));
    }
    if (flags / HAS_ADDITIONAL_KEYS_BIT) % 2 == 0 {
        return Err(crate::wire::protocol_error("column brings no dictionary keys"));
    }
    if size > usize::MAX as u64 {
        return Err(crate::wire::protocol_error("dictionary is too large"));
    }
    let dict = inner.deserialize_column(reader, size as usize, state)?;
    let count = reader.read_uint(8)?;
    if count != rows as u128 {
        return Err(crate::wire::protocol_error("row count of column does not match"));
    }
    let width: usize = if code == 0 {
        1
    } else if code == 1 {
        2
    } else if code == 2 {
        4
    } else {
        8
    };
    let indices = crate::types::deserialize::read_numbers_of(reader, width, rows)?;
    match look_up(&dict, nullable, &indices) {
        Some(out) => Ok(out),
        None => Err(crate::wire::protocol_error("index out of dictionary range")),
    }
}

/// Reads what stands before a `LowCardinality` column: the version tag,
/// which must be the known one.
pub fn read_prefix(type_: &Type, reader: &mut Reader, state: &mut DeserializerState) -> (r: Result<
    (),
    Error,
>)
    requires
        old(reader).wf(),
        type_@ is LowCardinality,
    ensures
        prefix_read(type_@, *old(reader), *final(reader), r),
        *final(state) == *old(state),
{
    let version = reader.read_uint(8)?;
    if version != LOW_CARDINALITY_VERSION as u128 {
        return Err(crate::wire::protocol_error("unexpected version of low cardinality column"));
    }
    Ok(())
}

/// Reads one value of a `LowCardinality` type on its own: a column of one
/// row.
pub fn read(type_: &Type, reader: &mut Reader, state: &mut DeserializerState) -> (r: Result<
    Value,
    Error,
>)
    requires
        old(reader).wf(),
        type_@ is LowCardinality,
    ensures
        value_read(type_@, *old(reader), *final(reader), r),
        *final(state) == *old(state),
    decreases type_, 0nat, 1nat,
{
    let mut rows = read_n(type_, reader, 1, state)?;
    let ghost models = value_models(rows@);
    match rows.pop() {
        Some(v) => {
            assert(models[0] == v@);
            Ok(v)
        },
        None => Err(crate::wire::protocol_error("column of one row is empty")),
    }
}

/// Reads a `LowCardinality` column.
pub fn read_n(
    type_: &Type,
    reader: &mut Reader,
    rows: usize,
    state: &mut DeserializerState,
) -> (r: Result<Vec<Value>, Error>)
    requires
        old(reader).wf(),
        type_@ is LowCardinality,
    ensures
        column_read(type_@, *old(reader), *final(reader), rows as nat, r),
        *final(state) == *old(state),
    decreases type_, 0nat, 0nat,
{
    match type_ {
        Type::LowCardinality(x) => {
            assert(*type_@->LowCardinality_0 == x@);
            match &**x {
                Type::Nullable(y) => {
                    assert(x@ is Nullable && *x@->Nullable_0 == y@);
                    read_dictionary_column(y, true, reader, rows, state)
                },
                inner => {
                    assert(!(x@ is Nullable) && x@ == inner@);
                    read_dictionary_column(inner, false, reader, rows, state)
                },
            }
        },
        _ => {
            assert(false);
            Err(crate::wire::protocol_error("not a low cardinality type"))
        },
    }
}

} // verus!

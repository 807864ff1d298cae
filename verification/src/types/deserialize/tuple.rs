//! Reading columns of tuples.

use crate::errors::Error;
use crate::types::{SpecType, Type};
use crate::types::deserialize::{column_read, prefix_read, value_read, DeserializerState};
use crate::types::reading::{read_tuple_columns, read_tuple_prefix, tuple_rows};
use crate::values::{value_models, SpecValue, Value};
use crate::wire::Reader;
use vstd::prelude::*;

verus! {

broadcast use vstd::std_specs::vec::axiom_vec_index_decreases;

/// The models of the columns of a tuple column.
pub open spec fn column_models(columns: Seq<Vec<Value>>) -> Seq<Seq<SpecValue>> {
    Seq::new(columns.len(), |j: int| value_models(columns[j]@))
}

/// A tuple column of which one member's column fails fails as a whole.
proof fn lemma_tuple_columns_fail(
    ts: Seq<SpecType>,
    data: Seq<u8>,
    pos: int,
    n: nat,
    j: nat,
    k: nat,
)
    requires
        j <= k <= ts.len(),
        read_tuple_columns(ts, data, pos, n, j) is None,
    ensures
        read_tuple_columns(ts, data, pos, n, k) is None,
    decreases k - j,
{
    if j < k {
        lemma_tuple_columns_fail(ts, data, pos, n, j, (k - 1) as nat);
    }
}

/// The rows of a column of tuples, put together from the columns of the
/// members.
pub fn zip_rows(columns: &Vec<Vec<Value>>, rows: usize) -> (out: Vec<Value>)
    requires
        forall|j: int| 0 <= j < columns.len() ==> (#[trigger] columns[j]).len() == rows,
    ensures
        value_models(out@) == tuple_rows(column_models(columns@), rows as nat),
        out.len() == rows,
{
    let ghost models = column_models(columns@);
    let mut out: Vec<Value> = Vec::new();
    let mut i: usize = 0;
    while i < rows
        invariant
            i <= rows,
            models == column_models(columns@),
            forall|j: int| 0 <= j < columns.len() ==> (#[trigger] columns[j]).len() == rows,
            out.len() == i,
            forall|k: int|
                0 <= k < i ==> (#[trigger] out[k])@ == tuple_rows(models, rows as nat)[k],
        decreases rows - i,
    {
        let mut row: Vec<Value> = Vec::new();
        let mut j: usize = 0;
        while j < columns.len()
            invariant
                j <= columns.len(),
                i < rows,
                models == column_models(columns@),
                forall|j: int| 0 <= j < columns.len() ==> (#[trigger] columns[j]).len() == rows,
                row.len() == j,
                forall|k: int| 0 <= k < j ==> (#[trigger] row[k])@ == models[k][i as int],
            decreases columns.len() - j,
        {
            assert(columns[j as int].len() == rows);
            assert(models[j as int][i as int] == columns[j as int][i as int]@);
            row.push(columns[j][i].duplicate());
            j += 1;
        }
        proof {
            crate::values::lemma_container_models(row, row);
            assert(value_models(row@) =~= tuple_rows(models, rows as nat)[i as int]->Tuple_0);
        }
        out.push(Value::Tuple(row));
        i += 1;
    }
    assert(value_models(out@) =~= tuple_rows(models, rows as nat));
    out
}

/// A tuple type of which one member's prefix fails fails as a whole.
proof fn lemma_tuple_prefix_fail(ts: Seq<SpecType>, data: Seq<u8>, pos: int, j: nat, k: nat)
    requires
        j <= k <= ts.len(),
        read_tuple_prefix(ts, data, pos, j) is None,
    ensures
        read_tuple_prefix(ts, data, pos, k) is None,
    decreases k - j,
{
    if j < k {
        lemma_tuple_prefix_fail(ts, data, pos, j, (k - 1) as nat);
    }
}

/// Reads what stands before a column of tuples: what stands before the
/// column of each member, one after the other.
pub fn read_prefix(type_: &Type, reader: &mut Reader, state: &mut DeserializerState) -> (r: Result<
    (),
    Error,
>)
    requires
        old(reader).wf(),
        type_@ is Tuple,
    ensures
        prefix_read(type_@, *old(reader), *final(reader), r),
        *final(state) == *old(state),
    decreases type_, 0nat, 0nat,
{
    match type_ {
        Type::Tuple(types) => {
            let ghost data = reader.data();
            let ghost start = reader.pos();
            let ghost ts = type_@->Tuple_0;
            let mut i: usize = 0;
            while i < types.len()
                invariant
                    *type_ == Type::Tuple(*types),
                    i <= types.len(),
                    ts == type_@->Tuple_0,
                    ts.len() == types.len(),
                    reader.wf(),
                    reader.data() == data,
                    data == old(reader).data(),
                    start == old(reader).pos(),
                    *state == *old(state),
                    read_tuple_prefix(ts, data, start, i as nat) == Some(reader.pos()),
                decreases types.len() - i,
            {
                proof {
                    assert(decreases_to!(*type_ => type_->Tuple_0));
                    assert(ts[i as int] == types[i as int]@);
                }
                match types[i].deserialize_prefix(reader, state) {
                    Ok(()) => {},
                    Err(e) => {
                        proof {
                            lemma_tuple_prefix_fail(ts, data, start, (i + 1) as nat, ts.len());
                        }
                        return Err(e);
                    },
                }
                i += 1;
            }
            Ok(())
        },
        _ => {
            assert(false);
            Err(crate::wire::protocol_error("not a tuple type"))
        },
    }
}

/// Reads one tuple on its own: a column of one row.
pub fn read(type_: &Type, reader: &mut Reader, state: &mut DeserializerState) -> (r: Result<
    Value,
    Error,
>)
    requires
        old(reader).wf(),
        type_@ is Tuple,
    ensures
        value_read(type_@, *old(reader), *final(reader), r),
        *final(state) == *old(state),
    decreases type_, 0nat, 1nat,
{
    let mut rows = read_n(type_, reader, 1, state)?;
    let ghost models = value_models(rows@);
    match rows.pop() {
        Some(v) => {
            assert(models[0] == v@);
            Ok(v)
        },
        None => Err(crate::wire::protocol_error("column of one row is empty")),
    }
}

/// Reads a column of tuples: the columns of the members, one after the
/// other.
pub fn read_n(
    type_: &Type,
    reader: &mut Reader,
    rows: usize,
    state: &mut DeserializerState,
) -> (r: Result<Vec<Value>, Error>)
    requires
        old(reader).wf(),
        type_@ is Tuple,
    ensures
        column_read(type_@, *old(reader), *final(reader), rows as nat, r),
        *final(state) == *old(state),
    decreases type_, 0nat, 0nat,
{
    match type_ {
        Type::Tuple(types) => {
            let ghost data = reader.data();
            let ghost start = reader.pos();
            let ghost ts = type_@->Tuple_0;
            let mut columns: Vec<Vec<Value>> = Vec::new();
            let mut j: usize = 0;
            assert(column_models(columns@) =~= Seq::<Seq<SpecValue>>::empty());
            while j < types.len()
                invariant
                    j <= types.len(),
                    *type_ == Type::Tuple(*types),
                    ts == type_@->Tuple_0,
                    ts.len() == types.len(),
                    reader.wf(),
                    reader.data() == data,
                    data == old(reader).data(),
                    start == old(reader).pos(),
                    *state == *old(state),
                    columns.len() == j,
                    forall|k: int| 0 <= k < j ==> (#[trigger] columns[k]).len() == rows,
                    read_tuple_columns(ts, data, start, rows as nat, j as nat) == Some(
                        (column_models(columns@), reader.pos()),
                    ),
                decreases types.len() - j,
            {
                proof {
                    assert(decreases_to!(*type_ => type_->Tuple_0));
                    assert(ts[j as int] == types[j as int]@);
                }
                let ghost before = column_models(columns@);
                match types[j].deserialize_column(reader, rows, state) {
                    Ok(column) => {
                        columns.push(column);
                        assert(column_models(columns@) =~= before.push(value_models(column@)));
                    },
                    Err(e) => {
                        proof {
                            lemma_tuple_columns_fail(
                                ts,
                                data,
                                start,
                                rows as nat,
                                (j + 1) as nat,
                                ts.len(),
                            );
                        }
                        return Err(e);
                    },
                }
                j += 1;
            }
            Ok(zip_rows(&columns, rows))
        },
        _ => {
            assert(false);
            Err(crate::wire::protocol_error("not a tuple type"))
        },
    }
}

} // verus!

//! Writing columns of tuples.

use crate::types::Type;
use crate::types::layout::{
    all_writable, column_bytes, fits_wire, prefix_bytes, tuple_bytes, tuple_column,
    tuple_prefix_bytes, value_bytes, writable,
};
use crate::types::serialize::SerializerState;
use crate::values::{value_models, Value};
use vstd::prelude::*;

verus! {

broadcast use vstd::std_specs::vec::axiom_vec_index_decreases;

/// Copies of the `j`-th members of the tuples of a column.
fn member_column(values: &[Value], j: usize, Ghost(arity): Ghost<nat>) -> (column: Vec<Value>)
    requires
        j < arity,
        forall|i: int|
            0 <= i < values.len() ==> (#[trigger] values[i]@) is Tuple && values[i]@->Tuple_0.len()
                == arity,
    ensures
        value_models(column@) == tuple_column(value_models(values@), j as int),
{
    let ghost models = value_models(values@);
    let mut column: Vec<Value> = Vec::new();
    let mut i: usize = 0;
    while i < values.len()
        invariant
            i <= values.len(),
            j < arity,
            models == value_models(values@),
            forall|i: int|
                0 <= i < values.len() ==> (#[trigger] values[i]@) is Tuple
                    && values[i]@->Tuple_0.len() == arity,
            column.len() == i,
            forall|k: int| 0 <= k < i ==> (#[trigger] column[k])@ == models[k]->Tuple_0[j as int],
        decreases values.len() - i,
    {
        assert(values[i as int]@ is Tuple);
        match &values[i] {
            Value::Tuple(members) => {
                proof {
                    crate::values::lemma_container_models(*members, *members);
                    assert(values[i as int]@->Tuple_0 == value_models(members@));
                    assert(models[i as int] == values[i as int]@);
                }
                column.push(members[j].duplicate());
            },
            _ => {
                assert(false);
            },
        }
        i += 1;
    }
    assert(value_models(column@) =~= tuple_column(models, j as int));
    column
}

/// Writes what stands before a column of tuples: what stands before the column
/// of each member, one after the other.
pub fn write_prefix(type_: &Type, out: &mut Vec<u8>, state: &mut SerializerState)
    requires
        type_@ is Tuple,
    ensures
        final(out)@ == old(out)@ + prefix_bytes(type_@),
        *final(state) == *old(state),
    decreases type_, 0nat, 0nat,
{
    match type_ {
        Type::Tuple(types) => {
            let ghost ts = type_@->Tuple_0;
            let mut i: usize = 0;
            assert(out@ =~= old(out)@ + tuple_prefix_bytes(ts, 0));
            while i < types.len()
                invariant
                    *type_ == Type::Tuple(*types),
                    i <= types.len(),
                    ts == type_@->Tuple_0,
                    *state == *old(state),
                    out@ == old(out)@ + tuple_prefix_bytes(ts, i as nat),
                decreases types.len() - i,
            {
                proof {
                    assert(decreases_to!(*type_ => type_->Tuple_0));
                    assert(ts[i as int] == types[i as int]@);
                }
                types[i].write_prefix(out, state);
                assert(out@ =~= old(out)@ + tuple_prefix_bytes(ts, (i + 1) as nat));
                i += 1;
            }
        },
        _ => {
            assert(false);
        },
    }
}

/// Writes one tuple on its own: a column of one row.
pub fn write(type_: &Type, value: &Value, out: &mut Vec<u8>, state: &mut SerializerState)
    requires
        type_@ is Tuple,
        writable(type_@, value@),
    ensures
        final(out)@ == old(out)@ + value_bytes(type_@, value@),
        fits_wire(type_@, seq![value@]),
        *final(state) == *old(state),
    decreases type_, 0nat, 1nat,
{
    let mut one: Vec<Value> = Vec::new();
    one.push(value.duplicate());
    assert(value_models(one@) =~= seq![value@]);
    write_n(type_, one.as_slice(), out, state)
}

/// Appends the bytes of a column of tuples to `out`: the columns of the
/// members, one after the other.
pub fn write_n(type_: &Type, values: &[Value], out: &mut Vec<u8>, state: &mut SerializerState)
    requires
        type_@ is Tuple,
        all_writable(type_@, value_models(values@)),
    ensures
        final(out)@ == old(out)@ + column_bytes(type_@, value_models(values@)),
        fits_wire(type_@, value_models(values@)),
        *final(state) == *old(state),
    decreases type_, 0nat, 0nat,
{
    match type_ {
        Type::Tuple(types) => {
            let ghost models = value_models(values@);
            let ghost ts = type_@->Tuple_0;
            proof {
                crate::types::lemma_tuple_model(*types);
                assert forall|i: int| 0 <= i < values.len() implies (#[trigger] values[i]@) is Tuple
                    && values[i]@->Tuple_0.len() == ts.len() by {
                    assert(models[i] == values[i]@);
                    assert(writable(type_@, models[i]));
                }
            }
            let mut j: usize = 0;
            assert(out@ =~= old(out)@ + tuple_bytes(ts, models, 0));
            while j < types.len()
                invariant
                    j <= types.len(),
                    *type_ == Type::Tuple(*types),
                    models == value_models(values@),
                    *state == *old(state),
                    ts == type_@->Tuple_0,
                    ts == crate::types::type_models(types@),
                    all_writable(type_@, models),
                    forall|i: int|
                        0 <= i < values.len() ==> (#[trigger] values[i]@) is Tuple
                            && values[i]@->Tuple_0.len() == ts.len(),
                    out@ == old(out)@ + tuple_bytes(ts, models, j as nat),
                    forall|c: int|
                        0 <= c < j ==> fits_wire(#[trigger] ts[c], tuple_column(models, c)),
                decreases types.len() - j,
            {
                let column = member_column(values, j, Ghost(ts.len()));
                proof {
                    assert(decreases_to!(*type_ => type_->Tuple_0));
                    assert(ts[j as int] == types[j as int]@);
                    let col = tuple_column(models, j as int);
                    assert forall|i: int| 0 <= i < col.len() implies writable(
                        types[j as int]@,
                        #[trigger] col[i],
                    ) by {
                        assert(writable(type_@, models[i]));
                        assert(writable(ts[j as int], models[i]->Tuple_0[j as int]));
                    }
                }
                types[j].write_column(column.as_slice(), out, state);
                assert(out@ =~= old(out)@ + tuple_bytes(ts, models, (j + 1) as nat));
                j += 1;
            }
        },
        _ => {
            assert(false);
        },
    }
}

} // verus!

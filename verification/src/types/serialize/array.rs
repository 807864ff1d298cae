//! Writing columns of arrays.

use crate::types::Type;
use crate::types::layout::{
    all_writable, column_bytes, fits_wire, flat_members, offsets, offsets_bytes, prefix_bytes,
    total_len, value_bytes, writable,
};
use crate::types::serialize::SerializerState;
use crate::values::{value_models, Value};
use crate::wire::put_uint;
use vstd::prelude::*;

verus! {

/// Appends copies of the values of `members` to `flat`.
pub fn append_copies(flat: &mut Vec<Value>, members: &Vec<Value>)
    ensures
        value_models(final(flat)@) == value_models(old(flat)@) + value_models(members@),
{
    let ghost start = value_models(flat@);
    let ghost models = value_models(members@);
    let mut j: usize = 0;
    assert(value_models(flat@) =~= start + models.take(0));
    while j < members.len()
        invariant
            j <= members.len(),
            models == value_models(members@),
            value_models(flat@) == start + models.take(j as int),
        decreases members.len() - j,
    {
        let ghost before = flat@;
        let copy = members[j].duplicate();
        flat.push(copy);
        proof {
            crate::values::lemma_value_models_push(before, copy);
            assert(models.take(j + 1) =~= models.take(j as int).push(models[j as int]));
            assert(value_models(flat@) =~= start + models.take(j + 1));
        }
        j += 1;
    }
    assert(models.take(members.len() as int) =~= models);
}

/// Writes what stands before a column of arrays: what stands before a column
/// of the members.
pub fn write_prefix(type_: &Type, out: &mut Vec<u8>, state: &mut SerializerState)
    requires
        type_@ is Array,
    ensures
        final(out)@ == old(out)@ + prefix_bytes(type_@),
        *final(state) == *old(state),
    decreases type_, 0nat, 0nat,
{
    match type_ {
        Type::Array(inner) => inner.write_prefix(out, state),
        _ => {
            assert(false);
        },
    }
}

/// Writes one array on its own: a column of one row.
pub fn write(type_: &Type, value: &Value, out: &mut Vec<u8>, state: &mut SerializerState)
    requires
        type_@ is Array,
        writable(type_@, value@),
    ensures
        final(out)@ == old(out)@ + value_bytes(type_@, value@),
        fits_wire(type_@, seq![value@]),
        *final(state) == *old(state),
    decreases type_, 0nat, 1nat,
{
    let mut one: Vec<Value> = Vec::new();
    one.push(value.duplicate());
    assert(value_models(one@) =~= seq![value@]);
    write_n(type_, one.as_slice(), out, state)
}

/// Appends the bytes of a column of arrays to `out`: the offsets of the rows,
/// then the column of all members.
pub fn write_n(type_: &Type, values: &[Value], out: &mut Vec<u8>, state: &mut SerializerState)
    requires
        type_@ is Array,
        all_writable(type_@, value_models(values@)),
    ensures
        final(out)@ == old(out)@ + column_bytes(type_@, value_models(values@)),
        fits_wire(type_@, value_models(values@)),
        *final(state) == *old(state),
    decreases type_, 0nat, 0nat,
{
    match type_ {
        Type::Array(inner) => {
            let ghost models = value_models(values@);
            let mut flat: Vec<Value> = Vec::new();
            let mut i: usize = 0;
            assert(value_models(flat@) =~= flat_members(models.take(0)));
            assert(out@ =~= old(out)@ + offsets_bytes(offsets(models.take(0))));
            while i < values.len()
                invariant
                    i <= values.len(),
                    models == value_models(values@),
                    *state == *old(state),
                    type_@ == crate::types::SpecType::Array(Box::new(inner@)),
                    all_writable(type_@, models),
                    value_models(flat@) == flat_members(models.take(i as int)),
                    flat.len() == total_len(models.take(i as int)),
                    out@ == old(out)@ + offsets_bytes(offsets(models.take(i as int))),
                    all_writable(inner@, value_models(flat@)),
                decreases values.len() - i,
            {
                let ghost next = models.take(i + 1);
                let ghost done = value_models(flat@);
                proof {
                    assert(next.drop_last() =~= models.take(i as int));
                    assert(next.last() == values[i as int]@);
                    assert(models[i as int] == values[i as int]@);
                    assert(writable(type_@, models[i as int]));
                }
                match &values[i] {
                    Value::Array(members) => {
                        proof {
                            crate::values::lemma_container_models(*members, *members);
                            assert(values[i as int]@->Array_0 == value_models(members@));
                        }
                        append_copies(&mut flat, members);
                        proof {
                            let row = value_models(members@);
                            assert forall|k: int| 0 <= k < value_models(flat@).len() implies writable(
                                inner@,
                                #[trigger] value_models(flat@)[k],
                            ) by {
                                if k < done.len() {
                                    assert(value_models(flat@)[k] == done[k]);
                                } else {
                                    assert(value_models(flat@)[k] == row[k - done.len()]);
                                    assert(writable(inner@, values[i as int]@->Array_0[k - done.len()]));
                                }
                            }
                        }
                    },
                    _ => {
                        assert(false);
                    },
                }
                put_uint(out, flat.len() as u128, 8);
                proof {
                    assert(value_models(flat@).len() == flat.len());
                    assert(total_len(next) == total_len(models.take(i as int)) + crate::types::layout::row_len(
                        next.last(),
                    ));
                    assert(total_len(next) == flat.len());
                    assert(offsets(next) == offsets(models.take(i as int)).push(total_len(next)));
                    assert(offsets(next).drop_last() =~= offsets(models.take(i as int)));
                    assert(offsets(next).last() == flat.len());
                    assert(out@ =~= old(out)@ + offsets_bytes(offsets(next)));
                }
                i += 1;
            }
            assert(models.take(values.len() as int) =~= models);
            inner.write_column(flat.as_slice(), out, state);
            assert(out@ =~= old(out)@ + column_bytes(type_@, models));
        },
        _ => {
            assert(false);
        },
    }
}

} // verus!

//! Writing columns of maps.

use crate::types::Type;
use crate::types::layout::{
    all_writable, column_bytes, fits_wire, flat_keys, flat_values, offsets, offsets_bytes,
    prefix_bytes, total_len, value_bytes, writable,
};
use crate::types::serialize::SerializerState;
use crate::types::serialize::array::append_copies;
use crate::values::{value_models, Value};
use crate::wire::put_uint;
use vstd::prelude::*;

verus! {

/// Writes what stands before a column of maps: what stands before a column of
/// the keys, then what stands before a column of the values.
pub fn write_prefix(type_: &Type, out: &mut Vec<u8>, state: &mut SerializerState)
    requires
        type_@ is Mapping,
    ensures
        final(out)@ == old(out)@ + prefix_bytes(type_@),
        *final(state) == *old(state),
    decreases type_, 0nat, 0nat,
{
    match type_ {
        Type::Mapping(key_type, value_type) => {
            key_type.write_prefix(out, state);
            value_type.write_prefix(out, state);
            assert(out@ =~= old(out)@ + prefix_bytes(type_@));
        },
        _ => {
            assert(false);
        },
    }
}

/// Writes one map on its own: a column of one row.
pub fn write(type_: &Type, value: &Value, out: &mut Vec<u8>, state: &mut SerializerState)
    requires
        type_@ is Mapping,
        writable(type_@, value@),
    ensures
        final(out)@ == old(out)@ + value_bytes(type_@, value@),
        fits_wire(type_@, seq![value@]),
        *final(state) == *old(state),
    decreases type_, 0nat, 1nat,
{
    let mut one: Vec<Value> = Vec::new();
    one.push(value.duplicate());
    assert(value_models(one@) =~= seq![value@]);
    write_n(type_, one.as_slice(), out, state)
}

/// Appends the bytes of a column of maps to `out`: the offsets of the rows,
/// then the column of all keys, then the column of all values.
pub fn write_n(type_: &Type, values: &[Value], out: &mut Vec<u8>, state: &mut SerializerState)
    requires
        type_@ is Mapping,
        all_writable(type_@, value_models(values@)),
    ensures
        final(out)@ == old(out)@ + column_bytes(type_@, value_models(values@)),
        fits_wire(type_@, value_models(values@)),
        *final(state) == *old(state),
    decreases type_, 0nat, 0nat,
{
    match type_ {
        Type::Mapping(key_type, value_type) => {
            let ghost models = value_models(values@);
            let mut keys: Vec<Value> = Vec::new();
            let mut items: Vec<Value> = Vec::new();
            let mut i: usize = 0;
            assert(value_models(keys@) =~= flat_keys(models.take(0)));
            assert(value_models(items@) =~= flat_values(models.take(0)));
            assert(out@ =~= old(out)@ + offsets_bytes(offsets(models.take(0))));
            while i < values.len()
                invariant
                    i <= values.len(),
                    models == value_models(values@),
                    *state == *old(state),
                    type_@ == crate::types::SpecType::Mapping(
                        Box::new(key_type@),
                        Box::new(value_type@),
                    ),
                    all_writable(type_@, models),
                    value_models(keys@) == flat_keys(models.take(i as int)),
                    value_models(items@) == flat_values(models.take(i as int)),
                    keys.len() == total_len(models.take(i as int)),
                    out@ == old(out)@ + offsets_bytes(offsets(models.take(i as int))),
                    all_writable(key_type@, value_models(keys@)),
                    all_writable(value_type@, value_models(items@)),
                decreases values.len() - i,
            {
                let ghost next = models.take(i + 1);
                let ghost done_keys = value_models(keys@);
                let ghost done_items = value_models(items@);
                proof {
                    assert(next.drop_last() =~= models.take(i as int));
                    assert(next.last() == values[i as int]@);
                    assert(models[i as int] == values[i as int]@);
                    assert(writable(type_@, models[i as int]));
                }
                match &values[i] {
                    Value::Mapping(ks, vs) => {
                        proof {
                            crate::values::lemma_container_models(*ks, *vs);
                            assert(values[i as int]@->Mapping_0 == value_models(ks@));
                            assert(values[i as int]@->Mapping_1 == value_models(vs@));
                        }
                        append_copies(&mut keys, ks);
                        append_copies(&mut items, vs);
                        proof {
                            let row_keys = value_models(ks@);
                            let row_items = value_models(vs@);
                            assert forall|k: int| 0 <= k < value_models(keys@).len() implies writable(
                                key_type@,
                                #[trigger] value_models(keys@)[k],
                            ) by {
                                if k < done_keys.len() {
                                    assert(value_models(keys@)[k] == done_keys[k]);
                                } else {
                                    assert(value_models(keys@)[k] == row_keys[k - done_keys.len()]);
                                    assert(writable(
                                        key_type@,
                                        values[i as int]@->Mapping_0[k - done_keys.len()],
                                    ));
                                }
                            }
                            assert forall|k: int| 0 <= k < value_models(items@).len() implies writable(
                                value_type@,
                                #[trigger] value_models(items@)[k],
                            ) by {
                                if k < done_items.len() {
                                    assert(value_models(items@)[k] == done_items[k]);
                                } else {
                                    assert(value_models(items@)[k] == row_items[k
                                        - done_items.len()]);
                                    assert(writable(
                                        value_type@,
                                        values[i as int]@->Mapping_1[k - done_items.len()],
                                    ));
                                }
                            }
                        }
                    },
                    _ => {
                        assert(false);
                    },
                }
                put_uint(out, keys.len() as u128, 8);
                proof {
                    assert(value_models(keys@).len() == keys.len());
                    assert(total_len(next) == total_len(models.take(i as int)) + crate::types::layout::row_len(
                        next.last(),
                    ));
                    assert(total_len(next) == keys.len());
                    assert(offsets(next) == offsets(models.take(i as int)).push(total_len(next)));
                    assert(offsets(next).drop_last() =~= offsets(models.take(i as int)));
                    assert(offsets(next).last() == keys.len());
                    assert(out@ =~= old(out)@ + offsets_bytes(offsets(next)));
                }
                i += 1;
            }
            assert(models.take(values.len() as int) =~= models);
            key_type.write_column(keys.as_slice(), out, state);
            value_type.write_column(items.as_slice(), out, state);
            assert(out@ =~= old(out)@ + column_bytes(type_@, models));
        },
        _ => {
            assert(false);
        },
    }
}

} // verus!

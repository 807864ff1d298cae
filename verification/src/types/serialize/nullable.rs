//! Writing nullable columns.

use crate::types::{SpecType, Type};
use crate::types::defaults::default_of;
use crate::types::layout::{
    all_writable, column_bytes, fill_nulls, fits_wire, null_mask, prefix_bytes, value_bytes,
    writable,
};
use crate::types::serialize::SerializerState;
use crate::values::{value_models, Value};
use vstd::prelude::*;

verus! {

/// The stand-in for a missing value can be written.
pub proof fn lemma_default_writable(t: SpecType)
    ensures
        writable(t, default_of(t)),
    decreases t,
{
    match t {
        SpecType::LowCardinality(x) => {
            lemma_default_writable(*x);
        },
        SpecType::Tuple(ts) => {
            let d = default_of(t);
            assert forall|i: int| 0 <= i < ts.len() implies writable(
                #[trigger] ts[i],
                d->Tuple_0[i],
            ) by {
                lemma_default_writable(ts[i]);
            }
        },
        SpecType::FixedString(n) => {
            assert(vstd::utf8::encode_utf8(Seq::<char>::empty()).len() == 0) by {
                reveal_with_fuel(vstd::utf8::encode_utf8, 1);
            }
        },
        _ => {},
    }
}

/// Writes what stands before a nullable column: what stands before a column of
/// the type underneath.
pub fn write_prefix(type_: &Type, out: &mut Vec<u8>, state: &mut SerializerState)
    requires
        type_@ is Nullable,
    ensures
        final(out)@ == old(out)@ + prefix_bytes(type_@),
        *final(state) == *old(state),
    decreases type_, 0nat, 0nat,
{
    match type_ {
        Type::Nullable(inner) => inner.write_prefix(out, state),
        _ => {
            assert(false);
        },
    }
}

/// Writes one nullable value on its own: a column of one row.
pub fn write(type_: &Type, value: &Value, out: &mut Vec<u8>, state: &mut SerializerState)
    requires
        type_@ is Nullable,
        writable(type_@, value@),
    ensures
        final(out)@ == old(out)@ + value_bytes(type_@, value@),
        fits_wire(type_@, seq![value@]),
        *final(state) == *old(state),
    decreases type_, 0nat, 1nat,
{
    let mut one: Vec<Value> = Vec::new();
    one.push(value.duplicate());
    assert(value_models(one@) =~= seq![value@]);
    write_n(type_, one.as_slice(), out, state)
}

/// Appends the bytes of a nullable column to `out`: one mask byte for each
/// row, then the column of the type underneath, with a stand-in in place of
/// each `Null`.
pub fn write_n(type_: &Type, values: &[Value], out: &mut Vec<u8>, state: &mut SerializerState)
    requires
        type_@ is Nullable,
        all_writable(type_@, value_models(values@)),
    ensures
        final(out)@ == old(out)@ + column_bytes(type_@, value_models(values@)),
        fits_wire(type_@, value_models(values@)),
        *final(state) == *old(state),
    decreases type_, 0nat, 0nat,
{
    match type_ {
        Type::Nullable(inner) => {
            let ghost models = value_models(values@);
            let mut filled: Vec<Value> = Vec::new();
            let mut i: usize = 0;
            assert(out@ =~= old(out)@ + null_mask(models).take(0));
            while i < values.len()
                invariant
                    i <= values.len(),
                    models == value_models(values@),
                    *state == *old(state),
                    type_@ == SpecType::Nullable(Box::new(inner@)),
                    all_writable(type_@, models),
                    filled.len() == i,
                    forall|k: int|
                        0 <= k < i ==> (#[trigger] filled[k])@ == fill_nulls(inner@, models)[k],
                    out@ == old(out)@ + null_mask(models).take(i as int),
                decreases values.len() - i,
            {
                assert(models[i as int] == values[i as int]@);
                match &values[i] {
                    Value::Null => {
                        out.push(1u8);
                        filled.push(inner.default_value());
                    },
                    value => {
                        out.push(0u8);
                        filled.push(value.duplicate());
                    },
                }
                assert(null_mask(models).take(i + 1) =~= null_mask(models).take(i as int).push(
                    null_mask(models)[i as int],
                ));
                i += 1;
            }
            assert(null_mask(models).take(values.len() as int) =~= null_mask(models));
            proof {
                let f = fill_nulls(inner@, models);
                assert(value_models(filled@) =~= f);
                assert forall|k: int| 0 <= k < f.len() implies writable(inner@, #[trigger] f[k]) by {
                    if models[k] is Null {
                        lemma_default_writable(inner@);
                    } else {
                        assert(writable(type_@, models[k]));
                    }
                }
            }
            inner.write_column(filled.as_slice(), out, state);
            assert(out@ =~= old(out)@ + column_bytes(type_@, models));
        },
        _ => {
            assert(false);
        },
    }
}

} // verus!

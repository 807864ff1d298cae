//! Writing columns of strings.

use crate::types::Type;
use crate::types::layout::{
    all_writable, fixed_string_bytes, prefix_bytes, scalar_bytes, scalar_fits, scalars_bytes,
    scalars_fit, string_bytes, writable,
};
use crate::types::serialize::SerializerState;
use crate::values::{value_models, Value};
use crate::wire::{put_bytes, put_varint, put_zeros};
use vstd::prelude::*;

verus! {

/// Writes what stands before a column of strings: nothing.
pub fn write_prefix(type_: &Type, out: &mut Vec<u8>, state: &mut SerializerState)
    requires
        type_@.is_text(),
    ensures
        final(out)@ == old(out)@ + prefix_bytes(type_@),
        *final(state) == *old(state),
{
    assert(out@ =~= old(out)@ + prefix_bytes(type_@));
}

/// Appends the bytes of one string to `out`: with its length before it for
/// `String`, filled up with zeros for `FixedString`.
pub fn write(type_: &Type, value: &Value, out: &mut Vec<u8>, state: &mut SerializerState)
    requires
        type_@.is_text(),
        writable(type_@, value@),
    ensures
        final(out)@ == old(out)@ + scalar_bytes(type_@, value@),
        scalar_fits(type_@, value@),
        *final(state) == *old(state),
{
    match (type_, value) {
        (Type::String, Value::String(s)) => {
            let bytes = s.as_str().as_bytes();
            put_varint(out, bytes.len() as u64);
            put_bytes(out, bytes);
            assert(out@ =~= old(out)@ + string_bytes(s@));
        },
        (Type::FixedString(n), Value::String(s)) => {
            let bytes = s.as_str().as_bytes();
            put_bytes(out, bytes);
            put_zeros(out, *n - bytes.len());
            assert(out@ =~= old(out)@ + fixed_string_bytes(s@, *n as nat));
        },
        _ => {
            assert(false);
        },
    }
}

/// Appends the bytes of a column of strings to `out`: its values one after
/// the other.
pub fn write_n(type_: &Type, values: &[Value], out: &mut Vec<u8>, state: &mut SerializerState)
    requires
        type_@.is_text(),
        all_writable(type_@, value_models(values@)),
    ensures
        final(out)@ == old(out)@ + scalars_bytes(type_@, value_models(values@)),
        scalars_fit(type_@, value_models(values@)),
        *final(state) == *old(state),
{
    let ghost models = value_models(values@);
    let mut i: usize = 0;
    assert(out@ =~= old(out)@ + scalars_bytes(type_@, models.take(0)));
    while i < values.len()
        invariant
            i <= values.len(),
            type_@.is_text(),
            models == value_models(values@),
            all_writable(type_@, models),
            *state == *old(state),
            out@ == old(out)@ + scalars_bytes(type_@, models.take(i as int)),
            forall|k: int| 0 <= k < i ==> scalar_fits(type_@, #[trigger] models[k]),
        decreases values.len() - i,
    {
        assert(models[i as int] == values[i as int]@);
        write(type_, &values[i], out, state);
        proof {
            let next = models.take(i + 1);
            assert(next.drop_last() =~= models.take(i as int));
            assert(next.last() == values[i as int]@);
            assert(out@ =~= old(out)@ + scalars_bytes(type_@, next));
        }
        i += 1;
    }
    assert(models.take(values.len() as int) =~= models);
}

} // verus!

//! Writing columns of sized types.

use crate::types::Type;
use crate::types::layout::{is_sized, prefix_bytes, scalars_bytes, scalars_fit, sized_bytes};
use crate::types::serialize::SerializerState;
use crate::values::{value_models, Value};
use crate::wire::{lemma_pow256_values, put_bytes, put_uint, twos_of};
use vstd::prelude::*;

verus! {

/// Appends the bytes of a signed number of `width` bytes to `out`.
fn put_int(out: &mut Vec<u8>, x: i128, width: usize)
    requires
        crate::wire::machine_width(width as nat),
        -(crate::wire::pow256(width as nat) as int) <= 2 * x < crate::wire::pow256(width as nat),
    ensures
        final(out)@ == old(out)@ + crate::wire::le_bytes(
            crate::wire::twos(x as int, width as nat),
            width as nat,
        ),
{
    let u = twos_of(x, width);
    put_uint(out, u, width);
}

/// Writes what stands before a column of a sized type: nothing.
pub fn write_prefix(type_: &Type, out: &mut Vec<u8>, state: &mut SerializerState)
    requires
        is_sized(type_@),
    ensures
        final(out)@ == old(out)@ + prefix_bytes(type_@),
        *final(state) == *old(state),
{
    assert(out@ =~= old(out)@ + prefix_bytes(type_@));
}

/// Appends the bytes of one value of a sized type to `out`. A value of
/// another kind has none.
pub fn write(value: &Value, out: &mut Vec<u8>, state: &mut SerializerState)
    ensures
        final(out)@ == old(out)@ + sized_bytes(value@),
        *final(state) == *old(state),
{
    proof {
        lemma_pow256_values();
    }
    match value {
        Value::Int8(x) => put_int(out, *x as i128, 1),
        Value::Int16(x) => put_int(out, *x as i128, 2),
        Value::Int32(x) => put_int(out, *x as i128, 4),
        Value::Int64(x) => put_int(out, *x as i128, 8),
        Value::Int128(x) => put_int(out, *x, 16),
        Value::Int256(x) => put_bytes(out, x.0.as_slice()),
        Value::UInt8(x) => put_uint(out, *x as u128, 1),
        Value::UInt16(x) => put_uint(out, *x as u128, 2),
        Value::UInt32(x) => put_uint(out, *x as u128, 4),
        Value::UInt64(x) => put_uint(out, *x as u128, 8),
        Value::UInt128(x) => put_uint(out, *x, 16),
        Value::UInt256(x) => put_bytes(out, x.0.as_slice()),
        Value::Float32(x) => put_uint(out, *x as u128, 4),
        Value::Float64(x) => put_uint(out, *x as u128, 8),
        Value::Decimal32(_, x) => put_int(out, *x as i128, 4),
        Value::Decimal64(_, x) => put_int(out, *x as i128, 8),
        Value::Decimal128(_, x) => put_int(out, *x, 16),
        Value::Decimal256(_, x) => put_bytes(out, x.0.as_slice()),
        Value::Uuid(x) => {
            let n = x.as_u128();
            put_uint(out, n / 0x1_0000_0000_0000_0000, 8);
            put_uint(out, n % 0x1_0000_0000_0000_0000, 8);
            assert(out@ =~= old(out)@ + sized_bytes(value@));
        },
        Value::Date(x) => put_uint(out, x.0 as u128, 2),
        Value::DateTime(x) => put_uint(out, x.1 as u128, 4),
        Value::DateTime64(_, _, x) => put_int(out, *x as i128, 8),
        Value::Ipv4(x) => put_uint(out, x.0 as u128, 4),
        Value::Ipv6(x) => put_bytes(out, x.0.as_slice()),
        Value::Enum8(x) => put_int(out, *x as i128, 1),
        Value::Enum16(x) => put_int(out, *x as i128, 2),
        _ => {
            assert(out@ =~= old(out)@ + sized_bytes(value@));
        },
    }
}

/// Appends the bytes of a column of a sized type to `out`: its values one
/// after the other.
pub fn write_n(type_: &Type, values: &[Value], out: &mut Vec<u8>, state: &mut SerializerState)
    requires
        is_sized(type_@),
    ensures
        final(out)@ == old(out)@ + scalars_bytes(type_@, value_models(values@)),
        scalars_fit(type_@, value_models(values@)),
        *final(state) == *old(state),
{
    let ghost models = value_models(values@);
    let mut i: usize = 0;
    assert(out@ =~= old(out)@ + scalars_bytes(type_@, models.take(0)));
    while i < values.len()
        invariant
            i <= values.len(),
            is_sized(type_@),
            models == value_models(values@),
            *state == *old(state),
            out@ == old(out)@ + scalars_bytes(type_@, models.take(i as int)),
        decreases values.len() - i,
    {
        write(&values[i], out, state);
        proof {
            let next = models.take(i + 1);
            assert(next.drop_last() =~= models.take(i as int));
            assert(next.last() == values[i as int]@);
            assert(out@ =~= old(out)@ + scalars_bytes(type_@, next));
        }
        i += 1;
    }
    assert(models.take(values.len() as int) =~= models);
}

} // verus!

//! Reading columns of sized types.

use crate::errors::{Error, ErrorKind};
use crate::types::Type;
use crate::types::deserialize::{column_read, prefix_read, DeserializerState};
use crate::types::layout::{is_sized, two_64};
use crate::types::reading::{read_scalar, read_scalars};
use crate::values::{i256, u256, value_models, Date, DateTime, Ipv4, Ipv6, SpecValue, Uuid, Value};
use crate::wire::{
    le_value, lemma_le_value_bound, lemma_le_value_concat, lemma_pow256_values, pow256, untwos_of,
    Reader,
};
use vstd::prelude::*;

verus! {

/// Reads thirty-two bytes.
fn read_32(reader: &mut Reader) -> (r: Result<[u8; 32], Error>)
    requires
        old(reader).wf(),
    ensures
        final(reader).wf(),
        final(reader).data() == old(reader).data(),
        old(reader).pos() + 32 <= old(reader).data().len() <==> r is Ok,
        r matches Ok(a) ==> final(reader).pos() == old(reader).pos() + 32 && a@ == old(
            reader,
        ).data().subrange(old(reader).pos(), old(reader).pos() + 32),
        r matches Err(e) ==> e.kind == ErrorKind::ProtocolError,
{
    let bytes = reader.read_bytes(32)?;
    let mut a = [0u8; 32];
    let mut i: usize = 0;
    while i < 32
        invariant
            i <= 32,
            bytes.len() == 32,
            forall|j: int| 0 <= j < i ==> a[j] == bytes[j],
        decreases 32 - i,
    {
        a[i] = bytes[i];
        i += 1;
    }
    assert(a@ =~= bytes@);
    Ok(a)
}

/// Reads sixteen bytes.
fn read_16(reader: &mut Reader) -> (r: Result<[u8; 16], Error>)
    requires
        old(reader).wf(),
    ensures
        final(reader).wf(),
        final(reader).data() == old(reader).data(),
        old(reader).pos() + 16 <= old(reader).data().len() <==> r is Ok,
        r matches Ok(a) ==> final(reader).pos() == old(reader).pos() + 16 && a@ == old(
            reader,
        ).data().subrange(old(reader).pos(), old(reader).pos() + 16),
        r matches Err(e) ==> e.kind == ErrorKind::ProtocolError,
{
    let bytes = reader.read_bytes(16)?;
    let mut a = [0u8; 16];
    let mut i: usize = 0;
    while i < 16
        invariant
            i <= 16,
            bytes.len() == 16,
            forall|j: int| 0 <= j < i ==> a[j] == bytes[j],
        decreases 16 - i,
    {
        a[i] = bytes[i];
        i += 1;
    }
    assert(a@ =~= bytes@);
    Ok(a)
}

/// Reads a signed number of `width` bytes.
fn read_int(reader: &mut Reader, width: usize) -> (r: Result<i128, Error>)
    requires
        old(reader).wf(),
        crate::wire::machine_width(width as nat),
    ensures
        final(reader).wf(),
        final(reader).data() == old(reader).data(),
        old(reader).pos() + width <= old(reader).data().len() <==> r is Ok,
        r matches Ok(x) ==> {
            &&& final(reader).pos() == old(reader).pos() + width
            &&& x as int == crate::wire::untwos(
                le_value(
                    old(reader).data().subrange(old(reader).pos(), old(reader).pos() + width),
                ),
                width as nat,
            )
            &&& -(pow256(width as nat) as int) <= 2 * x < pow256(width as nat)
        },
        r matches Err(e) ==> e.kind == ErrorKind::ProtocolError,
{
    let u = reader.read_uint(width)?;
    Ok(untwos_of(u, width))
}

/// The two halves of sixteen bytes, each read as a number.
proof fn lemma_halves(b: Seq<u8>)
    requires
        b.len() == 16,
    ensures
        le_value(b.subrange(0, 8)) == le_value(b) % two_64(),
        le_value(b.subrange(8, 16)) == le_value(b) / two_64(),
        le_value(b.subrange(0, 8)) < two_64(),
        le_value(b.subrange(8, 16)) < two_64(),
{
    let lo = b.subrange(0, 8);
    let hi = b.subrange(8, 16);
    assert(lo + hi =~= b);
    lemma_le_value_concat(lo, hi);
    lemma_le_value_bound(lo);
    lemma_le_value_bound(hi);
    lemma_pow256_values();
    let x = le_value(lo);
    let y = le_value(hi);
    assert((x + two_64() * y) % two_64() == x && (x + two_64() * y) / two_64() == y)
        by (nonlinear_arith)
        requires
            0 <= x < two_64(),
            two_64() > 0,
    ;
}

/// Reads what stands before a column of a sized type: nothing.
pub fn read_prefix(type_: &Type, reader: &mut Reader, state: &mut DeserializerState) -> (r: Result<
    (),
    Error,
>)
    requires
        old(reader).wf(),
        is_sized(type_@),
    ensures
        prefix_read(type_@, *old(reader), *final(reader), r),
        *final(state) == *old(state),
{
    Ok(())
}

/// Reads one value of a sized type.
pub fn read(type_: &Type, reader: &mut Reader, state: &mut DeserializerState) -> (r: Result<
    Value,
    Error,
>)
    requires
        old(reader).wf(),
        is_sized(type_@),
    ensures
        final(reader).wf(),
        final(reader).data() == old(reader).data(),
        match read_scalar(type_@, old(reader).data(), old(reader).pos()) {
            Some((v, end)) => r matches Ok(x) && x@ == v && final(reader).pos() == end,
            None => r matches Err(e) && e.kind == ErrorKind::ProtocolError,
        },
        *final(state) == *old(state),
{
    proof {
        lemma_pow256_values();
    }
    let ghost data = reader.data();
    let ghost pos = reader.pos();
    Ok(
        match type_ {
            Type::Int8 => Value::Int8(read_int(reader, 1)? as i8),
            Type::Int16 => Value::Int16(read_int(reader, 2)? as i16),
            Type::Int32 => Value::Int32(read_int(reader, 4)? as i32),
            Type::Int64 => Value::Int64(read_int(reader, 8)? as i64),
            Type::Int128 => Value::Int128(read_int(reader, 16)?),
            Type::Int256 => Value::Int256(i256(read_32(reader)?)),
            Type::UInt8 => Value::UInt8(reader.read_uint(1)? as u8),
            Type::UInt16 => Value::UInt16(reader.read_uint(2)? as u16),
            Type::UInt32 => Value::UInt32(reader.read_uint(4)? as u32),
            Type::UInt64 => Value::UInt64(reader.read_uint(8)? as u64),
            Type::UInt128 => Value::UInt128(reader.read_uint(16)?),
            Type::UInt256 => Value::UInt256(u256(read_32(reader)?)),
            Type::Float32 => Value::Float32(reader.read_uint(4)? as u32),
            Type::Float64 => Value::Float64(reader.read_uint(8)? as u64),
            Type::Decimal32(s) => Value::Decimal32(*s, read_int(reader, 4)? as i32),
            Type::Decimal64(s) => Value::Decimal64(*s, read_int(reader, 8)? as i64),
            Type::Decimal128(s) => Value::Decimal128(*s, read_int(reader, 16)?),
            Type::Decimal256(s) => Value::Decimal256(*s, i256(read_32(reader)?)),
            Type::Uuid => {
                let x = reader.read_uint(16)?;
                proof {
                    lemma_halves(data.subrange(pos, pos + 16));
                }
                let high = x % 0x1_0000_0000_0000_0000;
                let low = x / 0x1_0000_0000_0000_0000;
                Value::Uuid(Uuid::from_u128(high * 0x1_0000_0000_0000_0000 + low))
            },
            Type::Date => Value::Date(Date(reader.read_uint(2)? as u16)),
            Type::DateTime(tz) => Value::DateTime(
                DateTime(tz.clone(), reader.read_uint(4)? as u32),
            ),
            Type::DateTime64(precision, tz) => Value::DateTime64(
                tz.clone(),
                *precision,
                read_int(reader, 8)? as i64,
            ),
            Type::Ipv4 => Value::Ipv4(Ipv4(reader.read_uint(4)? as u32)),
            Type::Ipv6 => Value::Ipv6(Ipv6(read_16(reader)?)),
            Type::Enum8(_) => Value::Enum8(read_int(reader, 1)? as i8),
            Type::Enum16(_) => Value::Enum16(read_int(reader, 2)? as i16),
            _ => {
                assert(false);
                Value::Null
            },
        },
    )
}

/// Reads a column of a sized type: `rows` values one after the other.
pub fn read_n(
    type_: &Type,
    reader: &mut Reader,
    rows: usize,
    state: &mut DeserializerState,
) -> (r: Result<Vec<Value>, Error>)
    requires
        old(reader).wf(),
        is_sized(type_@),
    ensures
        column_read(type_@, *old(reader), *final(reader), rows as nat, r),
        *final(state) == *old(state),
{
    let ghost data = reader.data();
    let ghost start = reader.pos();
    let mut out: Vec<Value> = Vec::new();
    let mut i: usize = 0;
    assert(value_models(out@) =~= Seq::<SpecValue>::empty());
    while i < rows
        invariant
            i <= rows,
            is_sized(type_@),
            reader.wf(),
            reader.data() == data,
            data == old(reader).data(),
            start == old(reader).pos(),
            *state == *old(state),
            out.len() == i,
            read_scalars(type_@, data, start, i as nat) == Some((value_models(out@), reader.pos())),
        decreases rows - i,
    {
        let ghost before = out@;
        match read(type_, reader, state) {
            Ok(v) => {
                out.push(v);
                proof {
                    crate::values::lemma_value_models_push(before, v);
                }
            },
            Err(e) => {
                proof {
                    crate::types::deserialize::lemma_read_scalars_fail(
                        type_@,
                        data,
                        start,
                        (i + 1) as nat,
                        rows as nat,
                    );
                }
                return Err(e);
            },
        }
        i += 1;
    }
    Ok(out)
}

} // verus!

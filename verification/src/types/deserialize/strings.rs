//! Reading columns of strings.

use crate::errors::{Error, ErrorKind};
use crate::types::Type;
use crate::types::deserialize::{
    column_read, lemma_read_scalars_fail, prefix_read, DeserializerState,
};
use crate::types::reading::{read_scalar, read_scalars, read_text};
use crate::values::{value_models, SpecValue, Value};
use crate::wire::{protocol_error, Reader};
use vstd::prelude::*;
use vstd::utf8::{decode_utf8, valid_utf8};

verus! {

/// Turns bytes into a string with `String::from_utf8`, which succeeds
/// exactly on valid UTF-8 and then gives the string that the bytes encode.
#[verifier::external_body]
fn string_from_utf8(bytes: Vec<u8>) -> (r: Option<String>)
    ensures
        r is Some <==> valid_utf8(bytes@),
        r matches Some(s) ==> s@ == decode_utf8(bytes@),
{
    String::from_utf8(bytes).ok()
}

/// Reads `n` bytes as a string.
fn read_string(reader: &mut Reader, n: usize) -> (r: Result<Value, Error>)
    requires
        old(reader).wf(),
    ensures
        final(reader).wf(),
        final(reader).data() == old(reader).data(),
        match read_text(old(reader).data(), old(reader).pos(), old(reader).pos() + n) {
            Some(v) => r matches Ok(x) && x@ == v && final(reader).pos() == old(reader).pos() + n,
            None => r matches Err(e) && e.kind == ErrorKind::ProtocolError,
        },
{
    let bytes = reader.read_bytes(n)?;
    match string_from_utf8(bytes) {
        Some(s) => Ok(Value::String(s)),
        None => Err(protocol_error("string is not UTF-8")),
    }
}

/// Reads what stands before a column of strings: nothing.
pub fn read_prefix(type_: &Type, reader: &mut Reader, state: &mut DeserializerState) -> (r: Result<
    (),
    Error,
>)
    requires
        old(reader).wf(),
        type_@.is_text(),
    ensures
        prefix_read(type_@, *old(reader), *final(reader), r),
        *final(state) == *old(state),
{
    Ok(())
}

/// Reads one string: its length first for `String`, the type's width for
/// `FixedString`.
pub fn read(type_: &Type, reader: &mut Reader, state: &mut DeserializerState) -> (r: Result<
    Value,
    Error,
>)
    requires
        old(reader).wf(),
        type_@.is_text(),
    ensures
        final(reader).wf(),
        final(reader).data() == old(reader).data(),
        match read_scalar(type_@, old(reader).data(), old(reader).pos()) {
            Some((v, end)) => r matches Ok(x) && x@ == v && final(reader).pos() == end,
            None => r matches Err(e) && e.kind == ErrorKind::ProtocolError,
        },
        *final(state) == *old(state),
{
    match type_ {
        Type::String => {
            let len = reader.read_varint()?;
            if len > reader.remaining() as u64 {
                return Err(protocol_error("unexpected end of data"));
            }
            read_string(reader, len as usize)
        },
        Type::FixedString(n) => read_string(reader, *n),
        _ => {
            assert(false);
            Err(protocol_error("not a string type"))
        },
    }
}

/// Reads a column of strings: `rows` values one after the other.
pub fn read_n(
    type_: &Type,
    reader: &mut Reader,
    rows: usize,
    state: &mut DeserializerState,
) -> (r: Result<Vec<Value>, Error>)
    requires
        old(reader).wf(),
        type_@.is_text(),
    ensures
        column_read(type_@, *old(reader), *final(reader), rows as nat, r),
        *final(state) == *old(state),
{
    let ghost data = reader.data();
    let ghost start = reader.pos();
    let mut out: Vec<Value> = Vec::new();
    let mut i: usize = 0;
    assert(value_models(out@) =~= Seq::<SpecValue>::empty());
    while i < rows
        invariant
            i <= rows,
            type_@.is_text(),
            reader.wf(),
            reader.data() == data,
            data == old(reader).data(),
            start == old(reader).pos(),
            *state == *old(state),
            out.len() == i,
            read_scalars(type_@, data, start, i as nat) == Some((value_models(out@), reader.pos())),
        decreases rows - i,
    {
        let ghost before = out@;
        match read(type_, reader, state) {
            Ok(v) => {
                out.push(v);
                proof {
                    crate::values::lemma_value_models_push(before, v);
                }
            },
            Err(e) => {
                proof {
                    lemma_read_scalars_fail(type_@, data, start, (i + 1) as nat, rows as nat);
                }
                return Err(e);
            },
        }
        i += 1;
    }
    Ok(out)
}

} // verus!

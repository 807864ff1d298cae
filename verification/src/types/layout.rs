//! What columns look like on the wire: the bytes of each kind of column, as
//! functions of the column's type and values.

use crate::types::SpecType;
use crate::types::defaults::default_of;
use crate::values::{zeros, SpecValue};
use crate::wire::{le_bytes, twos, varint_bytes};
use vstd::prelude::*;
use vstd::utf8::encode_utf8;

verus! {

/// The tag that opens a `LowCardinality` column: dictionaries are not shared
/// between columns, and each column brings its own keys.
pub const LOW_CARDINALITY_VERSION: u64 = 1;

/// Flag of a `LowCardinality` column: the keys are in a global dictionary.
pub const NEED_GLOBAL_DICTIONARY_BIT: u64 = 256;

/// Flag of a `LowCardinality` column: the column brings its own keys.
pub const HAS_ADDITIONAL_KEYS_BIT: u64 = 512;

/// Flag of a `LowCardinality` column: the reader is to take up the keys.
pub const NEED_UPDATE_DICTIONARY_BIT: u64 = 1024;

/// Two to the power 64.
pub open spec fn two_64() -> nat {
    0x1_0000_0000_0000_0000
}

// ---------------------------------------------------------------------------
// Which values can be written

/// Whether a value has the shape that the wire form of the type takes: the
/// variant is the type's, a fixed string fits its width, a tuple has as many
/// members as its type, a map as many keys as values, `Nullable` admits
/// `Null` besides, and the members of a container have their shapes.
pub open spec fn writable(t: SpecType, v: SpecValue) -> bool
    decreases t,
{
    match t {
        SpecType::Int8 => v is Int8,
        SpecType::Int16 => v is Int16,
        SpecType::Int32 => v is Int32,
        SpecType::Int64 => v is Int64,
        SpecType::Int128 => v is Int128,
        SpecType::Int256 => v is Int256 && v->Int256_0.len() == 32,
        SpecType::UInt8 => v is UInt8,
        SpecType::UInt16 => v is UInt16,
        SpecType::UInt32 => v is UInt32,
        SpecType::UInt64 => v is UInt64,
        SpecType::UInt128 => v is UInt128,
        SpecType::UInt256 => v is UInt256 && v->UInt256_0.len() == 32,
        SpecType::Float32 => v is Float32,
        SpecType::Float64 => v is Float64,
        SpecType::Decimal32(_) => v is Decimal32,
        SpecType::Decimal64(_) => v is Decimal64,
        SpecType::Decimal128(_) => v is Decimal128,
        SpecType::Decimal256(_) => v is Decimal256 && v->Decimal256_1.len() == 32,
        SpecType::String => v is String,
        SpecType::FixedString(n) => v is String && encode_utf8(v->String_0).len() <= n,
        SpecType::Uuid => v is Uuid,
        SpecType::Date => v is Date,
        SpecType::DateTime(_) => v is DateTime,
        SpecType::DateTime64(_, _) => v is DateTime64,
        SpecType::Ipv4 => v is Ipv4,
        SpecType::Ipv6 => v is Ipv6 && v->Ipv6_0.len() == 16,
        SpecType::Enum8(_) => v is Enum8,
        SpecType::Enum16(_) => v is Enum16,
        SpecType::LowCardinality(x) => writable(*x, v),
        SpecType::Array(x) => v is Array && forall|i: int|
            0 <= i < v->Array_0.len() ==> writable(*x, #[trigger] v->Array_0[i]),
        SpecType::Tuple(ts) => v is Tuple && v->Tuple_0.len() == ts.len() && forall|i: int|
            0 <= i < ts.len() ==> writable(#[trigger] ts[i], v->Tuple_0[i]),
        SpecType::Nullable(x) => v is Null || writable(*x, v),
        SpecType::Mapping(k, x) => {
            &&& v is Mapping
            &&& v->Mapping_0.len() == v->Mapping_1.len()
            &&& forall|i: int|
                0 <= i < v->Mapping_0.len() ==> writable(*k, #[trigger] v->Mapping_0[i])
            &&& forall|i: int|
                0 <= i < v->Mapping_1.len() ==> writable(*x, #[trigger] v->Mapping_1[i])
        },
    }
}

/// Whether each value of a column can be written.
pub open spec fn all_writable(t: SpecType, vals: Seq<SpecValue>) -> bool {
    forall|i: int| 0 <= i < vals.len() ==> writable(t, #[trigger] vals[i])
}

// ---------------------------------------------------------------------------
// Scalars

/// The types whose values take a fixed number of bytes that the type decides.
pub open spec fn is_sized(t: SpecType) -> bool {
    !t.is_text() && !t.is_composite()
}

/// The number of bytes that a value of a sized type takes.
pub open spec fn sized_width(t: SpecType) -> nat {
    match t {
        SpecType::Int8 | SpecType::UInt8 | SpecType::Enum8(_) => 1,
        SpecType::Int16 | SpecType::UInt16 | SpecType::Date | SpecType::Enum16(_) => 2,
        SpecType::Int32
        | SpecType::UInt32
        | SpecType::Float32
        | SpecType::Decimal32(_)
        | SpecType::DateTime(_)
        | SpecType::Ipv4 => 4,
        SpecType::Int64
        | SpecType::UInt64
        | SpecType::Float64
        | SpecType::Decimal64(_)
        | SpecType::DateTime64(_, _) => 8,
        SpecType::Int128
        | SpecType::UInt128
        | SpecType::Decimal128(_)
        | SpecType::Uuid
        | SpecType::Ipv6 => 16,
        SpecType::Int256 | SpecType::UInt256 | SpecType::Decimal256(_) => 32,
        _ => 0,
    }
}

/// The bytes of a value of a sized type: numbers little-endian, signed ones in
/// two's complement, a UUID as its high half then its low half, an IPv6
/// address as it stands. The scale of a decimal and the zone of a time are
/// not written.
pub open spec fn sized_bytes(v: SpecValue) -> Seq<u8> {
    match v {
        SpecValue::Int8(x) => le_bytes(twos(x as int, 1), 1),
        SpecValue::Int16(x) => le_bytes(twos(x as int, 2), 2),
        SpecValue::Int32(x) => le_bytes(twos(x as int, 4), 4),
        SpecValue::Int64(x) => le_bytes(twos(x as int, 8), 8),
        SpecValue::Int128(x) => le_bytes(twos(x as int, 16), 16),
        SpecValue::Int256(b) => b,
        SpecValue::UInt8(x) => le_bytes(x as nat, 1),
        SpecValue::UInt16(x) => le_bytes(x as nat, 2),
        SpecValue::UInt32(x) => le_bytes(x as nat, 4),
        SpecValue::UInt64(x) => le_bytes(x as nat, 8),
        SpecValue::UInt128(x) => le_bytes(x as nat, 16),
        SpecValue::UInt256(b) => b,
        SpecValue::Float32(x) => le_bytes(x as nat, 4),
        SpecValue::Float64(x) => le_bytes(x as nat, 8),
        SpecValue::Decimal32(_, x) => le_bytes(twos(x as int, 4), 4),
        SpecValue::Decimal64(_, x) => le_bytes(twos(x as int, 8), 8),
        SpecValue::Decimal128(_, x) => le_bytes(twos(x as int, 16), 16),
        SpecValue::Decimal256(_, b) => b,
        SpecValue::Uuid(u) => le_bytes(u.0 as nat / two_64(), 8) + le_bytes(
            u.0 as nat % two_64(),
            8,
        ),
        SpecValue::Date(d) => le_bytes(d.0 as nat, 2),
        SpecValue::DateTime(_, s) => le_bytes(s as nat, 4),
        SpecValue::DateTime64(_, _, x) => le_bytes(twos(x as int, 8), 8),
        SpecValue::Ipv4(a) => le_bytes(a.0 as nat, 4),
        SpecValue::Ipv6(b) => b,
        SpecValue::Enum8(x) => le_bytes(twos(x as int, 1), 1),
        SpecValue::Enum16(x) => le_bytes(twos(x as int, 2), 2),
        _ => Seq::empty(),
    }
}

/// The bytes of a string: the length of its UTF-8 form as a variable-length
/// integer, then that form.
pub open spec fn string_bytes(s: Seq<char>) -> Seq<u8> {
    varint_bytes(encode_utf8(s).len()) + encode_utf8(s)
}

/// The bytes of a string of fixed width: its UTF-8 form, filled up to `n`
/// bytes with zeros.
pub open spec fn fixed_string_bytes(s: Seq<char>, n: nat) -> Seq<u8> {
    encode_utf8(s) + zeros((n - encode_utf8(s).len()) as nat)
}

/// The bytes of one value of a type that is no container.
pub open spec fn scalar_bytes(t: SpecType, v: SpecValue) -> Seq<u8> {
    match t {
        SpecType::String => string_bytes(v->String_0),
        SpecType::FixedString(n) => fixed_string_bytes(v->String_0, n as nat),
        _ => sized_bytes(v),
    }
}

/// The bytes of a column of a type that is no container: its values one after
/// the other.
pub open spec fn scalars_bytes(t: SpecType, vals: Seq<SpecValue>) -> Seq<u8>
    decreases vals.len(),
{
    if vals.len() == 0 {
        Seq::empty()
    } else {
        scalars_bytes(t, vals.drop_last()) + scalar_bytes(t, vals.last())
    }
}

// ---------------------------------------------------------------------------
// Arrays and maps

/// The number of members of an array, or of entries of a map.
pub open spec fn row_len(v: SpecValue) -> nat {
    match v {
        SpecValue::Array(xs) => xs.len(),
        SpecValue::Mapping(ks, _) => ks.len(),
        _ => 0,
    }
}

/// The number of members of all the rows together.
pub open spec fn total_len(vals: Seq<SpecValue>) -> nat
    decreases vals.len(),
{
    if vals.len() == 0 {
        0
    } else {
        total_len(vals.drop_last()) + row_len(vals.last())
    }
}

/// The offsets of a column of arrays or maps: for each row, the number of
/// members up to its end.
pub open spec fn offsets(vals: Seq<SpecValue>) -> Seq<nat>
    decreases vals.len(),
{
    if vals.len() == 0 {
        Seq::empty()
    } else {
        offsets(vals.drop_last()).push(total_len(vals))
    }
}

/// The bytes of a run of offsets: each as a 64-bit number.
pub open spec fn offsets_bytes(offs: Seq<nat>) -> Seq<u8>
    decreases offs.len(),
{
    if offs.len() == 0 {
        Seq::empty()
    } else {
        offsets_bytes(offs.drop_last()) + le_bytes(offs.last(), 8)
    }
}

/// The members of the arrays of a column, one array after the other.
pub open spec fn flat_members(vals: Seq<SpecValue>) -> Seq<SpecValue>
    decreases vals.len(),
{
    if vals.len() == 0 {
        Seq::empty()
    } else {
        flat_members(vals.drop_last()) + vals.last()->Array_0
    }
}

/// The keys of the maps of a column, one map after the other.
pub open spec fn flat_keys(vals: Seq<SpecValue>) -> Seq<SpecValue>
    decreases vals.len(),
{
    if vals.len() == 0 {
        Seq::empty()
    } else {
        flat_keys(vals.drop_last()) + vals.last()->Mapping_0
    }
}

/// The values of the maps of a column, one map after the other.
pub open spec fn flat_values(vals: Seq<SpecValue>) -> Seq<SpecValue>
    decreases vals.len(),
{
    if vals.len() == 0 {
        Seq::empty()
    } else {
        flat_values(vals.drop_last()) + vals.last()->Mapping_1
    }
}

// ---------------------------------------------------------------------------
// Tuples and nullable columns

/// The `j`-th members of the tuples of a column.
pub open spec fn tuple_column(vals: Seq<SpecValue>, j: int) -> Seq<SpecValue> {
    Seq::new(vals.len(), |i: int| vals[i]->Tuple_0[j])
}

/// The mask of a nullable column: for each row one byte, `1` where the row
/// is `Null`, else `0`.
pub open spec fn null_mask(vals: Seq<SpecValue>) -> Seq<u8> {
    Seq::new(
        vals.len(),
        |i: int|
            if vals[i] is Null {
                1u8
            } else {
                0u8
            },
    )
}

/// A nullable column with a stand-in in place of each `Null`: the default
/// value of the type under `Nullable`.
pub open spec fn fill_nulls(x: SpecType, vals: Seq<SpecValue>) -> Seq<SpecValue> {
    Seq::new(
        vals.len(),
        |i: int|
            if vals[i] is Null {
                default_of(x)
            } else {
                vals[i]
            },
    )
}

// ---------------------------------------------------------------------------
// Dictionaries

/// The first index at or after `from` at which `dict` holds `v`, or the
/// length of `dict`.
pub open spec fn position(dict: Seq<SpecValue>, v: SpecValue, from: int) -> int
    decreases dict.len() - from,
{
    if from < 0 || from >= dict.len() {
        dict.len() as int
    } else if dict[from] == v {
        from
    } else {
        position(dict, v, from + 1)
    }
}

/// The number of dictionary slots that are set apart: one for `Null` in a
/// nullable column, else none.
pub open spec fn reserved_slots(nullable: bool) -> int {
    if nullable {
        1
    } else {
        0
    }
}

/// The dictionary of a column: after the slot set apart for `Null`, which
/// holds `placeholder`, the values of the column in the order in which each
/// was first seen. `Null` takes no slot of its own.
pub open spec fn dictionary(vals: Seq<SpecValue>, nullable: bool, placeholder: SpecValue) -> Seq<
    SpecValue,
>
    decreases vals.len(),
{
    if vals.len() == 0 {
        if nullable {
            seq![placeholder]
        } else {
            Seq::empty()
        }
    } else {
        let dict = dictionary(vals.drop_last(), nullable, placeholder);
        let v = vals.last();
        if (nullable && v is Null) || position(dict, v, reserved_slots(nullable)) < dict.len() {
            dict
        } else {
            dict.push(v)
        }
    }
}

/// The dictionary index of a value: `0` for `Null` in a nullable column, else
/// the slot that holds the value.
pub open spec fn dictionary_index(dict: Seq<SpecValue>, nullable: bool, v: SpecValue) -> nat {
    if nullable && v is Null {
        0
    } else {
        position(dict, v, reserved_slots(nullable)) as nat
    }
}

/// The code of the narrowest index width that holds every index into a
/// dictionary of `size` slots: `0` for one byte, `1` for two, `2` for four,
/// `3` for eight.
pub open spec fn index_width_code(size: nat) -> nat {
    if size <= 0x100 {
        0
    } else if size <= 0x1_0000 {
        1
    } else if size <= 0x1_0000_0000 {
        2
    } else {
        3
    }
}

/// The number of bytes of an index of the given width code.
pub open spec fn index_width(code: nat) -> nat {
    if code == 0 {
        1
    } else if code == 1 {
        2
    } else if code == 2 {
        4
    } else {
        8
    }
}

/// The bytes of the indices of the first `n` rows, each `width` bytes wide.
pub open spec fn indices_bytes(
    dict: Seq<SpecValue>,
    nullable: bool,
    vals: Seq<SpecValue>,
    width: nat,
    n: nat,
) -> Seq<u8>
    decreases n,
{
    if n == 0 || n > vals.len() {
        Seq::empty()
    } else {
        indices_bytes(dict, nullable, vals, width, (n - 1) as nat) + le_bytes(
            dictionary_index(dict, nullable, vals[n - 1]),
            width,
        )
    }
}

// ---------------------------------------------------------------------------
// Columns

/// The bytes of the body of a column of type `t` that holds `vals`.
///
/// A scalar column is its values one after the other. An array column is the
/// offsets of its rows, then the column of all members. A tuple column is the
/// columns of its members, one after the other. A nullable column is its
/// mask, then the column of the type underneath with stand-ins for `Null`.
/// A map column is the offsets of its rows, then the column of all keys, then
/// the column of all values. A `LowCardinality` column is a flags word with
/// the index width, the size of the dictionary, the dictionary as a column of
/// the type underneath without `Nullable`, the number of rows, and the index
/// of each row.
pub open spec fn column_bytes(t: SpecType, vals: Seq<SpecValue>) -> Seq<u8>
    decreases t, 0nat,
{
    match t {
        SpecType::Array(x) => offsets_bytes(offsets(vals)) + column_bytes(*x, flat_members(vals)),
        SpecType::Tuple(ts) => tuple_bytes(ts, vals, ts.len()),
        SpecType::Nullable(x) => null_mask(vals) + column_bytes(*x, fill_nulls(*x, vals)),
        SpecType::Mapping(k, v) => offsets_bytes(offsets(vals)) + column_bytes(
            *k,
            flat_keys(vals),
        ) + column_bytes(*v, flat_values(vals)),
        SpecType::LowCardinality(x) => match *x {
            SpecType::Nullable(y) => {
                let dict = dictionary(vals, true, default_of(*y));
                dictionary_column_bytes(dict, true, vals, column_bytes(*y, dict))
            },
            _ => {
                let dict = dictionary(vals, false, default_of(*x));
                dictionary_column_bytes(dict, false, vals, column_bytes(*x, dict))
            },
        },
        _ => scalars_bytes(t, vals),
    }
}

/// The bytes of a `LowCardinality` column, given its dictionary and the bytes
/// of the dictionary's column: the indices take the narrowest width that
/// holds them all.
pub open spec fn dictionary_column_bytes(
    dict: Seq<SpecValue>,
    nullable: bool,
    vals: Seq<SpecValue>,
    dict_bytes: Seq<u8>,
) -> Seq<u8> {
    dictionary_column_bytes_with(dict, nullable, vals, dict_bytes, index_width_code(dict.len()))
}

/// The flags of a `LowCardinality` column that is written: the code of the
/// index width, and the marks that the column brings its own keys and that
/// the reader is to take them up.
pub open spec fn column_flags(code: nat) -> nat {
    HAS_ADDITIONAL_KEYS_BIT as nat + NEED_UPDATE_DICTIONARY_BIT as nat + code
}

/// The bytes of a `LowCardinality` column whose indices have the width of
/// the given code.
pub open spec fn dictionary_column_bytes_with(
    dict: Seq<SpecValue>,
    nullable: bool,
    vals: Seq<SpecValue>,
    dict_bytes: Seq<u8>,
    code: nat,
) -> Seq<u8> {
    le_bytes(column_flags(code), 8) + le_bytes(dict.len(), 8) + dict_bytes
        + le_bytes(vals.len(), 8) + indices_bytes(
        dict,
        nullable,
        vals,
        index_width(code),
        vals.len(),
    )
}

/// The bytes of the columns of the first `k` members of a tuple column.
pub open spec fn tuple_bytes(ts: Seq<SpecType>, vals: Seq<SpecValue>, k: nat) -> Seq<u8>
    decreases ts, k,
{
    if k == 0 || k > ts.len() {
        Seq::empty()
    } else {
        tuple_bytes(ts, vals, (k - 1) as nat) + column_bytes(
            ts[k - 1],
            tuple_column(vals, k - 1),
        )
    }
}

/// The bytes that stand before the body of a column of type `t`: the version
/// tag of each `LowCardinality` in it, outermost and leftmost first.
pub open spec fn prefix_bytes(t: SpecType) -> Seq<u8>
    decreases t, 0nat,
{
    match t {
        SpecType::LowCardinality(_) => le_bytes(LOW_CARDINALITY_VERSION as nat, 8),
        SpecType::Array(x) => prefix_bytes(*x),
        SpecType::Nullable(x) => prefix_bytes(*x),
        SpecType::Tuple(ts) => tuple_prefix_bytes(ts, ts.len()),
        SpecType::Mapping(k, v) => prefix_bytes(*k) + prefix_bytes(*v),
        _ => Seq::empty(),
    }
}

/// The prefixes of the first `k` members of a tuple type.
pub open spec fn tuple_prefix_bytes(ts: Seq<SpecType>, k: nat) -> Seq<u8>
    decreases ts, k,
{
    if k == 0 || k > ts.len() {
        Seq::empty()
    } else {
        tuple_prefix_bytes(ts, (k - 1) as nat) + prefix_bytes(ts[k - 1])
    }
}

/// The bytes of one value on its own: those of a column that holds only it.
pub open spec fn value_bytes(t: SpecType, v: SpecValue) -> Seq<u8> {
    column_bytes(t, seq![v])
}

// ---------------------------------------------------------------------------
// Limits

/// The limit on one value of a type that is no container: the length of a
/// string fits 64 bits.
pub open spec fn scalar_fits(t: SpecType, v: SpecValue) -> bool {
    t is String && v is String ==> encode_utf8(v->String_0).len() <= u64::MAX
}

/// The limit on a column of a type that is no container.
pub open spec fn scalars_fit(t: SpecType, vals: Seq<SpecValue>) -> bool {
    forall|i: int| 0 <= i < vals.len() ==> scalar_fits(t, #[trigger] vals[i])
}

/// Whether a column is no larger than vectors in memory can be: the number
/// of members of all rows of an array or map column, the number of rows and
/// of dictionary slots of a `LowCardinality` column are vector lengths, the
/// length of each string fits 64 bits, and so for the columns underneath.
pub open spec fn fits_wire(t: SpecType, vals: Seq<SpecValue>) -> bool
    decreases t,
{
    match t {
        SpecType::Array(x) => total_len(vals) <= usize::MAX && fits_wire(*x, flat_members(vals)),
        SpecType::Tuple(ts) => forall|j: int|
            0 <= j < ts.len() ==> fits_wire(#[trigger] ts[j], tuple_column(vals, j)),
        SpecType::Nullable(x) => fits_wire(*x, fill_nulls(*x, vals)),
        SpecType::Mapping(k, v) => total_len(vals) <= usize::MAX && fits_wire(
            *k,
            flat_keys(vals),
        ) && fits_wire(*v, flat_values(vals)),
        SpecType::LowCardinality(x) => vals.len() <= usize::MAX && match *x {
            SpecType::Nullable(y) => dictionary(vals, true, default_of(*y)).len() <= usize::MAX
                && fits_wire(*y, dictionary(vals, true, default_of(*y))),
            _ => dictionary(vals, false, default_of(*x)).len() <= usize::MAX && fits_wire(
                *x,
                dictionary(vals, false, default_of(*x)),
            ),
        },
        _ => scalars_fit(t, vals),
    }
}

} // verus!

//! What the bytes of a column mean: the rows that stand in a run of bytes, as
//! functions of the column's type and the bytes.

use crate::types::SpecType;
use crate::types::layout::{
    index_width, sized_width, two_64, HAS_ADDITIONAL_KEYS_BIT, LOW_CARDINALITY_VERSION,
    NEED_GLOBAL_DICTIONARY_BIT,
};
use crate::values::{Date, Ipv4, SpecValue, Uuid};
use crate::wire::{le_value, parse_varint, untwos};
use vstd::prelude::*;
use vstd::utf8::{decode_utf8, valid_utf8};

verus! {

// ---------------------------------------------------------------------------
// Scalars

/// The value of a sized type whose bytes are `b`. The scale of a decimal and
/// the zone and precision of a time are the type's.
pub open spec fn sized_value(t: SpecType, b: Seq<u8>) -> SpecValue {
    match t {
        SpecType::Int8 => SpecValue::Int8(untwos(le_value(b), 1) as i8),
        SpecType::Int16 => SpecValue::Int16(untwos(le_value(b), 2) as i16),
        SpecType::Int32 => SpecValue::Int32(untwos(le_value(b), 4) as i32),
        SpecType::Int64 => SpecValue::Int64(untwos(le_value(b), 8) as i64),
        SpecType::Int128 => SpecValue::Int128(untwos(le_value(b), 16) as i128),
        SpecType::Int256 => SpecValue::Int256(b),
        SpecType::UInt8 => SpecValue::UInt8(le_value(b) as u8),
        SpecType::UInt16 => SpecValue::UInt16(le_value(b) as u16),
        SpecType::UInt32 => SpecValue::UInt32(le_value(b) as u32),
        SpecType::UInt64 => SpecValue::UInt64(le_value(b) as u64),
        SpecType::UInt128 => SpecValue::UInt128(le_value(b) as u128),
        SpecType::UInt256 => SpecValue::UInt256(b),
        SpecType::Float32 => SpecValue::Float32(le_value(b) as u32),
        SpecType::Float64 => SpecValue::Float64(le_value(b) as u64),
        SpecType::Decimal32(s) => SpecValue::Decimal32(s, untwos(le_value(b), 4) as i32),
        SpecType::Decimal64(s) => SpecValue::Decimal64(s, untwos(le_value(b), 8) as i64),
        SpecType::Decimal128(s) => SpecValue::Decimal128(s, untwos(le_value(b), 16) as i128),
        SpecType::Decimal256(s) => SpecValue::Decimal256(s, b),
        SpecType::Uuid => SpecValue::Uuid(
            Uuid((le_value(b.subrange(0, 8)) * two_64() + le_value(b.subrange(8, 16))) as u128),
        ),
        SpecType::Date => SpecValue::Date(Date(le_value(b) as u16)),
        SpecType::DateTime(tz) => SpecValue::DateTime(tz, le_value(b) as u32),
        SpecType::DateTime64(p, tz) => SpecValue::DateTime64(
            tz,
            p,
            untwos(le_value(b), 8) as i64,
        ),
        SpecType::Ipv4 => SpecValue::Ipv4(Ipv4(le_value(b) as u32)),
        SpecType::Ipv6 => SpecValue::Ipv6(b),
        SpecType::Enum8(_) => SpecValue::Enum8(untwos(le_value(b), 1) as i8),
        SpecType::Enum16(_) => SpecValue::Enum16(untwos(le_value(b), 2) as i16),
        _ => SpecValue::Null,
    }
}

/// The string whose UTF-8 form stands in `data[from..to]`, if that run lies
/// within `data` and is UTF-8.
pub open spec fn read_text(data: Seq<u8>, from: int, to: int) -> Option<SpecValue> {
    if 0 <= from <= to <= data.len() && valid_utf8(data.subrange(from, to)) {
        Some(SpecValue::String(decode_utf8(data.subrange(from, to))))
    } else {
        None
    }
}

/// The value of a type that is no container which stands at `pos`, and where
/// it ends. `None` where the data end before the value does, or a string is
/// not UTF-8.
pub open spec fn read_scalar(t: SpecType, data: Seq<u8>, pos: int) -> Option<(SpecValue, int)> {
    match t {
        SpecType::String => match parse_varint(data, pos) {
            Some((len, start)) => match read_text(data, start, start + len) {
                Some(v) => Some((v, start + len)),
                None => None,
            },
            None => None,
        },
        SpecType::FixedString(n) => match read_text(data, pos, pos + n) {
            Some(v) => Some((v, pos + n)),
            None => None,
        },
        _ => if 0 <= pos && pos + sized_width(t) <= data.len() {
            Some((sized_value(t, data.subrange(pos, pos + sized_width(t))), pos + sized_width(t)))
        } else {
            None
        },
    }
}

/// The `n` values of a type that is no container which stand one after the
/// other from `pos`, and where they end.
pub open spec fn read_scalars(t: SpecType, data: Seq<u8>, pos: int, n: nat) -> Option<
    (Seq<SpecValue>, int),
>
    decreases n,
{
    if n == 0 {
        Some((Seq::empty(), pos))
    } else {
        match read_scalars(t, data, pos, (n - 1) as nat) {
            Some((vs, p)) => match read_scalar(t, data, p) {
                Some((v, q)) => Some((vs.push(v), q)),
                None => None,
            },
            None => None,
        }
    }
}

// ---------------------------------------------------------------------------
// Numbers in a row

/// The `n` numbers of `width` bytes each which stand from `pos`. `None` where
/// the data end before they do.
pub open spec fn read_numbers(data: Seq<u8>, pos: int, width: nat, n: nat) -> Option<Seq<nat>>
    decreases n,
{
    if n == 0 {
        Some(Seq::empty())
    } else {
        match read_numbers(data, pos, width, (n - 1) as nat) {
            Some(xs) => {
                let p = pos + width * (n - 1);
                if 0 <= p && p + width <= data.len() {
                    Some(xs.push(le_value(data.subrange(p, p + width))))
                } else {
                    None
                }
            },
            None => None,
        }
    }
}

/// Whether no number is less than the one before it.
pub open spec fn ascending(xs: Seq<nat>) -> bool {
    forall|i: int| 0 < i < xs.len() ==> xs[i - 1] <= #[trigger] xs[i]
}

/// Whether every number is less than `bound`.
pub open spec fn all_below(xs: Seq<nat>, bound: nat) -> bool {
    forall|i: int| 0 <= i < xs.len() ==> #[trigger] xs[i] < bound
}

/// The last of a run of offsets: the number of members of all rows.
pub open spec fn last_offset(offs: Seq<nat>) -> nat {
    if offs.len() == 0 {
        0
    } else {
        offs.last()
    }
}

/// The offsets of the `n` rows of a column of arrays or maps, which stand
/// from `pos` as 64-bit numbers. `None` where the data end before they do,
/// an offset is less than the one before it, or the last one is more than a
/// vector can hold.
pub open spec fn read_offsets(data: Seq<u8>, pos: int, n: nat) -> Option<Seq<nat>> {
    match read_numbers(data, pos, 8, n) {
        Some(offs) => if ascending(offs) && last_offset(offs) <= usize::MAX {
            Some(offs)
        } else {
            None
        },
        None => None,
    }
}

/// The members of row `i`, given the members of all rows and the rows'
/// offsets.
pub open spec fn row_members(members: Seq<SpecValue>, offs: Seq<nat>, i: int) -> Seq<SpecValue> {
    members.subrange(
        if i == 0 {
            0
        } else {
            offs[i - 1] as int
        },
        offs[i] as int,
    )
}

// ---------------------------------------------------------------------------
// Columns

/// The rows of a column of arrays, given the members of all rows and the
/// rows' offsets.
pub open spec fn array_rows(members: Seq<SpecValue>, offs: Seq<nat>) -> Seq<SpecValue> {
    Seq::new(offs.len(), |i: int| SpecValue::Array(row_members(members, offs, i)))
}

/// The rows of a column of maps, given the keys and the values of all rows
/// and the rows' offsets.
pub open spec fn map_rows(keys: Seq<SpecValue>, values: Seq<SpecValue>, offs: Seq<nat>) -> Seq<
    SpecValue,
> {
    Seq::new(
        offs.len(),
        |i: int| SpecValue::Mapping(row_members(keys, offs, i), row_members(values, offs, i)),
    )
}

/// The rows of a column of tuples, given the columns of the members.
pub open spec fn tuple_rows(columns: Seq<Seq<SpecValue>>, n: nat) -> Seq<SpecValue> {
    Seq::new(n, |i: int| SpecValue::Tuple(Seq::new(columns.len(), |j: int| columns[j][i])))
}

/// The rows of a nullable column, given its mask and the column underneath:
/// `Null` where the mask byte is not zero, whatever stands underneath.
pub open spec fn nullable_rows(mask: Seq<u8>, inner: Seq<SpecValue>) -> Seq<SpecValue> {
    Seq::new(
        mask.len(),
        |i: int|
            if mask[i] != 0 {
                SpecValue::Null
            } else {
                inner[i]
            },
    )
}

/// The rows of a dictionary-encoded column, given its dictionary and the
/// index of each row: in a nullable column index `0` gives `Null`, every
/// other index the dictionary's value.
pub open spec fn dictionary_rows(dict: Seq<SpecValue>, nullable: bool, indices: Seq<nat>) -> Seq<
    SpecValue,
> {
    Seq::new(
        indices.len(),
        |i: int|
            if nullable && indices[i] == 0 {
                SpecValue::Null
            } else {
                dict[indices[i] as int]
            },
    )
}

/// What the body of a dictionary-encoded column holds.
pub struct DictionaryColumn {
    /// The values of the dictionary.
    pub entries: Seq<SpecValue>,
    /// For each row, the slot of its value.
    pub indices: Seq<nat>,
    /// Where the body ends.
    pub end: int,
}

/// The index width code in the flags of a dictionary-encoded column. `None`
/// where the code is none of the four, the flags ask for a global
/// dictionary, or they say that the column brings no keys.
pub open spec fn flags_width_code(flags: nat) -> Option<nat> {
    if flags % 256 > 3 || (flags / NEED_GLOBAL_DICTIONARY_BIT as nat) % 2 == 1 || (flags
        / HAS_ADDITIONAL_KEYS_BIT as nat) % 2 == 0 {
        None
    } else {
        Some(flags % 256)
    }
}

/// The `n` rows of a column of type `t` whose body stands at `pos`, and where
/// the body ends. `None` where the bytes are no body of such a column.
pub open spec fn read_column(t: SpecType, data: Seq<u8>, pos: int, n: nat) -> Option<
    (Seq<SpecValue>, int),
>
    decreases t, 0nat,
{
    match t {
        SpecType::Array(x) => match read_offsets(data, pos, n) {
            Some(offs) => match read_column(*x, data, pos + 8 * n, last_offset(offs)) {
                Some((members, end)) => Some((array_rows(members, offs), end)),
                None => None,
            },
            None => None,
        },
        SpecType::Tuple(ts) => match read_tuple_columns(ts, data, pos, n, ts.len()) {
            Some((columns, end)) => Some((tuple_rows(columns, n), end)),
            None => None,
        },
        SpecType::Nullable(x) => if 0 <= pos && pos + n <= data.len() {
            match read_column(*x, data, pos + n, n) {
                Some((inner, end)) => Some(
                    (nullable_rows(data.subrange(pos, pos + n), inner), end),
                ),
                None => None,
            }
        } else {
            None
        },
        SpecType::Mapping(k, v) => match read_offsets(data, pos, n) {
            Some(offs) => match read_column(*k, data, pos + 8 * n, last_offset(offs)) {
                Some((keys, mid)) => match read_column(*v, data, mid, last_offset(offs)) {
                    Some((values, end)) => Some((map_rows(keys, values, offs), end)),
                    None => None,
                },
                None => None,
            },
            None => None,
        },
        SpecType::LowCardinality(x) => match *x {
            SpecType::Nullable(y) => match read_dictionary_column(*y, data, pos, n) {
                Some(parts) => Some((dictionary_rows(parts.entries, true, parts.indices), parts.end)),
                None => None,
            },
            _ => match read_dictionary_column(*x, data, pos, n) {
                Some(parts) => Some(
                    (dictionary_rows(parts.entries, false, parts.indices), parts.end),
                ),
                None => None,
            },
        },
        _ => read_scalars(t, data, pos, n),
    }
}

/// The parts of the body of a dictionary-encoded column of `n` rows which
/// stands at `pos`, where the dictionary holds values of type `inner`.
/// `None` where the data end too early, the flags are not understood, the
/// dictionary is no column of `inner`, the number of rows is not `n`, or an
/// index points outside the dictionary.
pub open spec fn read_dictionary_column(inner: SpecType, data: Seq<u8>, pos: int, n: nat) -> Option<
    DictionaryColumn,
>
    decreases inner, 1nat,
{
    if 0 <= pos && pos + 16 <= data.len() {
        let flags = le_value(data.subrange(pos, pos + 8));
        let size = le_value(data.subrange(pos + 8, pos + 16));
        if flags_width_code(flags) is Some && size <= usize::MAX {
            let width = index_width(flags_width_code(flags)->0);
            match read_column(inner, data, pos + 16, size) {
                Some((entries, mid)) => {
                    if mid + 8 <= data.len() && le_value(data.subrange(mid, mid + 8)) == n {
                        match read_numbers(data, mid + 8, width, n) {
                            Some(indices) => if all_below(indices, size) {
                                Some(DictionaryColumn { entries, indices, end: mid + 8 + width * n })
                            } else {
                                None
                            },
                            None => None,
                        }
                    } else {
                        None
                    }
                },
                None => None,
            }
        } else {
            None
        }
    } else {
        None
    }
}

/// The columns of the first `k` members of a tuple column of `n` rows, which
/// stand one after the other from `pos`, and where they end.
pub open spec fn read_tuple_columns(
    ts: Seq<SpecType>,
    data: Seq<u8>,
    pos: int,
    n: nat,
    k: nat,
) -> Option<(Seq<Seq<SpecValue>>, int)>
    decreases ts, k,
{
    if k == 0 || k > ts.len() {
        Some((Seq::empty(), pos))
    } else {
        match read_tuple_columns(ts, data, pos, n, (k - 1) as nat) {
            Some((columns, mid)) => match read_column(ts[k - 1], data, mid, n) {
                Some((column, end)) => Some((columns.push(column), end)),
                None => None,
            },
            None => None,
        }
    }
}

/// Where the bytes that stand before the body of a column of type `t` end,
/// if they stand at `pos`: each `LowCardinality` in the type brings its
/// version tag, which must be the known one.
pub open spec fn read_prefix(t: SpecType, data: Seq<u8>, pos: int) -> Option<int>
    decreases t, 0nat,
{
    match t {
        SpecType::LowCardinality(_) => if 0 <= pos && pos + 8 <= data.len() && le_value(
            data.subrange(pos, pos + 8),
        ) == LOW_CARDINALITY_VERSION {
            Some(pos + 8)
        } else {
            None
        },
        SpecType::Array(x) => read_prefix(*x, data, pos),
        SpecType::Nullable(x) => read_prefix(*x, data, pos),
        SpecType::Tuple(ts) => read_tuple_prefix(ts, data, pos, ts.len()),
        SpecType::Mapping(k, v) => match read_prefix(*k, data, pos) {
            Some(mid) => read_prefix(*v, data, mid),
            None => None,
        },
        _ => Some(pos),
    }
}

/// Where the prefixes of the first `k` members of a tuple type end.
pub open spec fn read_tuple_prefix(ts: Seq<SpecType>, data: Seq<u8>, pos: int, k: nat) -> Option<
    int,
>
    decreases ts, k,
{
    if k == 0 || k > ts.len() {
        Some(pos)
    } else {
        match read_tuple_prefix(ts, data, pos, (k - 1) as nat) {
            Some(mid) => read_prefix(ts[k - 1], data, mid),
            None => None,
        }
    }
}

/// The value of type `t` that stands on its own at `pos`, as a column of one
/// row, and where it ends.
pub open spec fn read_value(t: SpecType, data: Seq<u8>, pos: int) -> Option<(SpecValue, int)> {
    match read_column(t, data, pos, 1) {
        Some((rows, end)) => Some((rows[0], end)),
        None => None,
    }
}

} // verus!

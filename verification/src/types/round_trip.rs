//! Laws of the codec: what is written is read back, offsets are consistent,
//! nullable columns hold a value for every row, dictionary indices are as
//! narrow as can be, and only index `0` is `Null`.

use crate::types::SpecType;
use crate::types::defaults::default_of;
use crate::types::layout::{
    all_writable, column_bytes, dictionary, dictionary_column_bytes_with, dictionary_index,
    fill_nulls, fits_wire, flat_keys, flat_members, flat_values, index_width, index_width_code,
    indices_bytes, is_sized, null_mask, offsets, offsets_bytes, prefix_bytes, reserved_slots,
    row_len, scalar_bytes, scalar_fits, scalars_bytes, scalars_fit, sized_bytes, sized_width,
    total_len, tuple_bytes, tuple_column, tuple_prefix_bytes, two_64, writable,
    LOW_CARDINALITY_VERSION,
};
use crate::types::low_cardinality::{lemma_position_bounds, lemma_position_push};
use crate::types::reading::{
    all_below, array_rows, ascending, dictionary_rows, flags_width_code, last_offset, map_rows,
    nullable_rows, read_column, read_dictionary_column, read_numbers, read_offsets, read_prefix,
    read_scalar, read_scalars, read_tuple_columns, read_tuple_prefix, row_members, sized_value,
    tuple_rows, DictionaryColumn,
};
use crate::types::serialize::nullable::lemma_default_writable;
use crate::types::validate::conforms;
use crate::values::{zeros, SpecValue};
use crate::wire::{
    le_bytes, le_value, lemma_le_bytes_len, lemma_le_value_of_bytes, lemma_pow256_values,
    lemma_twos_round_trip, parse_varint, pow128, pow256, twos, untwos, varint_at, varint_bytes,
};
use vstd::prelude::*;
use vstd::utf8::{encode_utf8, valid_utf8};

verus! {

/// A run of bytes that stands at `pos` in `data`.
pub open spec fn stands_at(data: Seq<u8>, pos: int, bytes: Seq<u8>) -> bool {
    &&& 0 <= pos
    &&& pos + bytes.len() <= data.len()
    &&& data.subrange(pos, pos + bytes.len()) == bytes
}

/// Where two runs stand one after the other, each stands at its place.
proof fn lemma_stands_split(data: Seq<u8>, pos: int, a: Seq<u8>, b: Seq<u8>)
    requires
        stands_at(data, pos, a + b),
    ensures
        stands_at(data, pos, a),
        stands_at(data, pos + a.len(), b),
{
    let whole = data.subrange(pos, pos + (a + b).len());
    assert(data.subrange(pos, pos + a.len()) =~= whole.subrange(0, a.len() as int));
    assert(whole.subrange(0, a.len() as int) =~= a);
    assert(data.subrange(pos + a.len(), pos + a.len() + b.len()) =~= whole.subrange(
        a.len() as int,
        (a + b).len() as int,
    ));
    assert(whole.subrange(a.len() as int, (a + b).len() as int) =~= b);
}

proof fn lemma_signed(x: int, width: nat)
    requires
        -(pow256(width) as int) <= 2 * x < pow256(width),
    ensures
        le_bytes(twos(x, width), width).len() == width,
        untwos(le_value(le_bytes(twos(x, width), width)), width) == x,
{
    lemma_twos_round_trip(x, width);
    lemma_le_bytes_len(twos(x, width), width);
    lemma_le_value_of_bytes(twos(x, width), width);
}

proof fn lemma_unsigned(x: nat, width: nat)
    requires
        x < pow256(width),
    ensures
        le_bytes(x, width).len() == width,
        le_value(le_bytes(x, width)) == x,
{
    lemma_le_bytes_len(x, width);
    lemma_le_value_of_bytes(x, width);
}

/// A value of a sized type takes the type's width; read back, a value that
/// conforms to the type is itself again.
pub proof fn lemma_sized_round_trip(t: SpecType, v: SpecValue)
    requires
        is_sized(t),
        writable(t, v),
    ensures
        sized_bytes(v).len() == sized_width(t),
        conforms(t, v) ==> sized_value(t, sized_bytes(v)) == v,
{
    lemma_pow256_values();
    match v {
        SpecValue::Int8(x) => lemma_signed(x as int, 1),
        SpecValue::Int16(x) => lemma_signed(x as int, 2),
        SpecValue::Int32(x) => lemma_signed(x as int, 4),
        SpecValue::Int64(x) => lemma_signed(x as int, 8),
        SpecValue::Int128(x) => lemma_signed(x as int, 16),
        SpecValue::UInt8(x) => lemma_unsigned(x as nat, 1),
        SpecValue::UInt16(x) => lemma_unsigned(x as nat, 2),
        SpecValue::UInt32(x) => lemma_unsigned(x as nat, 4),
        SpecValue::UInt64(x) => lemma_unsigned(x as nat, 8),
        SpecValue::UInt128(x) => lemma_unsigned(x as nat, 16),
        SpecValue::Float32(x) => lemma_unsigned(x as nat, 4),
        SpecValue::Float64(x) => lemma_unsigned(x as nat, 8),
        SpecValue::Decimal32(_, x) => lemma_signed(x as int, 4),
        SpecValue::Decimal64(_, x) => lemma_signed(x as int, 8),
        SpecValue::Decimal128(_, x) => lemma_signed(x as int, 16),
        SpecValue::Uuid(u) => {
            let high = u.0 as nat / two_64();
            let low = u.0 as nat % two_64();
            lemma_unsigned(high, 8);
            lemma_unsigned(low, 8);
            let b = sized_bytes(v);
            assert(b.subrange(0, 8) =~= le_bytes(high, 8));
            assert(b.subrange(8, 16) =~= le_bytes(low, 8));
            assert(high * two_64() + low == u.0) by (nonlinear_arith)
                requires
                    high == u.0 as nat / two_64(),
                    low == u.0 as nat % two_64(),
                    two_64() > 0,
            ;
        },
        SpecValue::Date(d) => lemma_unsigned(d.0 as nat, 2),
        SpecValue::DateTime(_, s) => lemma_unsigned(s as nat, 4),
        SpecValue::DateTime64(_, _, x) => lemma_signed(x as int, 8),
        SpecValue::Ipv4(a) => lemma_unsigned(a.0 as nat, 4),
        SpecValue::Enum8(x) => lemma_signed(x as int, 1),
        SpecValue::Enum16(x) => lemma_signed(x as int, 2),
        _ => {},
    }
}

// ---------------------------------------------------------------------------
// What comes back

/// Whether each fixed string in the value fills the width of its type.
pub open spec fn full_width(t: SpecType, v: SpecValue) -> bool
    decreases t,
{
    match t {
        SpecType::FixedString(n) => v is String ==> encode_utf8(v->String_0).len() == n,
        SpecType::LowCardinality(x) => full_width(*x, v),
        SpecType::Nullable(x) => full_width(*x, v),
        SpecType::Array(x) => v is Array ==> forall|i: int|
            0 <= i < v->Array_0.len() ==> full_width(*x, #[trigger] v->Array_0[i]),
        SpecType::Tuple(ts) => v is Tuple ==> forall|i: int|
            0 <= i < ts.len() && i < v->Tuple_0.len() ==> full_width(
                #[trigger] ts[i],
                v->Tuple_0[i],
            ),
        SpecType::Mapping(k, x) => v is Mapping ==> {
            &&& forall|i: int|
                0 <= i < v->Mapping_0.len() ==> full_width(*k, #[trigger] v->Mapping_0[i])
            &&& forall|i: int|
                0 <= i < v->Mapping_1.len() ==> full_width(*x, #[trigger] v->Mapping_1[i])
        },
        _ => true,
    }
}

/// The values that reading gives back as they were written: those that
/// conform to the type, have the shape of its wire form, and fill the width
/// of each fixed string.
pub open spec fn faithful(t: SpecType, v: SpecValue) -> bool {
    conforms(t, v) && writable(t, v) && full_width(t, v)
}

// ---------------------------------------------------------------------------
// Strings

proof fn lemma_pow128_step(groups: nat)
    requires
        groups >= 1,
    ensures
        pow128(groups) == 128 * pow128((groups - 1) as nat),
        pow128((groups - 1) as nat) >= 1,
    decreases groups,
{
    if groups > 1 {
        lemma_pow128_step((groups - 1) as nat);
    }
}

/// A variable-length integer is read back from where it stands.
proof fn lemma_varint_at(v: nat, data: Seq<u8>, pos: int, groups: nat)
    requires
        stands_at(data, pos, varint_bytes(v)),
        groups >= 1,
        v < pow128(groups),
    ensures
        varint_at(data, pos, groups) == Some((v, pos + varint_bytes(v).len())),
    decreases groups,
{
    lemma_pow128_step(groups);
    let bytes = varint_bytes(v);
    assert(data[pos] == data.subrange(pos, pos + bytes.len())[0]);
    if v >= 128 {
        let rest = varint_bytes(v / 128);
        lemma_stands_split(data, pos, seq![(v % 128 + 128) as u8], rest);
        assert(groups >= 2) by {
            if groups == 1 {
                assert(pow128(0) == 1);
            }
        }
        lemma_varint_at(v / 128, data, pos + 1, (groups - 1) as nat);
    }
}

/// A 64-bit number in variable-length form is read back from where it stands.
pub proof fn lemma_varint_round_trip(v: nat, data: Seq<u8>, pos: int)
    requires
        stands_at(data, pos, varint_bytes(v)),
        v <= u64::MAX,
    ensures
        parse_varint(data, pos) == Some((v as u64, pos + varint_bytes(v).len())),
{
    assert(pow128(10) == 0x40_0000_0000_0000_0000) by {
        reveal_with_fuel(pow128, 11);
    }
    lemma_varint_at(v, data, pos, 10);
}

/// A run of zero bytes is UTF-8.
proof fn lemma_zeros_utf8(n: nat)
    ensures
        valid_utf8(zeros(n)),
    decreases n,
{
    if n > 0 {
        lemma_zeros_utf8((n - 1) as nat);
        let one = seq![0u8];
        assert(vstd::utf8::is_leading_byte_width_1(0u8)) by {
            assert(0u8 & 0x80 == 0) by (bit_vector);
        }
        assert(valid_utf8(one)) by {
            reveal_with_fuel(valid_utf8, 2);
            assert(vstd::utf8::pop_first_scalar(one) =~= Seq::<u8>::empty());
        }
        vstd::utf8::valid_utf8_concat(zeros((n - 1) as nat), one);
        assert(zeros((n - 1) as nat) + one =~= zeros(n));
    }
}

/// A value of a type that is no container is read from where it stands, to
/// the end of its bytes; a faithful value is itself again.
pub proof fn lemma_scalar_round_trip(t: SpecType, v: SpecValue, data: Seq<u8>, pos: int)
    requires
        !t.is_composite(),
        writable(t, v),
        scalar_fits(t, v),
        stands_at(data, pos, scalar_bytes(t, v)),
    ensures
        read_scalar(t, data, pos) matches Some((back, end)) && end == pos + scalar_bytes(
            t,
            v,
        ).len() && (faithful(t, v) ==> back == v),
{
    broadcast use vstd::utf8::encode_utf8_valid_utf8, vstd::utf8::encode_utf8_decode_utf8;

    match t {
        SpecType::String => {
            let s = v->String_0;
            let utf8 = encode_utf8(s);
            let head = varint_bytes(utf8.len());
            lemma_stands_split(data, pos, head, utf8);
            lemma_varint_round_trip(utf8.len(), data, pos);
        },
        SpecType::FixedString(n) => {
            let s = v->String_0;
            let utf8 = encode_utf8(s);
            let fill = zeros((n - utf8.len()) as nat);
            lemma_zeros_utf8((n - utf8.len()) as nat);
            vstd::utf8::valid_utf8_concat(utf8, fill);
            if utf8.len() == n {
                assert(utf8 + fill =~= utf8);
            }
        },
        _ => {
            lemma_sized_round_trip(t, v);
        },
    }
}

/// A column of a type that is no container is read from where it stands, to
/// the end of its bytes; each faithful row is itself again.
proof fn lemma_scalars_round_trip(t: SpecType, vals: Seq<SpecValue>, data: Seq<u8>, pos: int)
    requires
        !t.is_composite(),
        all_writable(t, vals),
        scalars_fit(t, vals),
        stands_at(data, pos, scalars_bytes(t, vals)),
    ensures
        read_scalars(t, data, pos, vals.len()) matches Some((back, end)) && end == pos
            + scalars_bytes(t, vals).len() && back.len() == vals.len() && forall|i: int|
            0 <= i < vals.len() && faithful(t, vals[i]) ==> #[trigger] back[i] == vals[i],
    decreases vals.len(),
{
    if vals.len() > 0 {
        let front = vals.drop_last();
        let last = vals.last();
        assert(writable(t, last));
        assert(scalar_fits(t, last));
        assert forall|i: int| 0 <= i < front.len() implies writable(t, #[trigger] front[i]) by {
            assert(front[i] == vals[i]);
        }
        assert forall|i: int| 0 <= i < front.len() implies scalar_fits(t, #[trigger] front[i]) by {
            assert(front[i] == vals[i]);
        }
        lemma_stands_split(data, pos, scalars_bytes(t, front), scalar_bytes(t, last));
        lemma_scalars_round_trip(t, front, data, pos);
        lemma_scalar_round_trip(t, last, data, pos + scalars_bytes(t, front).len());
        let (back, end) = read_scalars(t, data, pos, vals.len())->0;
        assert forall|i: int| 0 <= i < vals.len() && faithful(t, vals[i]) implies #[trigger] back[i]
            == vals[i] by {
            if i < front.len() {
                assert(front[i] == vals[i]);
            }
        }
    }
}

// ---------------------------------------------------------------------------
// Numbers in a row

/// The bytes of a run of numbers, each `width` bytes wide.
pub open spec fn numbers_bytes(xs: Seq<nat>, width: nat) -> Seq<u8>
    decreases xs.len(),
{
    if xs.len() == 0 {
        Seq::empty()
    } else {
        numbers_bytes(xs.drop_last(), width) + le_bytes(xs.last(), width)
    }
}

proof fn lemma_numbers_bytes_len(xs: Seq<nat>, width: nat)
    ensures
        numbers_bytes(xs, width).len() == width * xs.len(),
    decreases xs.len(),
{
    if xs.len() > 0 {
        lemma_numbers_bytes_len(xs.drop_last(), width);
        lemma_le_bytes_len(xs.last(), width);
        assert(width * (xs.len() - 1) + width == width * xs.len()) by (nonlinear_arith);
    } else {
        assert(width * 0 == 0);
    }
}

/// A run of numbers that fit their width is read back from where it stands.
proof fn lemma_numbers_round_trip(xs: Seq<nat>, width: nat, data: Seq<u8>, pos: int)
    requires
        width >= 1,
        forall|i: int| 0 <= i < xs.len() ==> #[trigger] xs[i] < pow256(width),
        stands_at(data, pos, numbers_bytes(xs, width)),
    ensures
        read_numbers(data, pos, width, xs.len()) == Some(xs),
        numbers_bytes(xs, width).len() == width * xs.len(),
    decreases xs.len(),
{
    lemma_numbers_bytes_len(xs, width);
    if xs.len() > 0 {
        let front = xs.drop_last();
        lemma_numbers_bytes_len(front, width);
        lemma_le_bytes_len(xs.last(), width);
        lemma_stands_split(data, pos, numbers_bytes(front, width), le_bytes(xs.last(), width));
        assert forall|i: int| 0 <= i < front.len() implies #[trigger] front[i] < pow256(width) by {
            assert(front[i] == xs[i]);
        }
        lemma_numbers_round_trip(front, width, data, pos);
        lemma_le_value_of_bytes(xs.last(), width);
        assert(front.push(xs.last()) =~= xs);
    } else {
        assert(xs =~= Seq::<nat>::empty());
    }
}

proof fn lemma_offsets_bytes(offs: Seq<nat>)
    ensures
        offsets_bytes(offs) == numbers_bytes(offs, 8),
    decreases offs.len(),
{
    if offs.len() > 0 {
        lemma_offsets_bytes(offs.drop_last());
    }
}

// ---------------------------------------------------------------------------
// Offsets

proof fn lemma_total_len_step(vals: Seq<SpecValue>, i: int)
    requires
        0 <= i < vals.len(),
    ensures
        total_len(vals.take(i + 1)) == total_len(vals.take(i)) + row_len(vals[i]),
        offsets(vals.take(i + 1)) == offsets(vals.take(i)).push(total_len(vals.take(i + 1))),
        flat_members(vals.take(i + 1)) == flat_members(vals.take(i)) + vals[i]->Array_0,
        flat_keys(vals.take(i + 1)) == flat_keys(vals.take(i)) + vals[i]->Mapping_0,
        flat_values(vals.take(i + 1)) == flat_values(vals.take(i)) + vals[i]->Mapping_1,
{
    let next = vals.take(i + 1);
    assert(next.drop_last() =~= vals.take(i));
    assert(next.last() == vals[i]);
}

/// The offsets of a column: one for each row, none less than the one before
/// it, the `i`-th the number of members of the rows up to row `i`, and the
/// last the number of members of all rows.
proof fn lemma_offsets(vals: Seq<SpecValue>)
    ensures
        offsets(vals).len() == vals.len(),
        ascending(offsets(vals)),
        last_offset(offsets(vals)) == total_len(vals),
        forall|i: int|
            0 <= i < vals.len() ==> #[trigger] offsets(vals)[i] == total_len(vals.take(i + 1)),
        forall|i: int| 0 <= i < vals.len() ==> #[trigger] offsets(vals)[i] <= total_len(vals),
    decreases vals.len(),
{
    if vals.len() > 0 {
        let front = vals.drop_last();
        lemma_offsets(front);
        assert(vals.take(vals.len() as int) =~= vals);
        assert forall|i: int| 0 <= i < vals.len() implies #[trigger] offsets(vals)[i] == total_len(
            vals.take(i + 1),
        ) by {
            if i < front.len() {
                assert(offsets(vals)[i] == offsets(front)[i]);
                assert(front.take(i + 1) =~= vals.take(i + 1));
            }
        }
        assert forall|i: int| 0 < i < vals.len() implies offsets(vals)[i - 1] <= #[trigger] offsets(
            vals,
        )[i] by {
            if i < front.len() {
                assert(offsets(vals)[i] == offsets(front)[i]);
                assert(offsets(vals)[i - 1] == offsets(front)[i - 1]);
            } else {
                assert(offsets(vals)[i - 1] == offsets(front)[i - 1]);
                assert(offsets(front)[i - 1] <= total_len(front));
            }
        }
    }
}

/// The members of the rows of a column, one row after the other, where `f`
/// gives the members of a row.
pub open spec fn flat_by(vals: Seq<SpecValue>, f: spec_fn(SpecValue) -> Seq<SpecValue>) -> Seq<
    SpecValue,
>
    decreases vals.len(),
{
    if vals.len() == 0 {
        Seq::empty()
    } else {
        flat_by(vals.drop_last(), f) + f(vals.last())
    }
}

/// The members of an array.
pub open spec fn members_of() -> spec_fn(SpecValue) -> Seq<SpecValue> {
    |v: SpecValue| v->Array_0
}

/// The keys of a map.
pub open spec fn keys_of() -> spec_fn(SpecValue) -> Seq<SpecValue> {
    |v: SpecValue| v->Mapping_0
}

/// The values of a map.
pub open spec fn values_of() -> spec_fn(SpecValue) -> Seq<SpecValue> {
    |v: SpecValue| v->Mapping_1
}

proof fn lemma_flat_forms(vals: Seq<SpecValue>)
    ensures
        flat_members(vals) == flat_by(vals, members_of()),
        flat_keys(vals) == flat_by(vals, keys_of()),
        flat_values(vals) == flat_by(vals, values_of()),
    decreases vals.len(),
{
    if vals.len() > 0 {
        lemma_flat_forms(vals.drop_last());
    }
}

/// Whether `f` gives each row as many members as the row counts.
pub open spec fn counts_rows(vals: Seq<SpecValue>, f: spec_fn(SpecValue) -> Seq<SpecValue>) -> bool {
    forall|k: int| 0 <= k < vals.len() ==> f(#[trigger] vals[k]).len() == row_len(vals[k])
}

proof fn lemma_flat_len(vals: Seq<SpecValue>, f: spec_fn(SpecValue) -> Seq<SpecValue>)
    requires
        counts_rows(vals, f),
    ensures
        flat_by(vals, f).len() == total_len(vals),
    decreases vals.len(),
{
    if vals.len() > 0 {
        let front = vals.drop_last();
        assert(f(vals[vals.len() - 1]).len() == row_len(vals[vals.len() - 1]));
        assert forall|k: int| 0 <= k < front.len() implies f(#[trigger] front[k]).len() == row_len(
            front[k],
        ) by {
            assert(front[k] == vals[k]);
        }
        lemma_flat_len(front, f);
    }
}

proof fn lemma_counts_take(vals: Seq<SpecValue>, f: spec_fn(SpecValue) -> Seq<SpecValue>, i: int)
    requires
        counts_rows(vals, f),
        0 <= i <= vals.len(),
    ensures
        counts_rows(vals.take(i), f),
{
    assert forall|k: int| 0 <= k < vals.take(i).len() implies f(#[trigger] vals.take(i)[k]).len()
        == row_len(vals.take(i)[k]) by {
        assert(vals.take(i)[k] == vals[k]);
    }
}

/// The members of the first `i` rows stand first among the members of all
/// rows.
proof fn lemma_flat_prefix(vals: Seq<SpecValue>, f: spec_fn(SpecValue) -> Seq<SpecValue>, i: int)
    requires
        counts_rows(vals, f),
        0 <= i <= vals.len(),
    ensures
        flat_by(vals.take(i), f).len() == total_len(vals.take(i)),
        total_len(vals.take(i)) <= total_len(vals),
        flat_by(vals, f).len() == total_len(vals),
        flat_by(vals.take(i), f) == flat_by(vals, f).subrange(0, total_len(vals.take(i)) as int),
    decreases vals.len() - i,
{
    lemma_flat_len(vals, f);
    lemma_counts_take(vals, f, i);
    lemma_flat_len(vals.take(i), f);
    if i < vals.len() {
        lemma_flat_prefix(vals, f, i + 1);
        lemma_total_len_step(vals, i);
        let next = vals.take(i + 1);
        assert(next.drop_last() =~= vals.take(i));
        assert(next.last() == vals[i]);
        assert(flat_by(vals.take(i), f) =~= flat_by(next, f).subrange(
            0,
            total_len(vals.take(i)) as int,
        ));
        assert(flat_by(vals.take(i), f) =~= flat_by(vals, f).subrange(
            0,
            total_len(vals.take(i)) as int,
        ));
    } else {
        assert(vals.take(i) =~= vals);
        assert(flat_by(vals, f) =~= flat_by(vals, f).subrange(0, total_len(vals) as int));
    }
}

/// The members of row `i` stand among the members of all rows between the
/// row's offsets.
proof fn lemma_flat_row(vals: Seq<SpecValue>, f: spec_fn(SpecValue) -> Seq<SpecValue>, i: int)
    requires
        counts_rows(vals, f),
        0 <= i < vals.len(),
    ensures
        row_members(flat_by(vals, f), offsets(vals), i) == f(vals[i]),
        flat_by(vals, f).len() == total_len(vals),
        total_len(vals.take(i)) + f(vals[i]).len() == total_len(vals.take(i + 1)),
        total_len(vals.take(i + 1)) <= total_len(vals),
        forall|k: int|
            0 <= k < f(vals[i]).len() ==> flat_by(vals, f)[total_len(vals.take(i)) + k]
                == #[trigger] f(vals[i])[k],
{
    lemma_offsets(vals);
    lemma_flat_prefix(vals, f, i);
    lemma_flat_prefix(vals, f, i + 1);
    lemma_total_len_step(vals, i);
    let next = vals.take(i + 1);
    assert(next.drop_last() =~= vals.take(i));
    assert(next.last() == vals[i]);
    if i > 0 {
        assert(offsets(vals)[i - 1] == total_len(vals.take(i)));
    } else {
        assert(vals.take(0) =~= Seq::<SpecValue>::empty());
    }
    let a = total_len(vals.take(i)) as int;
    let b = total_len(vals.take(i + 1)) as int;
    assert(flat_by(vals, f).subrange(a, b) =~= flat_by(next, f).subrange(a, b));
    assert(flat_by(next, f).subrange(a, b) =~= f(vals[i]));
    assert forall|k: int| 0 <= k < f(vals[i]).len() implies flat_by(vals, f)[a + k]
        == #[trigger] f(vals[i])[k] by {
        assert(flat_by(vals, f).subrange(a, b)[k] == flat_by(vals, f)[a + k]);
    }
}

/// Each member of all rows is a member of some row.
proof fn lemma_flat_member(
    vals: Seq<SpecValue>,
    f: spec_fn(SpecValue) -> Seq<SpecValue>,
    k: int,
) -> (at: (int, int))
    requires
        0 <= k < flat_by(vals, f).len(),
    ensures
        0 <= at.0 < vals.len(),
        0 <= at.1 < f(vals[at.0]).len(),
        flat_by(vals, f)[k] == f(vals[at.0])[at.1],
    decreases vals.len(),
{
    let front = vals.drop_last();
    if k < flat_by(front, f).len() {
        let at = lemma_flat_member(front, f, k);
        assert(front[at.0] == vals[at.0]);
        at
    } else {
        (vals.len() - 1, k - flat_by(front, f).len())
    }
}

// ---------------------------------------------------------------------------
// Nullable columns

/// The column under a nullable column holds one value of the type underneath
/// for each row, whether the row is `Null` or not; the mask holds one byte
/// for each row.
pub proof fn lemma_nullable_column(x: SpecType, vals: Seq<SpecValue>)
    requires
        all_writable(SpecType::Nullable(Box::new(x)), vals),
    ensures
        fill_nulls(x, vals).len() == vals.len(),
        null_mask(vals).len() == vals.len(),
        all_writable(x, fill_nulls(x, vals)),
        column_bytes(SpecType::Nullable(Box::new(x)), vals) == null_mask(vals) + column_bytes(
            x,
            fill_nulls(x, vals),
        ),
{
    let t = SpecType::Nullable(Box::new(x));
    let f = fill_nulls(x, vals);
    assert forall|i: int| 0 <= i < f.len() implies writable(x, #[trigger] f[i]) by {
        if vals[i] is Null {
            lemma_default_writable(x);
        } else {
            assert(writable(t, vals[i]));
        }
    }
}

// ---------------------------------------------------------------------------
// Dictionaries

/// The dictionary index of each row.
pub open spec fn indices_of(dict: Seq<SpecValue>, nullable: bool, vals: Seq<SpecValue>) -> Seq<nat> {
    Seq::new(vals.len(), |i: int| dictionary_index(dict, nullable, vals[i]))
}

proof fn lemma_indices_bytes(
    dict: Seq<SpecValue>,
    nullable: bool,
    vals: Seq<SpecValue>,
    width: nat,
    n: nat,
)
    requires
        n <= vals.len(),
    ensures
        indices_bytes(dict, nullable, vals, width, n) == numbers_bytes(
            indices_of(dict, nullable, vals).take(n as int),
            width,
        ),
    decreases n,
{
    let all = indices_of(dict, nullable, vals);
    if n > 0 {
        lemma_indices_bytes(dict, nullable, vals, width, (n - 1) as nat);
        assert(all.take(n as int).drop_last() =~= all.take(n - 1));
        assert(all.take(n as int).last() == dictionary_index(dict, nullable, vals[n - 1]));
    } else {
        assert(all.take(0) =~= Seq::<nat>::empty());
    }
}

/// What a dictionary holds: the slot set apart, each value of the column in
/// a slot of its own behind it, and nothing else.
proof fn lemma_dictionary(vals: Seq<SpecValue>, nullable: bool, placeholder: SpecValue)
    ensures
        ({
            let dict = dictionary(vals, nullable, placeholder);
            let start = reserved_slots(nullable);
            &&& start <= dict.len() <= vals.len() + start
            &&& nullable ==> dict[0] == placeholder
            &&& forall|i: int|
                0 <= i < vals.len() ==> dictionary_index(dict, nullable, #[trigger] vals[i])
                    < dict.len()
            &&& forall|i: int|
                0 <= i < vals.len() && !(nullable && vals[i] is Null) ==> start
                    <= dictionary_index(dict, nullable, #[trigger] vals[i]) && dict[dictionary_index(
                    dict,
                    nullable,
                    vals[i],
                ) as int] == vals[i]
            &&& forall|k: int|
                start <= k < dict.len() ==> exists|i: int|
                    0 <= i < vals.len() && !(nullable && vals[i] is Null) && #[trigger] dict[k]
                        == vals[i]
        }),
    decreases vals.len(),
{
    let dict = dictionary(vals, nullable, placeholder);
    let start = reserved_slots(nullable);
    if vals.len() > 0 {
        let front = vals.drop_last();
        let v = vals.last();
        let d = dictionary(front, nullable, placeholder);
        lemma_dictionary(front, nullable, placeholder);
        lemma_position_bounds(d, v, start);
        assert forall|i: int| 0 <= i < vals.len() implies dictionary_index(
            dict,
            nullable,
            #[trigger] vals[i],
        ) < dict.len() && (!(nullable && vals[i] is Null) ==> start <= dictionary_index(
            dict,
            nullable,
            vals[i],
        ) && dict[dictionary_index(dict, nullable, vals[i]) as int] == vals[i]) by {
            if !(nullable && vals[i] is Null) {
                if i < front.len() {
                    assert(front[i] == vals[i]);
                    lemma_position_bounds(d, vals[i], start);
                    if dict != d {
                        lemma_position_push(d, v, vals[i], start);
                    }
                } else {
                    if dict != d {
                        lemma_position_push(d, v, v, start);
                    }
                }
            }
        }
        assert forall|k: int| start <= k < dict.len() implies exists|i: int|
            0 <= i < vals.len() && !(nullable && vals[i] is Null) && #[trigger] dict[k]
                == vals[i] by {
            if k < d.len() {
                let i = choose|i: int|
                    0 <= i < front.len() && !(nullable && front[i] is Null) && d[k] == front[i];
                assert(front[i] == vals[i]);
                assert(dict[k] == d[k]);
            } else {
                assert(dict[k] == vals[vals.len() - 1]);
            }
        }
    }
}

/// The narrowest width: every index into a dictionary fits the width that
/// the size of the dictionary asks for, and no narrower width holds the last
/// index.
pub proof fn lemma_index_width_minimal(size: nat)
    requires
        size <= two_64(),
    ensures
        index_width_code(size) <= 3,
        size <= pow256(index_width(index_width_code(size))),
        forall|code: nat|
            code < index_width_code(size) ==> size > pow256(#[trigger] index_width(code)),
{
    lemma_pow256_values();
}

/// In a nullable dictionary-encoded column whose dictionary holds no `Null`,
/// a row is `Null` exactly where its index is `0`.
proof fn lemma_null_index(entries: Seq<SpecValue>, indices: Seq<nat>, i: int)
    requires
        0 <= i < indices.len(),
        all_below(indices, entries.len()),
        forall|k: int| 0 <= k < entries.len() ==> !((#[trigger] entries[k]) is Null),
    ensures
        dictionary_rows(entries, true, indices)[i] is Null <==> indices[i] == 0,
        !(dictionary_rows(entries, false, indices)[i] is Null),
{
    assert(indices[i] < entries.len());
}

/// A column of a type that is no container, no `Nullable` and no
/// `LowCardinality` over such holds no `Null`.
proof fn lemma_scalars_not_null(t: SpecType, data: Seq<u8>, pos: int, n: nat)
    requires
        !t.is_composite(),
    ensures
        read_scalars(t, data, pos, n) matches Some((vs, end)) ==> vs.len() == n && forall|k: int|
            0 <= k < n ==> !((#[trigger] vs[k]) is Null),
    decreases n,
{
    if n > 0 {
        lemma_scalars_not_null(t, data, pos, (n - 1) as nat);
    }
}

// ---------------------------------------------------------------------------
// Columns

/// Whether reading gives a column back from where its bytes stand: reading
/// succeeds, ends where the bytes end, gives as many rows as were written,
/// and gives each faithful row as it was.
pub open spec fn reads_back(t: SpecType, vals: Seq<SpecValue>, data: Seq<u8>, pos: int) -> bool {
    match read_column(t, data, pos, vals.len()) {
        Some((back, end)) => {
            &&& end == pos + column_bytes(t, vals).len()
            &&& back.len() == vals.len()
            &&& forall|i: int|
                0 <= i < vals.len() && faithful(t, vals[i]) ==> #[trigger] back[i] == vals[i]
        },
        None => false,
    }
}

proof fn lemma_flat_writable(
    x: SpecType,
    vals: Seq<SpecValue>,
    f: spec_fn(SpecValue) -> Seq<SpecValue>,
)
    requires
        forall|i: int, j: int|
            0 <= i < vals.len() && 0 <= j < f(vals[i]).len() ==> writable(
                x,
                #[trigger] f(vals[i])[j],
            ),
    ensures
        all_writable(x, flat_by(vals, f)),
{
    assert forall|k: int| 0 <= k < flat_by(vals, f).len() implies writable(
        x,
        #[trigger] flat_by(vals, f)[k],
    ) by {
        let at = lemma_flat_member(vals, f, k);
        assert(writable(x, f(vals[at.0])[at.1]));
    }
}

/// Rows cut from members that came back are the rows that were written.
proof fn lemma_rows_back(
    vals: Seq<SpecValue>,
    f: spec_fn(SpecValue) -> Seq<SpecValue>,
    back: Seq<SpecValue>,
    i: int,
)
    requires
        counts_rows(vals, f),
        0 <= i < vals.len(),
        back.len() == flat_by(vals, f).len(),
        forall|j: int|
            0 <= j < f(vals[i]).len() ==> back[total_len(vals.take(i)) + j] == #[trigger] f(
                vals[i],
            )[j],
    ensures
        row_members(back, offsets(vals), i) == f(vals[i]),
{
    lemma_flat_row(vals, f, i);
    lemma_offsets(vals);
    if i > 0 {
        assert(offsets(vals)[i - 1] == total_len(vals.take(i)));
    } else {
        assert(vals.take(0) =~= Seq::<SpecValue>::empty());
    }
    let a = total_len(vals.take(i)) as int;
    assert(row_members(back, offsets(vals), i) =~= f(vals[i])) by {
        assert forall|j: int| 0 <= j < f(vals[i]).len() implies row_members(
            back,
            offsets(vals),
            i,
        )[j] == f(vals[i])[j] by {
            assert(back[a + j] == f(vals[i])[j]);
        }
    }
}

/// Where the members of a faithful row came back as they were, the row cut
/// from them is the row that was written.
proof fn lemma_faithful_row_back(
    x: SpecType,
    vals: Seq<SpecValue>,
    f: spec_fn(SpecValue) -> Seq<SpecValue>,
    back: Seq<SpecValue>,
    i: int,
)
    requires
        counts_rows(vals, f),
        0 <= i < vals.len(),
        back.len() == flat_by(vals, f).len(),
        forall|k: int|
            0 <= k < back.len() && faithful(x, flat_by(vals, f)[k]) ==> #[trigger] back[k]
                == flat_by(vals, f)[k],
        forall|j: int| 0 <= j < f(vals[i]).len() ==> faithful(x, #[trigger] f(vals[i])[j]),
    ensures
        row_members(back, offsets(vals), i) == f(vals[i]),
{
    lemma_flat_row(vals, f, i);
    assert forall|j: int| 0 <= j < f(vals[i]).len() implies back[total_len(vals.take(i)) + j]
        == #[trigger] f(vals[i])[j] by {
        let k = total_len(vals.take(i)) + j;
        assert(flat_by(vals, f)[k] == f(vals[i])[j]);
        assert(faithful(x, f(vals[i])[j]));
        assert(back[k] == flat_by(vals, f)[k]);
    }
    lemma_rows_back(vals, f, back, i);
}

/// The offsets of a column are read back from where they stand.
proof fn lemma_offsets_round_trip(vals: Seq<SpecValue>, data: Seq<u8>, pos: int)
    requires
        total_len(vals) <= usize::MAX,
        stands_at(data, pos, offsets_bytes(offsets(vals))),
    ensures
        read_offsets(data, pos, vals.len()) == Some(offsets(vals)),
        offsets_bytes(offsets(vals)).len() == 8 * vals.len(),
        last_offset(offsets(vals)) == total_len(vals),
{
    let offs = offsets(vals);
    lemma_offsets(vals);
    lemma_offsets_bytes(offs);
    lemma_pow256_values();
    assert forall|i: int| 0 <= i < offs.len() implies #[trigger] offs[i] < pow256(8) by {
        assert(offs[i] <= total_len(vals));
    }
    lemma_numbers_round_trip(offs, 8, data, pos);
}

/// A column of arrays is read back from where it stands.
proof fn lemma_array_round_trip(x: SpecType, vals: Seq<SpecValue>, data: Seq<u8>, pos: int)
    requires
        all_writable(SpecType::Array(Box::new(x)), vals),
        fits_wire(SpecType::Array(Box::new(x)), vals),
        stands_at(data, pos, column_bytes(SpecType::Array(Box::new(x)), vals)),
    ensures
        reads_back(SpecType::Array(Box::new(x)), vals, data, pos),
    decreases SpecType::Array(Box::new(x)), 0nat,
{
    let t = SpecType::Array(Box::new(x));
    let f = members_of();
    let offs = offsets(vals);
    let flat = flat_members(vals);
    lemma_flat_forms(vals);
    assert forall|k: int| 0 <= k < vals.len() implies f(#[trigger] vals[k]).len() == row_len(
        vals[k],
    ) by {
        assert(writable(t, vals[k]));
    }
    assert forall|i: int, j: int| 0 <= i < vals.len() && 0 <= j < f(vals[i]).len() implies writable(
        x,
        #[trigger] f(vals[i])[j],
    ) by {
        assert(writable(t, vals[i]));
        assert(writable(x, vals[i]->Array_0[j]));
    }
    lemma_flat_writable(x, vals, f);
    lemma_flat_len(vals, f);
    lemma_stands_split(data, pos, offsets_bytes(offs), column_bytes(x, flat));
    lemma_offsets_round_trip(vals, data, pos);
    lemma_column_round_trip(x, flat, data, pos + 8 * vals.len());
    let (members, end) = read_column(x, data, pos + 8 * vals.len(), flat.len())->0;
    let back = array_rows(members, offs);
    lemma_offsets(vals);
    assert(read_column(t, data, pos, vals.len()) == Some((back, end)));
    assert forall|i: int| 0 <= i < vals.len() && faithful(t, vals[i]) implies #[trigger] back[i]
        == vals[i] by {
        assert(writable(t, vals[i]));
        assert forall|j: int| 0 <= j < f(vals[i]).len() implies faithful(
            x,
            #[trigger] f(vals[i])[j],
        ) by {
            assert(f(vals[i])[j] == vals[i]->Array_0[j]);
            assert(conforms(x, vals[i]->Array_0[j]));
            assert(writable(x, vals[i]->Array_0[j]));
            assert(full_width(x, vals[i]->Array_0[j]));
        }
        lemma_faithful_row_back(x, vals, f, members, i);
        assert(f(vals[i]) == vals[i]->Array_0);
        assert(back[i] == SpecValue::Array(row_members(members, offs, i)));
    }
}

/// A column of maps is read back from where it stands.
#[verifier::rlimit(40)]
proof fn lemma_map_round_trip(
    k: SpecType,
    v: SpecType,
    vals: Seq<SpecValue>,
    data: Seq<u8>,
    pos: int,
)
    requires
        all_writable(SpecType::Mapping(Box::new(k), Box::new(v)), vals),
        fits_wire(SpecType::Mapping(Box::new(k), Box::new(v)), vals),
        stands_at(data, pos, column_bytes(SpecType::Mapping(Box::new(k), Box::new(v)), vals)),
    ensures
        reads_back(SpecType::Mapping(Box::new(k), Box::new(v)), vals, data, pos),
    decreases SpecType::Mapping(Box::new(k), Box::new(v)), 0nat,
{
    let t = SpecType::Mapping(Box::new(k), Box::new(v));
    let fk = keys_of();
    let fv = values_of();
    let offs = offsets(vals);
    let all_keys = flat_keys(vals);
    let all_values = flat_values(vals);
    lemma_flat_forms(vals);
    lemma_map_parts(k, v, vals);
    lemma_flat_writable(k, vals, fk);
    lemma_flat_writable(v, vals, fv);
    lemma_flat_len(vals, fk);
    lemma_flat_len(vals, fv);
    let head = offsets_bytes(offs);
    let key_bytes = column_bytes(k, all_keys);
    let value_bytes = column_bytes(v, all_values);
    lemma_stands_split(data, pos, head + key_bytes, value_bytes);
    lemma_stands_split(data, pos, head, key_bytes);
    lemma_offsets_round_trip(vals, data, pos);
    lemma_offsets(vals);
    let start = pos + 8 * vals.len();
    lemma_column_round_trip(k, all_keys, data, start);
    let (keys, mid) = read_column(k, data, start, all_keys.len())->0;
    lemma_column_round_trip(v, all_values, data, mid);
    let (values, end) = read_column(v, data, mid, all_values.len())->0;
    let back = map_rows(keys, values, offs);
    assert(read_column(t, data, pos, vals.len()) == Some((back, end)));
    assert forall|i: int| 0 <= i < vals.len() && faithful(t, vals[i]) implies #[trigger] back[i]
        == vals[i] by {
        lemma_map_row_faithful(k, v, vals[i]);
        lemma_faithful_row_back(k, vals, fk, keys, i);
        lemma_faithful_row_back(v, vals, fv, values, i);
        assert(back[i] == SpecValue::Mapping(
            row_members(keys, offs, i),
            row_members(values, offs, i),
        ));
        assert(vals[i] is Mapping);
    }
}

/// The rows of a column of maps that can be written have as many keys as
/// values, each of which can be written.
proof fn lemma_map_parts(k: SpecType, v: SpecType, vals: Seq<SpecValue>)
    requires
        all_writable(SpecType::Mapping(Box::new(k), Box::new(v)), vals),
    ensures
        counts_rows(vals, keys_of()),
        counts_rows(vals, values_of()),
        forall|i: int, j: int|
            0 <= i < vals.len() && 0 <= j < keys_of()(vals[i]).len() ==> writable(
                k,
                #[trigger] keys_of()(vals[i])[j],
            ),
        forall|i: int, j: int|
            0 <= i < vals.len() && 0 <= j < values_of()(vals[i]).len() ==> writable(
                v,
                #[trigger] values_of()(vals[i])[j],
            ),
{
    let t = SpecType::Mapping(Box::new(k), Box::new(v));
    let fk = keys_of();
    let fv = values_of();
    assert forall|i: int| 0 <= i < vals.len() implies fk(#[trigger] vals[i]).len() == row_len(
        vals[i],
    ) by {
        assert(writable(t, vals[i]));
    }
    assert forall|i: int| 0 <= i < vals.len() implies fv(#[trigger] vals[i]).len() == row_len(
        vals[i],
    ) by {
        assert(writable(t, vals[i]));
    }
    assert forall|i: int, j: int|
        0 <= i < vals.len() && 0 <= j < fk(vals[i]).len() implies writable(
        k,
        #[trigger] fk(vals[i])[j],
    ) by {
        assert(writable(t, vals[i]));
        assert(writable(k, vals[i]->Mapping_0[j]));
    }
    assert forall|i: int, j: int|
        0 <= i < vals.len() && 0 <= j < fv(vals[i]).len() implies writable(
        v,
        #[trigger] fv(vals[i])[j],
    ) by {
        assert(writable(t, vals[i]));
        assert(writable(v, vals[i]->Mapping_1[j]));
    }
}

/// The keys and the values of a faithful map are faithful.
proof fn lemma_map_row_faithful(k: SpecType, v: SpecType, row: SpecValue)
    requires
        faithful(SpecType::Mapping(Box::new(k), Box::new(v)), row),
    ensures
        row is Mapping,
        forall|j: int|
            0 <= j < keys_of()(row).len() ==> faithful(k, #[trigger] keys_of()(row)[j]),
        forall|j: int|
            0 <= j < values_of()(row).len() ==> faithful(v, #[trigger] values_of()(row)[j]),
{
    assert forall|j: int| 0 <= j < keys_of()(row).len() implies faithful(
        k,
        #[trigger] keys_of()(row)[j],
    ) by {
        assert(conforms(k, row->Mapping_0[j]));
        assert(writable(k, row->Mapping_0[j]));
        assert(full_width(k, row->Mapping_0[j]));
    }
    assert forall|j: int| 0 <= j < values_of()(row).len() implies faithful(
        v,
        #[trigger] values_of()(row)[j],
    ) by {
        assert(conforms(v, row->Mapping_1[j]));
        assert(writable(v, row->Mapping_1[j]));
        assert(full_width(v, row->Mapping_1[j]));
    }
}

/// A nullable column is read back from where it stands.
proof fn lemma_nullable_round_trip(x: SpecType, vals: Seq<SpecValue>, data: Seq<u8>, pos: int)
    requires
        all_writable(SpecType::Nullable(Box::new(x)), vals),
        fits_wire(SpecType::Nullable(Box::new(x)), vals),
        stands_at(data, pos, column_bytes(SpecType::Nullable(Box::new(x)), vals)),
    ensures
        reads_back(SpecType::Nullable(Box::new(x)), vals, data, pos),
    decreases SpecType::Nullable(Box::new(x)), 0nat,
{
    let t = SpecType::Nullable(Box::new(x));
    let mask = null_mask(vals);
    let filled = fill_nulls(x, vals);
    lemma_nullable_column(x, vals);
    lemma_stands_split(data, pos, mask, column_bytes(x, filled));
    lemma_column_round_trip(x, filled, data, pos + vals.len());
    let (inner, end) = read_column(x, data, pos + vals.len(), filled.len())->0;
    let back = nullable_rows(data.subrange(pos, pos + vals.len()), inner);
    assert(read_column(t, data, pos, vals.len()) == Some((back, end)));
    assert forall|i: int| 0 <= i < vals.len() && faithful(t, vals[i]) implies #[trigger] back[i]
        == vals[i] by {
        assert(mask[i] == data.subrange(pos, pos + vals.len())[i]);
        if !(vals[i] is Null) {
            assert(filled[i] == vals[i]);
            assert(faithful(x, filled[i]));
            assert(inner[i] == filled[i]);
        }
    }
}

/// The columns of the first `k` members of a tuple column are read back from
/// where they stand.
proof fn lemma_tuple_round_trip(
    ts: Seq<SpecType>,
    vals: Seq<SpecValue>,
    data: Seq<u8>,
    pos: int,
    k: nat,
)
    requires
        k <= ts.len(),
        all_writable(SpecType::Tuple(ts), vals),
        fits_wire(SpecType::Tuple(ts), vals),
        stands_at(data, pos, tuple_bytes(ts, vals, k)),
    ensures
        read_tuple_columns(ts, data, pos, vals.len(), k) matches Some((columns, end)) && {
            &&& end == pos + tuple_bytes(ts, vals, k).len()
            &&& columns.len() == k
            &&& forall|j: int| 0 <= j < k ==> (#[trigger] columns[j]).len() == vals.len()
            &&& forall|j: int, i: int|
                0 <= j < k && 0 <= i < vals.len() && faithful(ts[j], vals[i]->Tuple_0[j])
                    ==> #[trigger] columns[j][i] == vals[i]->Tuple_0[j]
        },
    decreases ts, k,
{
    let t = SpecType::Tuple(ts);
    if k > 0 {
        let j = k - 1;
        let column = tuple_column(vals, j);
        lemma_stands_split(
            data,
            pos,
            tuple_bytes(ts, vals, (k - 1) as nat),
            column_bytes(ts[j], column),
        );
        lemma_tuple_round_trip(ts, vals, data, pos, (k - 1) as nat);
        let (front, mid) = read_tuple_columns(ts, data, pos, vals.len(), (k - 1) as nat)->0;
        assert forall|i: int| 0 <= i < column.len() implies writable(ts[j], #[trigger] column[i]) by {
            assert(writable(t, vals[i]));
            assert(writable(ts[j], vals[i]->Tuple_0[j]));
        }
        assert(fits_wire(ts[j], column));
        lemma_column_round_trip(ts[j], column, data, mid);
        let (read, end) = read_column(ts[j], data, mid, vals.len())->0;
        let columns = front.push(read);
        assert(read_tuple_columns(ts, data, pos, vals.len(), k) == Some((columns, end)));
        assert forall|c: int, i: int|
            0 <= c < k && 0 <= i < vals.len() && faithful(
                ts[c],
                vals[i]->Tuple_0[c],
            ) implies #[trigger] columns[c][i] == vals[i]->Tuple_0[c] by {
            if c < k - 1 {
                assert(columns[c] == front[c]);
            } else {
                assert(column[i] == vals[i]->Tuple_0[j]);
                assert(read[i] == column[i]);
            }
        }
    }
}

/// A dictionary-encoded column whose indices have any width that holds them
/// is read back from where it stands.
pub proof fn lemma_dictionary_round_trip(
    inner: SpecType,
    nullable: bool,
    vals: Seq<SpecValue>,
    code: nat,
    data: Seq<u8>,
    pos: int,
)
    requires
        code <= 3,
        dictionary(vals, nullable, default_of(inner)).len() <= pow256(index_width(code)),
        vals.len() <= usize::MAX,
        dictionary(vals, nullable, default_of(inner)).len() <= usize::MAX,
        forall|i: int|
            0 <= i < vals.len() ==> (nullable && (#[trigger] vals[i]) is Null) || writable(
                inner,
                vals[i],
            ),
        fits_wire(inner, dictionary(vals, nullable, default_of(inner))),
        stands_at(
            data,
            pos,
            dictionary_column_bytes_with(
                dictionary(vals, nullable, default_of(inner)),
                nullable,
                vals,
                column_bytes(inner, dictionary(vals, nullable, default_of(inner))),
                code,
            ),
        ),
    ensures
        read_dictionary_column(inner, data, pos, vals.len()) matches Some(parts) && {
            &&& parts.end == pos + dictionary_column_bytes_with(
                dictionary(vals, nullable, default_of(inner)),
                nullable,
                vals,
                column_bytes(inner, dictionary(vals, nullable, default_of(inner))),
                code,
            ).len()
            &&& parts.indices == indices_of(
                dictionary(vals, nullable, default_of(inner)),
                nullable,
                vals,
            )
            &&& forall|i: int|
                0 <= i < vals.len() && ((nullable && vals[i] is Null) || faithful(inner, vals[i]))
                    ==> #[trigger] dictionary_rows(parts.entries, nullable, parts.indices)[i]
                    == vals[i]
        },
    decreases inner, 2nat,
{
    let dict = dictionary(vals, nullable, default_of(inner));
    let start = reserved_slots(nullable);
    let width = index_width(code);
    let n = vals.len();
    let flags = crate::types::layout::column_flags(code);
    let a = le_bytes(flags, 8);
    let b = le_bytes(dict.len(), 8);
    let c = column_bytes(inner, dict);
    let d = le_bytes(n, 8);
    let e = indices_bytes(dict, nullable, vals, width, n);
    lemma_dictionary(vals, nullable, default_of(inner));
    lemma_pow256_values();
    lemma_stands_split(data, pos, a + b + c + d, e);
    lemma_stands_split(data, pos, a + b + c, d);
    lemma_stands_split(data, pos, a + b, c);
    lemma_stands_split(data, pos, a, b);
    lemma_unsigned(flags, 8);
    lemma_unsigned(dict.len(), 8);
    lemma_unsigned(n, 8);
    assert(flags_width_code(flags) == Some(code));
    assert forall|k: int| 0 <= k < dict.len() implies writable(inner, #[trigger] dict[k]) by {
        if k < start {
            lemma_default_writable(inner);
        } else {
            let i = choose|i: int|
                0 <= i < vals.len() && !(nullable && vals[i] is Null) && dict[k] == vals[i];
            assert(writable(inner, vals[i]));
        }
    }
    lemma_column_round_trip(inner, dict, data, pos + 16);
    let (entries, mid) = read_column(inner, data, pos + 16, dict.len())->0;
    let indices = indices_of(dict, nullable, vals);
    lemma_indices_bytes(dict, nullable, vals, width, n);
    assert(indices.take(n as int) =~= indices);
    assert forall|i: int| 0 <= i < indices.len() implies #[trigger] indices[i] < pow256(width) by {
        assert(dictionary_index(dict, nullable, vals[i]) < dict.len());
    }
    lemma_numbers_round_trip(indices, width, data, mid + 8);
    assert(all_below(indices, dict.len())) by {
        assert forall|i: int| 0 <= i < indices.len() implies #[trigger] indices[i] < dict.len() by {
            assert(dictionary_index(dict, nullable, vals[i]) < dict.len());
        }
    }
    let parts = DictionaryColumn { entries, indices, end: mid + 8 + width * n };
    assert(read_dictionary_column(inner, data, pos, n) == Some(parts));
    assert forall|i: int|
        0 <= i < vals.len() && ((nullable && vals[i] is Null) || faithful(
            inner,
            vals[i],
        )) implies #[trigger] dictionary_rows(entries, nullable, indices)[i] == vals[i] by {
        let index = dictionary_index(dict, nullable, vals[i]);
        assert(indices[i] == index);
        if !(nullable && vals[i] is Null) {
            assert(dict[index as int] == vals[i]);
            assert(faithful(inner, dict[index as int]));
            assert(entries[index as int] == dict[index as int]);
        }
    }
}

/// A column is read back from where its bytes stand: reading succeeds, ends
/// where the bytes end, and gives each faithful row as it was written.
pub proof fn lemma_column_round_trip(t: SpecType, vals: Seq<SpecValue>, data: Seq<u8>, pos: int)
    requires
        all_writable(t, vals),
        fits_wire(t, vals),
        stands_at(data, pos, column_bytes(t, vals)),
    ensures
        reads_back(t, vals, data, pos),
    decreases t, 1nat,
{
    match t {
        SpecType::Array(x) => {
            lemma_array_round_trip(*x, vals, data, pos);
            assert(reads_back(t, vals, data, pos));
        },
        SpecType::Nullable(x) => {
            lemma_nullable_round_trip(*x, vals, data, pos);
            assert(reads_back(t, vals, data, pos));
        },
        SpecType::Mapping(k, v) => {
            lemma_map_round_trip(*k, *v, vals, data, pos);
            assert(reads_back(t, vals, data, pos));
        },
        SpecType::Tuple(ts) => {
            lemma_tuple_round_trip(ts, vals, data, pos, ts.len());
            let (columns, end) = read_tuple_columns(ts, data, pos, vals.len(), ts.len())->0;
            let back = tuple_rows(columns, vals.len());
            assert(read_column(t, data, pos, vals.len()) == Some((back, end)));
            assert forall|i: int| 0 <= i < vals.len() && faithful(t, vals[i]) implies #[trigger] back[i]
                == vals[i] by {
                let row = vals[i]->Tuple_0;
                assert(writable(t, vals[i]));
                assert forall|j: int| 0 <= j < ts.len() implies columns[j][i] == row[j] by {
                    assert(conforms(ts[j], row[j]));
                    assert(writable(ts[j], row[j]));
                    assert(full_width(ts[j], row[j]));
                }
                assert(back[i]->Tuple_0 =~= row);
            }
            assert(reads_back(t, vals, data, pos));
        },
        SpecType::LowCardinality(x) => {
            match *x {
                SpecType::Nullable(y) => {
                    let dict = dictionary(vals, true, default_of(*y));
                    lemma_dictionary(vals, true, default_of(*y));
                    lemma_index_width_minimal(dict.len());
                    assert forall|i: int| 0 <= i < vals.len() implies ((#[trigger] vals[i]) is Null)
                        || writable(*y, vals[i]) by {
                        assert(writable(t, vals[i]));
                        assert(writable(*x, vals[i]));
                    }
                    lemma_dictionary_round_trip(
                        *y,
                        true,
                        vals,
                        index_width_code(dict.len()),
                        data,
                        pos,
                    );
                    let parts = read_dictionary_column(*y, data, pos, vals.len())->0;
                    let back = dictionary_rows(parts.entries, true, parts.indices);
                    assert(read_column(t, data, pos, vals.len()) == Some((back, parts.end)));
                    assert forall|i: int|
                        0 <= i < vals.len() && faithful(t, vals[i]) implies #[trigger] back[i]
                        == vals[i] by {
                        assert(conforms(*x, vals[i]));
                        assert(writable(*x, vals[i]));
                        assert(full_width(*x, vals[i]));
                    }
                    assert(reads_back(t, vals, data, pos));
                },
                _ => {
                    let dict = dictionary(vals, false, default_of(*x));
                    lemma_dictionary(vals, false, default_of(*x));
                    lemma_index_width_minimal(dict.len());
                    assert forall|i: int| 0 <= i < vals.len() implies writable(
                        *x,
                        #[trigger] vals[i],
                    ) by {
                        assert(writable(t, vals[i]));
                    }
                    lemma_dictionary_round_trip(
                        *x,
                        false,
                        vals,
                        index_width_code(dict.len()),
                        data,
                        pos,
                    );
                    let parts = read_dictionary_column(*x, data, pos, vals.len())->0;
                    let back = dictionary_rows(parts.entries, false, parts.indices);
                    assert(read_column(t, data, pos, vals.len()) == Some((back, parts.end)));
                    assert forall|i: int|
                        0 <= i < vals.len() && faithful(t, vals[i]) implies #[trigger] back[i]
                        == vals[i] by {
                        assert(conforms(*x, vals[i]));
                        assert(writable(*x, vals[i]));
                        assert(full_width(*x, vals[i]));
                    }
                    assert(reads_back(t, vals, data, pos));
                },
            }
        },
        _ => {
            lemma_scalars_round_trip(t, vals, data, pos);
            assert(reads_back(t, vals, data, pos));
        },
    }
}

/// What stands before the body of a column is read back from where it
/// stands.
pub proof fn lemma_prefix_round_trip(t: SpecType, data: Seq<u8>, pos: int)
    requires
        stands_at(data, pos, prefix_bytes(t)),
    ensures
        read_prefix(t, data, pos) == Some(pos + prefix_bytes(t).len()),
    decreases t, 0nat,
{
    match t {
        SpecType::LowCardinality(_) => {
            lemma_pow256_values();
            lemma_unsigned(LOW_CARDINALITY_VERSION as nat, 8);
        },
        SpecType::Array(x) => lemma_prefix_round_trip(*x, data, pos),
        SpecType::Nullable(x) => lemma_prefix_round_trip(*x, data, pos),
        SpecType::Tuple(ts) => lemma_tuple_prefix_round_trip(ts, data, pos, ts.len()),
        SpecType::Mapping(k, v) => {
            lemma_stands_split(data, pos, prefix_bytes(*k), prefix_bytes(*v));
            lemma_prefix_round_trip(*k, data, pos);
            lemma_prefix_round_trip(*v, data, pos + prefix_bytes(*k).len());
        },
        _ => {},
    }
}

proof fn lemma_tuple_prefix_round_trip(ts: Seq<SpecType>, data: Seq<u8>, pos: int, k: nat)
    requires
        k <= ts.len(),
        stands_at(data, pos, tuple_prefix_bytes(ts, k)),
    ensures
        read_tuple_prefix(ts, data, pos, k) == Some(pos + tuple_prefix_bytes(ts, k).len()),
    decreases ts, k,
{
    if k > 0 {
        lemma_stands_split(
            data,
            pos,
            tuple_prefix_bytes(ts, (k - 1) as nat),
            prefix_bytes(ts[k - 1]),
        );
        lemma_tuple_prefix_round_trip(ts, data, pos, (k - 1) as nat);
        lemma_prefix_round_trip(
            ts[k - 1],
            data,
            pos + tuple_prefix_bytes(ts, (k - 1) as nat).len(),
        );
    }
}

// ---------------------------------------------------------------------------
// The laws of the codec

/// Whether every row of a column is faithful.
pub open spec fn all_faithful(t: SpecType, vals: Seq<SpecValue>) -> bool {
    forall|i: int| 0 <= i < vals.len() ==> faithful(t, #[trigger] vals[i])
}

/// Writing then reading gives the column back.
///
/// Where the prefix and the body of a column of faithful rows stand one after
/// the other, reading the prefix and then the body succeeds, gives the rows
/// that were written, and ends where the bytes end.
pub proof fn lemma_codec_round_trip(t: SpecType, vals: Seq<SpecValue>, data: Seq<u8>, pos: int)
    requires
        all_faithful(t, vals),
        fits_wire(t, vals),
        stands_at(data, pos, prefix_bytes(t) + column_bytes(t, vals)),
    ensures
        read_prefix(t, data, pos) == Some(pos + prefix_bytes(t).len()),
        read_column(t, data, pos + prefix_bytes(t).len(), vals.len()) == Some(
            (vals, pos + prefix_bytes(t).len() + column_bytes(t, vals).len()),
        ),
{
    lemma_stands_split(data, pos, prefix_bytes(t), column_bytes(t, vals));
    lemma_prefix_round_trip(t, data, pos);
    let mid = pos + prefix_bytes(t).len();
    lemma_column_round_trip(t, vals, data, mid);
    let (back, end) = read_column(t, data, mid, vals.len())->0;
    assert(back =~= vals);
}

/// The offsets of a column of arrays are consistent: the body is the
/// offsets, one 64-bit number for each row, then the column of all members;
/// no offset is less than the one before it; and the last offset is the
/// number of members in that column.
pub proof fn lemma_array_offsets(x: SpecType, vals: Seq<SpecValue>)
    requires
        all_writable(SpecType::Array(Box::new(x)), vals),
    ensures
        column_bytes(SpecType::Array(Box::new(x)), vals) == offsets_bytes(offsets(vals))
            + column_bytes(x, flat_members(vals)),
        offsets_bytes(offsets(vals)).len() == 8 * vals.len(),
        offsets(vals).len() == vals.len(),
        ascending(offsets(vals)),
        last_offset(offsets(vals)) == flat_members(vals).len(),
{
    let t = SpecType::Array(Box::new(x));
    lemma_offsets(vals);
    lemma_offsets_bytes(offsets(vals));
    lemma_numbers_bytes_len(offsets(vals), 8);
    lemma_flat_forms(vals);
    assert forall|k: int| 0 <= k < vals.len() implies members_of()(#[trigger] vals[k]).len()
        == row_len(vals[k]) by {
        assert(writable(t, vals[k]));
    }
    lemma_flat_len(vals, members_of());
}

/// The offsets of a column of maps are consistent: the body is the offsets,
/// one 64-bit number for each row, then the column of all keys, then the
/// column of all values; no offset is less than the one before it; and the
/// last offset is the number of keys, and of values, in those columns.
pub proof fn lemma_map_offsets(k: SpecType, v: SpecType, vals: Seq<SpecValue>)
    requires
        all_writable(SpecType::Mapping(Box::new(k), Box::new(v)), vals),
    ensures
        column_bytes(SpecType::Mapping(Box::new(k), Box::new(v)), vals) == offsets_bytes(
            offsets(vals),
        ) + column_bytes(k, flat_keys(vals)) + column_bytes(v, flat_values(vals)),
        offsets_bytes(offsets(vals)).len() == 8 * vals.len(),
        offsets(vals).len() == vals.len(),
        ascending(offsets(vals)),
        last_offset(offsets(vals)) == flat_keys(vals).len(),
        last_offset(offsets(vals)) == flat_values(vals).len(),
{
    lemma_offsets(vals);
    lemma_offsets_bytes(offsets(vals));
    lemma_numbers_bytes_len(offsets(vals), 8);
    lemma_flat_forms(vals);
    lemma_map_parts(k, v, vals);
    lemma_flat_len(vals, keys_of());
    lemma_flat_len(vals, values_of());
}

/// The offsets of a column that the machine can hold are 64-bit numbers:
/// each is read back as it was written.
pub proof fn lemma_offsets_are_64_bit(vals: Seq<SpecValue>, data: Seq<u8>, pos: int)
    requires
        total_len(vals) <= usize::MAX,
        stands_at(data, pos, offsets_bytes(offsets(vals))),
    ensures
        forall|i: int| 0 <= i < vals.len() ==> #[trigger] offsets(vals)[i] <= u64::MAX,
        read_offsets(data, pos, vals.len()) == Some(offsets(vals)),
{
    lemma_offsets(vals);
    lemma_offsets_round_trip(vals, data, pos);
    assert forall|i: int| 0 <= i < vals.len() implies #[trigger] offsets(vals)[i] <= u64::MAX by {
        assert(offsets(vals)[i] <= total_len(vals));
    }
}

/// In a nullable `LowCardinality` column over a type that is no container,
/// exactly index `0` gives `Null`: a row that is read is `Null` where its
/// index is `0`, and nowhere else.
pub proof fn lemma_null_exactly_at_zero(y: SpecType, data: Seq<u8>, pos: int, n: nat, i: int)
    requires
        !y.is_composite(),
        read_dictionary_column(y, data, pos, n) is Some,
        0 <= i < n,
    ensures
        ({
            let parts = read_dictionary_column(y, data, pos, n)->0;
            let t = SpecType::LowCardinality(Box::new(SpecType::Nullable(Box::new(y))));
            &&& read_column(t, data, pos, n) == Some(
                (dictionary_rows(parts.entries, true, parts.indices), parts.end),
            )
            &&& parts.indices.len() == n
            &&& dictionary_rows(parts.entries, true, parts.indices)[i] is Null
                <==> parts.indices[i] == 0
        }),
{
    let parts = read_dictionary_column(y, data, pos, n)->0;
    let size = le_value(data.subrange(pos + 8, pos + 16));
    let flags = le_value(data.subrange(pos, pos + 8));
    let width = index_width(flags_width_code(flags)->0);
    lemma_scalars_not_null(y, data, pos + 16, size);
    let (entries, mid) = read_column(y, data, pos + 16, size)->0;
    assert(entries == parts.entries);
    crate::types::deserialize::lemma_read_numbers(data, mid + 8, width, n);
    lemma_null_index(parts.entries, parts.indices, i);
}

} // verus!

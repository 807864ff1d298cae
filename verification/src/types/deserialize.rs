//! Reading columns: the strategies by kind of type, and the functions of a
//! type that choose among them.

use crate::errors::{Error, ErrorKind};
use crate::types::{SpecType, Type};
use crate::types::reading::{
    ascending, last_offset, read_column, read_numbers, read_offsets, read_prefix, read_value,
};
use crate::values::{value_models, SpecValue, Value};
use crate::wire::{le_value, protocol_error, Reader};
use vstd::prelude::*;

pub mod array;
pub mod mapping;
pub mod nullable;
pub mod sized;
pub mod strings;
pub mod tuple;

verus! {

broadcast use vstd::std_specs::vec::axiom_vec_index_decreases;

/// A column that fails after some rows fails as a whole.
pub proof fn lemma_read_scalars_fail(t: SpecType, data: Seq<u8>, pos: int, i: nat, n: nat)
    requires
        i <= n,
        crate::types::reading::read_scalars(t, data, pos, i) is None,
    ensures
        crate::types::reading::read_scalars(t, data, pos, n) is None,
    decreases n - i,
{
    if i < n {
        lemma_read_scalars_fail(t, data, pos, i, (n - 1) as nat);
    }
}

/// The numbers of a sequence of 64-bit numbers.
pub open spec fn numbers(v: Seq<u64>) -> Seq<nat> {
    Seq::new(v.len(), |i: int| v[i] as nat)
}

/// The numbers of a sequence of machine-size numbers.
pub open spec fn sizes(v: Seq<usize>) -> Seq<nat> {
    Seq::new(v.len(), |i: int| v[i] as nat)
}

/// A run of numbers can be read exactly when the data hold all of it, and
/// then holds the number of each place.
pub proof fn lemma_read_numbers(data: Seq<u8>, pos: int, width: nat, n: nat)
    requires
        0 <= pos <= data.len(),
        width >= 1,
    ensures
        read_numbers(data, pos, width, n) is Some <==> pos + width * n <= data.len(),
        read_numbers(data, pos, width, n) matches Some(xs) ==> {
            &&& xs.len() == n
            &&& forall|i: int|
                0 <= i < n ==> #[trigger] xs[i] == le_value(
                    data.subrange(pos + width * i, pos + width * i + width),
                )
        },
    decreases n,
{
    if n > 0 {
        lemma_read_numbers(data, pos, width, (n - 1) as nat);
        assert(width * (n - 1) + width == width * n) by (nonlinear_arith);
        assert(width * (n - 1) >= 0) by (nonlinear_arith)
            requires
                width >= 1,
                n >= 1,
        ;
    } else {
        assert(width * 0 == 0);
    }
}

/// Reads `n` numbers of `width` bytes each.
pub fn read_numbers_of(reader: &mut Reader, width: usize, n: usize) -> (r: Result<Vec<u64>, Error>)
    requires
        old(reader).wf(),
        width == 1 || width == 2 || width == 4 || width == 8,
    ensures
        final(reader).wf(),
        final(reader).data() == old(reader).data(),
        match read_numbers(old(reader).data(), old(reader).pos(), width as nat, n as nat) {
            Some(xs) => r matches Ok(v) && numbers(v@) == xs && v.len() == n && final(reader).pos() == old(reader).pos() + width * n,
            None => r matches Err(e) && e.kind == ErrorKind::ProtocolError,
        },
{
    let ghost data = reader.data();
    let ghost start = reader.pos();
    proof {
        lemma_read_numbers(data, start, width as nat, n as nat);
        crate::wire::lemma_pow256_values();
    }
    let room = reader.remaining() / width;
    assert((n <= room) <==> (start + width * n <= data.len())) by (nonlinear_arith)
        requires
            room == (data.len() - start) / (width as int),
            width >= 1,
            0 <= start <= data.len(),
    ;
    if n > room {
        return Err(protocol_error("unexpected end of data"));
    }
    let ghost xs = read_numbers(data, start, width as nat, n as nat)->0;
    let mut out: Vec<u64> = Vec::new();
    let mut i: usize = 0;
    assert(width * 0 == 0);
    while i < n
        invariant
            i <= n,
            width == 1 || width == 2 || width == 4 || width == 8,
            reader.wf(),
            reader.data() == data,
            data == old(reader).data(),
            start == old(reader).pos(),
            start + width * n <= data.len(),
            reader.pos() == start + width * i,
            out.len() == i,
            xs.len() == n,
            forall|k: int|
                0 <= k < n ==> #[trigger] xs[k] == le_value(
                    data.subrange(start + width * k, start + width * k + width),
                ),
            forall|k: int| 0 <= k < i ==> (#[trigger] out[k]) as nat == xs[k],
        decreases n - i,
    {
        assert(width * (i + 1) == width * i + width && width * (i + 1) <= width * n)
            by (nonlinear_arith)
            requires
                i < n,
                width >= 1,
        ;
        match reader.read_uint(width) {
            Ok(v) => {
                proof {
                    crate::wire::lemma_pow256_values();
                    crate::wire::lemma_pow256_monotonic(width as nat, 8);
                    assert(xs[i as int] == v as nat);
                }
                out.push(v as u64);
            },
            Err(e) => {
                assert(false);
                return Err(e);
            },
        }
        i += 1;
    }
    assert(numbers(out@) =~= xs);
    Ok(out)
}

/// The offsets in `raw` as vector positions, if none is less than the one
/// before it and the last one is a position.
fn check_offsets(raw: &Vec<u64>) -> (r: Option<Vec<usize>>)
    ensures
        r is Some <==> ascending(numbers(raw@)) && last_offset(numbers(raw@)) <= usize::MAX,
        r matches Some(v) ==> sizes(v@) == numbers(raw@),
{
    let ghost xs = numbers(raw@);
    let mut out: Vec<usize> = Vec::new();
    let mut i: usize = 0;
    let mut previous: u64 = 0;
    while i < raw.len()
        invariant
            i <= raw.len(),
            xs == numbers(raw@),
            out.len() == i,
            i > 0 ==> previous == raw[i - 1],
            forall|k: int| 0 < k < i ==> xs[k - 1] <= #[trigger] xs[k],
            forall|k: int| 0 <= k < i ==> (#[trigger] out[k]) as nat == xs[k],
        decreases raw.len() - i,
    {
        let x = raw[i];
        assert(xs[i as int] == x);
        if i > 0 && x < previous {
            assert(xs[i - 1] > xs[i as int]);
            return None;
        }
        if x > usize::MAX as u64 {
            proof {
                if ascending(xs) {
                    lemma_ascending_last(xs, i as int);
                }
            }
            return None;
        }
        out.push(x as usize);
        previous = x;
        i += 1;
    }
    assert(sizes(out@) =~= xs);
    proof {
        if xs.len() > 0 {
            assert(xs.last() == out[xs.len() - 1] as nat);
        }
    }
    Some(out)
}

proof fn lemma_ascending_last(xs: Seq<nat>, i: int)
    requires
        ascending(xs),
        0 <= i < xs.len(),
    ensures
        xs[i] <= xs.last(),
    decreases xs.len() - i,
{
    if i < xs.len() - 1 {
        lemma_ascending_last(xs, i + 1);
    }
}

/// In an ascending run each number is at least each earlier one.
pub proof fn lemma_ascending(xs: Seq<nat>, i: int, j: int)
    requires
        ascending(xs),
        0 <= i <= j < xs.len(),
    ensures
        xs[i] <= xs[j],
    decreases j - i,
{
    if i < j {
        lemma_ascending(xs, i, j - 1);
    }
}

/// Reads the offsets of the `n` rows of a column of arrays or maps.
pub fn read_offsets_of(reader: &mut Reader, n: usize) -> (r: Result<Vec<usize>, Error>)
    requires
        old(reader).wf(),
    ensures
        final(reader).wf(),
        final(reader).data() == old(reader).data(),
        match read_offsets(old(reader).data(), old(reader).pos(), n as nat) {
            Some(offs) => r matches Ok(v) && sizes(v@) == offs && v.len() == n && final(reader).pos() == old(reader).pos() + 8 * n,
            None => r matches Err(e) && e.kind == ErrorKind::ProtocolError,
        },
{
    let raw = read_numbers_of(reader, 8, n)?;
    match check_offsets(&raw) {
        Some(offsets) => Ok(offsets),
        None => Err(protocol_error("offsets of rows are out of order")),
    }
}

/// Copies of the values of `source[from..to]`.
pub fn copy_range(source: &Vec<Value>, from: usize, to: usize) -> (out: Vec<Value>)
    requires
        from <= to <= source.len(),
    ensures
        value_models(out@) == value_models(source@).subrange(from as int, to as int),
{
    let ghost models = value_models(source@);
    let mut out: Vec<Value> = Vec::new();
    let mut i: usize = from;
    while i < to
        invariant
            from <= i <= to <= source.len(),
            models == value_models(source@),
            out.len() == i - from,
            forall|k: int| 0 <= k < i - from ==> (#[trigger] out[k])@ == models[from + k],
        decreases to - i,
    {
        assert(models[i as int] == source[i as int]@);
        out.push(source[i].duplicate());
        i += 1;
    }
    assert(value_models(out@) =~= models.subrange(from as int, to as int));
    out
}

/// The start of row `i` among the members of all rows.
pub fn row_start(offsets: &Vec<usize>, i: usize) -> (start: usize)
    requires
        i < offsets.len(),
    ensures
        start == (if i == 0 {
            0
        } else {
            sizes(offsets@)[i - 1] as int
        }),
{
    if i == 0 {
        0
    } else {
        offsets[i - 1]
    }
}

/// What reading a column of `rows` rows of type `t` does: the cursor keeps
/// its bytes; where the bytes at the cursor are the body of such a column,
/// the result is its rows and the cursor stands behind the body; where they
/// are not, the result is a protocol error.
pub open spec fn column_read(
    t: SpecType,
    before: Reader,
    after: Reader,
    rows: nat,
    r: Result<Vec<Value>, Error>,
) -> bool {
    &&& after.wf()
    &&& after.data() == before.data()
    &&& match read_column(t, before.data(), before.pos(), rows) {
        Some((vs, end)) => r matches Ok(x) && value_models(x@) == vs && x.len() == rows
            && after.pos() == end,
        None => r matches Err(e) && e.kind == ErrorKind::ProtocolError,
    }
}

/// The state that a connection keeps while it reads columns. It holds
/// nothing yet: each column announces what it needs.
#[derive(Debug, Default)]
pub struct DeserializerState {}

/// A column of one scalar is the scalar on its own.
pub proof fn lemma_read_single_scalar(t: SpecType, data: Seq<u8>, pos: int)
    requires
        !t.is_composite(),
    ensures
        read_value(t, data, pos) == crate::types::reading::read_scalar(t, data, pos),
{
    reveal_with_fuel(crate::types::reading::read_scalars, 2);
    match crate::types::reading::read_scalar(t, data, pos) {
        Some((v, end)) => {
            assert(Seq::<SpecValue>::empty().push(v)[0] == v);
        },
        None => {},
    }
}

/// What reading the prefix of a column of type `t` does: the cursor keeps its
/// bytes; where the bytes at the cursor are such a prefix, the result is
/// `Ok` and the cursor stands behind the prefix; where they are not, the
/// result is a protocol error.
pub open spec fn prefix_read(t: SpecType, before: Reader, after: Reader, r: Result<(), Error>) -> bool {
    &&& after.wf()
    &&& after.data() == before.data()
    &&& match read_prefix(t, before.data(), before.pos()) {
        Some(end) => r is Ok && after.pos() == end,
        None => r matches Err(e) && e.kind == ErrorKind::ProtocolError,
    }
}

/// What reading one value of type `t` on its own does: the cursor keeps its
/// bytes; where the bytes at the cursor are a column of one row, the result
/// is that row and the cursor stands behind it; where they are not, the
/// result is a protocol error.
pub open spec fn value_read(t: SpecType, before: Reader, after: Reader, r: Result<Value, Error>) -> bool {
    &&& after.wf()
    &&& after.data() == before.data()
    &&& match read_value(t, before.data(), before.pos()) {
        Some((v, end)) => r matches Ok(x) && x@ == v && after.pos() == end,
        None => r matches Err(e) && e.kind == ErrorKind::ProtocolError,
    }
}

impl Type {
    /// Reads what stands before the body of a column of this type: the
    /// version tag of each `LowCardinality` in it.
    ///
    /// Fails with `ProtocolError` exactly where the data end too early or a
    /// tag is not the known one.
    pub fn deserialize_prefix(&self, reader: &mut Reader, state: &mut DeserializerState) -> (r:
        Result<(), Error>)
        requires
            old(reader).wf(),
        ensures
            prefix_read(self@, *old(reader), *final(reader), r),
            *final(state) == *old(state),
        decreases self, 1nat, 0nat,
    {
        match self {
            Type::Int8
            | Type::Int16
            | Type::Int32
            | Type::Int64
            | Type::Int128
            | Type::Int256
            | Type::UInt8
            | Type::UInt16
            | Type::UInt32
            | Type::UInt64
            | Type::UInt128
            | Type::UInt256
            | Type::Float32
            | Type::Float64
            | Type::Decimal32(_)
            | Type::Decimal64(_)
            | Type::Decimal128(_)
            | Type::Decimal256(_)
            | Type::Uuid
            | Type::Date
            | Type::DateTime(_)
            | Type::DateTime64(_, _)
            | Type::Ipv4
            | Type::Ipv6
            | Type::Enum8(_)
            | Type::Enum16(_) => sized::read_prefix(self, reader, state),
            Type::String | Type::FixedString(_) => strings::read_prefix(self, reader, state),
            Type::Array(_) => array::read_prefix(self, reader, state),
            Type::Tuple(_) => tuple::read_prefix(self, reader, state),
            Type::Nullable(_) => nullable::read_prefix(self, reader, state),
            Type::Mapping(_, _) => mapping::read_prefix(self, reader, state),
            Type::LowCardinality(_) => crate::types::low_cardinality::read_prefix(
                self,
                reader,
                state,
            ),
        }
    }

    /// Reads the body of a column of `rows` rows.
    ///
    /// Succeeds exactly where the bytes at the cursor are the body of such a
    /// column, with its rows, and leaves the cursor behind the body. Fails
    /// with `ProtocolError` otherwise; the cursor then stands somewhere in
    /// the same bytes.
    pub fn deserialize_column(
        &self,
        reader: &mut Reader,
        rows: usize,
        state: &mut DeserializerState,
    ) -> (r: Result<Vec<Value>, Error>)
        requires
            old(reader).wf(),
        ensures
            column_read(self@, *old(reader), *final(reader), rows as nat, r),
            *final(state) == *old(state),
        decreases self, 1nat, 0nat,
    {
        match self {
            Type::Int8
            | Type::Int16
            | Type::Int32
            | Type::Int64
            | Type::Int128
            | Type::Int256
            | Type::UInt8
            | Type::UInt16
            | Type::UInt32
            | Type::UInt64
            | Type::UInt128
            | Type::UInt256
            | Type::Float32
            | Type::Float64
            | Type::Decimal32(_)
            | Type::Decimal64(_)
            | Type::Decimal128(_)
            | Type::Decimal256(_)
            | Type::Uuid
            | Type::Date
            | Type::DateTime(_)
            | Type::DateTime64(_, _)
            | Type::Ipv4
            | Type::Ipv6
            | Type::Enum8(_)
            | Type::Enum16(_) => sized::read_n(self, reader, rows, state),
            Type::String | Type::FixedString(_) => strings::read_n(self, reader, rows, state),
            Type::Array(_) => array::read_n(self, reader, rows, state),
            Type::Tuple(_) => tuple::read_n(self, reader, rows, state),
            Type::Nullable(_) => nullable::read_n(self, reader, rows, state),
            Type::Mapping(_, _) => mapping::read_n(self, reader, rows, state),
            Type::LowCardinality(_) => crate::types::low_cardinality::read_n(
                self,
                reader,
                rows,
                state,
            ),
        }
    }

    /// Reads one value on its own, as a column of one row.
    ///
    /// Succeeds exactly where the bytes at the cursor are such a column,
    /// with its only row, and leaves the cursor behind it. Fails with
    /// `ProtocolError` otherwise.
    pub fn deserialize(&self, reader: &mut Reader, state: &mut DeserializerState) -> (r: Result<
        Value,
        Error,
    >)
        requires
            old(reader).wf(),
        ensures
            value_read(self@, *old(reader), *final(reader), r),
            *final(state) == *old(state),
    {
        match self {
            Type::Int8
            | Type::Int16
            | Type::Int32
            | Type::Int64
            | Type::Int128
            | Type::Int256
            | Type::UInt8
            | Type::UInt16
            | Type::UInt32
            | Type::UInt64
            | Type::UInt128
            | Type::UInt256
            | Type::Float32
            | Type::Float64
            | Type::Decimal32(_)
            | Type::Decimal64(_)
            | Type::Decimal128(_)
            | Type::Decimal256(_)
            | Type::Uuid
            | Type::Date
            | Type::DateTime(_)
            | Type::DateTime64(_, _)
            | Type::Ipv4
            | Type::Ipv6
            | Type::Enum8(_)
            | Type::Enum16(_) => {
                proof {
                    lemma_read_single_scalar(self@, reader.data(), reader.pos());
                }
                sized::read(self, reader, state)
            },
            Type::String | Type::FixedString(_) => {
                proof {
                    lemma_read_single_scalar(self@, reader.data(), reader.pos());
                }
                strings::read(self, reader, state)
            },
            Type::Array(_) => array::read(self, reader, state),
            Type::Tuple(_) => tuple::read(self, reader, state),
            Type::Nullable(_) => nullable::read(self, reader, state),
            Type::Mapping(_, _) => mapping::read(self, reader, state),
            Type::LowCardinality(_) => crate::types::low_cardinality::read(self, reader, state),
        }
    }
}

} // verus!

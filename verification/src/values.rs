//! Raw values and their models.

use crate::tz::Tz;
use vstd::prelude::*;
use vstd::std_specs::cmp::PartialEqSpecImpl;

verus! {

broadcast use vstd::std_specs::vec::axiom_vec_index_decreases;

/// A signed 256-bit integer: its two's complement, least significant byte
/// first.
#[allow(non_camel_case_types)]
#[derive(Clone, Copy, Debug, Eq, Hash)]
pub struct i256(pub [u8; 32]);

/// An unsigned 256-bit integer, least significant byte first.
#[allow(non_camel_case_types)]
#[derive(Clone, Copy, Debug, Eq, Hash)]
pub struct u256(pub [u8; 32]);

/// A day, counted from 1970-01-01.
#[derive(Clone, Copy, Debug, PartialEq, Eq, Hash, Structural)]
pub struct Date(pub u16);

/// A second, counted from 1970-01-01 00:00:00 UTC, and the zone to show it in.
#[derive(Debug, Eq, Hash)]
pub struct DateTime(pub Tz, pub u32);

/// An IPv4 address as a number: the first octet is the most significant byte.
#[derive(Clone, Copy, Debug, PartialEq, Eq, Hash, Structural)]
pub struct Ipv4(pub u32);

/// An IPv6 address: its sixteen octets in network order.
#[derive(Clone, Copy, Debug, Eq, Hash)]
pub struct Ipv6(pub [u8; 16]);

/// A universally unique identifier as a 128-bit number.
#[derive(Clone, Copy, Debug, PartialEq, Eq, Hash, Structural)]
pub struct Uuid(pub u128);

/// A run of `n` zero bytes.
pub open spec fn zeros(n: nat) -> Seq<u8> {
    Seq::new(n, |i: int| 0u8)
}

impl Default for i256 {
    fn default() -> (r: Self)
        ensures
            r.0@ == zeros(32),
    {
        let r = i256([0u8; 32]);
        assert(r.0@ =~= zeros(32));
        r
    }
}

impl Default for u256 {
    fn default() -> (r: Self)
        ensures
            r.0@ == zeros(32),
    {
        let r = u256([0u8; 32]);
        assert(r.0@ =~= zeros(32));
        r
    }
}

impl Default for Ipv4 {
    fn default() -> (r: Self)
        ensures
            r == Ipv4(0),
    {
        Ipv4(0)
    }
}

impl Default for Ipv6 {
    fn default() -> (r: Self)
        ensures
            r.0@ == zeros(16),
    {
        let r = Ipv6([0u8; 16]);
        assert(r.0@ =~= zeros(16));
        r
    }
}

impl Uuid {
    /// The identifier with the given number.
    pub fn from_u128(v: u128) -> (r: Uuid)
        ensures
            r == Uuid(v),
    {
        Uuid(v)
    }

    /// The identifier's number.
    pub fn as_u128(&self) -> (v: u128)
        ensures
            v == self.0,
    {
        self.0
    }
}

impl Clone for DateTime {
    fn clone(&self) -> (r: DateTime)
        ensures
            r.0@ == self.0@,
            r.1 == self.1,
    {
        DateTime(self.0.clone(), self.1)
    }
}

/// Mathematical model of a value: the same variants as [`Value`], with
/// sequences in place of vectors, strings and byte arrays, and zone names in
/// place of zones.
pub enum SpecValue {
    Int8(i8),
    Int16(i16),
    Int32(i32),
    Int64(i64),
    Int128(i128),
    Int256(Seq<u8>),
    UInt8(u8),
    UInt16(u16),
    UInt32(u32),
    UInt64(u64),
    UInt128(u128),
    UInt256(Seq<u8>),
    Float32(u32),
    Float64(u64),
    Decimal32(usize, i32),
    Decimal64(usize, i64),
    Decimal128(usize, i128),
    Decimal256(usize, Seq<u8>),
    String(Seq<char>),
    Uuid(Uuid),
    Date(Date),
    DateTime(Seq<char>, u32),
    DateTime64(Seq<char>, usize, i64),
    Ipv4(Ipv4),
    Ipv6(Seq<u8>),
    Enum8(i8),
    Enum16(i16),
    Array(Seq<SpecValue>),
    Tuple(Seq<SpecValue>),
    Null,
    Mapping(Seq<SpecValue>, Seq<SpecValue>),
}

/// A raw ClickHouse value.
///
/// Floating-point values are held by their IEEE-754 bit patterns. A decimal
/// carries its scale beside its digits, a date and time its zone.
#[derive(Debug, Eq, Hash)]
pub enum Value {
    Int8(i8),
    Int16(i16),
    Int32(i32),
    Int64(i64),
    Int128(i128),
    Int256(i256),
    UInt8(u8),
    UInt16(u16),
    UInt32(u32),
    UInt64(u64),
    UInt128(u128),
    UInt256(u256),
    Float32(u32),
    Float64(u64),
    Decimal32(usize, i32),
    Decimal64(usize, i64),
    Decimal128(usize, i128),
    Decimal256(usize, i256),
    String(String),
    Uuid(Uuid),
    Date(Date),
    DateTime(DateTime),
    DateTime64(Tz, usize, i64),
    Ipv4(Ipv4),
    Ipv6(Ipv6),
    Enum8(i8),
    Enum16(i16),
    Array(Vec<Value>),
    Tuple(Vec<Value>),
    Null,
    /// A map, as its keys and its values in the same order.
    Mapping(Vec<Value>, Vec<Value>),
}

impl Value {
    /// The model of this value.
    pub open spec fn model(&self) -> SpecValue
        decreases self,
    {
        match self {
            Value::Int8(x) => SpecValue::Int8(*x),
            Value::Int16(x) => SpecValue::Int16(*x),
            Value::Int32(x) => SpecValue::Int32(*x),
            Value::Int64(x) => SpecValue::Int64(*x),
            Value::Int128(x) => SpecValue::Int128(*x),
            Value::Int256(x) => SpecValue::Int256(x.0@),
            Value::UInt8(x) => SpecValue::UInt8(*x),
            Value::UInt16(x) => SpecValue::UInt16(*x),
            Value::UInt32(x) => SpecValue::UInt32(*x),
            Value::UInt64(x) => SpecValue::UInt64(*x),
            Value::UInt128(x) => SpecValue::UInt128(*x),
            Value::UInt256(x) => SpecValue::UInt256(x.0@),
            Value::Float32(x) => SpecValue::Float32(*x),
            Value::Float64(x) => SpecValue::Float64(*x),
            Value::Decimal32(s, x) => SpecValue::Decimal32(*s, *x),
            Value::Decimal64(s, x) => SpecValue::Decimal64(*s, *x),
            Value::Decimal128(s, x) => SpecValue::Decimal128(*s, *x),
            Value::Decimal256(s, x) => SpecValue::Decimal256(*s, x.0@),
            Value::String(s) => SpecValue::String(s@),
            Value::Uuid(x) => SpecValue::Uuid(*x),
            Value::Date(x) => SpecValue::Date(*x),
            Value::DateTime(x) => SpecValue::DateTime(x.0@, x.1),
            Value::DateTime64(tz, p, x) => SpecValue::DateTime64(tz@, *p, *x),
            Value::Ipv4(x) => SpecValue::Ipv4(*x),
            Value::Ipv6(x) => SpecValue::Ipv6(x.0@),
            Value::Enum8(x) => SpecValue::Enum8(*x),
            Value::Enum16(x) => SpecValue::Enum16(*x),
            Value::Array(xs) => SpecValue::Array(
                Seq::new(
                    xs.len() as nat,
                    |i: int|
                        if 0 <= i < xs.len() {
                            xs[i].model()
                        } else {
                            SpecValue::Null
                        },
                ),
            ),
            Value::Tuple(xs) => SpecValue::Tuple(
                Seq::new(
                    xs.len() as nat,
                    |i: int|
                        if 0 <= i < xs.len() {
                            xs[i].model()
                        } else {
                            SpecValue::Null
                        },
                ),
            ),
            Value::Null => SpecValue::Null,
            Value::Mapping(ks, vs) => SpecValue::Mapping(
                Seq::new(
                    ks.len() as nat,
                    |i: int|
                        if 0 <= i < ks.len() {
                            ks[i].model()
                        } else {
                            SpecValue::Null
                        },
                ),
                Seq::new(
                    vs.len() as nat,
                    |i: int|
                        if 0 <= i < vs.len() {
                            vs[i].model()
                        } else {
                            SpecValue::Null
                        },
                ),
            ),
        }
    }
}

impl View for Value {
    type V = SpecValue;

    open spec fn view(&self) -> SpecValue {
        self.model()
    }
}

/// The models of a sequence of values, one for one.
pub open spec fn value_models(values: Seq<Value>) -> Seq<SpecValue> {
    Seq::new(values.len(), |i: int| values[i].model())
}

/// Appending a value appends its model.
pub proof fn lemma_value_models_push(values: Seq<Value>, v: Value)
    ensures
        value_models(values.push(v)) == value_models(values).push(v@),
{
    assert(value_models(values.push(v)) =~= value_models(values).push(v@));
}

/// The model of an array is the array of its members' models; so for tuples
/// and maps.
pub proof fn lemma_container_models(xs: Vec<Value>, ys: Vec<Value>)
    ensures
        Value::Array(xs).model() == SpecValue::Array(value_models(xs@)),
        Value::Tuple(xs).model() == SpecValue::Tuple(value_models(xs@)),
        Value::Mapping(xs, ys).model() == SpecValue::Mapping(
            value_models(xs@),
            value_models(ys@),
        ),
{
    assert(Value::Array(xs).model()->Array_0 =~= value_models(xs@));
    assert(Value::Tuple(xs).model()->Tuple_0 =~= value_models(xs@));
    assert(Value::Mapping(xs, ys).model()->Mapping_0 =~= value_models(xs@));
    assert(Value::Mapping(xs, ys).model()->Mapping_1 =~= value_models(ys@));
}

fn bytes_equal(a: &[u8], b: &[u8]) -> (r: bool)
    ensures
        r == (a@ == b@),
{
    if a.len() != b.len() {
        return false;
    }
    let mut i: usize = 0;
    while i < a.len()
        invariant
            a.len() == b.len(),
            i <= a.len(),
            forall|j: int| 0 <= j < i ==> a[j] == b[j],
        decreases a.len() - i,
    {
        if a[i] != b[i] {
            return false;
        }
        i += 1;
    }
    assert(a@ =~= b@);
    true
}

impl i256 {
    /// Whether two numbers are the same.
    pub fn same(&self, other: &i256) -> (r: bool)
        ensures
            r == (self.0@ == other.0@),
    {
        bytes_equal(self.0.as_slice(), other.0.as_slice())
    }
}

impl u256 {
    /// Whether two numbers are the same.
    pub fn same(&self, other: &u256) -> (r: bool)
        ensures
            r == (self.0@ == other.0@),
    {
        bytes_equal(self.0.as_slice(), other.0.as_slice())
    }
}

impl Ipv6 {
    /// Whether two addresses are the same.
    pub fn same(&self, other: &Ipv6) -> (r: bool)
        ensures
            r == (self.0@ == other.0@),
    {
        bytes_equal(self.0.as_slice(), other.0.as_slice())
    }
}

impl PartialEq for i256 {
    fn eq(&self, other: &i256) -> (r: bool) {
        self.same(other)
    }
}

impl PartialEqSpecImpl for i256 {
    open spec fn obeys_eq_spec() -> bool {
        true
    }

    /// Two numbers are equal where their bytes are.
    open spec fn eq_spec(&self, other: &i256) -> bool {
        self.0@ == other.0@
    }
}

impl PartialEq for u256 {
    fn eq(&self, other: &u256) -> (r: bool) {
        self.same(other)
    }
}

impl PartialEqSpecImpl for u256 {
    open spec fn obeys_eq_spec() -> bool {
        true
    }

    /// Two numbers are equal where their bytes are.
    open spec fn eq_spec(&self, other: &u256) -> bool {
        self.0@ == other.0@
    }
}

impl PartialEq for Ipv6 {
    fn eq(&self, other: &Ipv6) -> (r: bool) {
        self.same(other)
    }
}

impl PartialEqSpecImpl for Ipv6 {
    open spec fn obeys_eq_spec() -> bool {
        true
    }

    /// Two addresses are equal where their bytes are.
    open spec fn eq_spec(&self, other: &Ipv6) -> bool {
        self.0@ == other.0@
    }
}

impl PartialEq for DateTime {
    fn eq(&self, other: &DateTime) -> (r: bool) {
        self.0.same_zone(&other.0) && self.1 == other.1
    }
}

impl PartialEqSpecImpl for DateTime {
    open spec fn obeys_eq_spec() -> bool {
        true
    }

    /// Two times are equal where their zones and their seconds are.
    open spec fn eq_spec(&self, other: &DateTime) -> bool {
        self.0@ == other.0@ && self.1 == other.1
    }
}

/// Copies of the values of `values`, in order.
fn duplicate_all(values: &Vec<Value>) -> (out: Vec<Value>)
    ensures
        value_models(out@) == value_models(values@),
    decreases values,
{
    let mut out: Vec<Value> = Vec::new();
    let mut i: usize = 0;
    while i < values.len()
        invariant
            i <= values.len(),
            out.len() == i,
            forall|j: int| 0 <= j < i ==> (#[trigger] out[j]).model() == values[j].model(),
        decreases values.len() - i,
    {
        out.push(values[i].duplicate());
        i += 1;
    }
    assert(value_models(out@) =~= value_models(values@));
    out
}

/// Whether two vectors hold the same values in the same order.
fn all_same(a: &Vec<Value>, b: &Vec<Value>) -> (r: bool)
    ensures
        r == (value_models(a@) == value_models(b@)),
    decreases a,
{
    if a.len() != b.len() {
        assert(value_models(a@).len() != value_models(b@).len());
        return false;
    }
    let mut i: usize = 0;
    while i < a.len()
        invariant
            a.len() == b.len(),
            i <= a.len(),
            forall|j: int| 0 <= j < i ==> (#[trigger] a[j]).model() == b[j].model(),
        decreases a.len() - i,
    {
        if !a[i].same(&b[i]) {
            assert(value_models(a@)[i as int] != value_models(b@)[i as int]);
            return false;
        }
        i += 1;
    }
    assert(value_models(a@) =~= value_models(b@));
    true
}

impl Value {
    /// A copy of the value.
    pub fn duplicate(&self) -> (r: Value)
        ensures
            r@ == self@,
        decreases self,
    {
        match self {
            Value::Int8(x) => Value::Int8(*x),
            Value::Int16(x) => Value::Int16(*x),
            Value::Int32(x) => Value::Int32(*x),
            Value::Int64(x) => Value::Int64(*x),
            Value::Int128(x) => Value::Int128(*x),
            Value::Int256(x) => Value::Int256(*x),
            Value::UInt8(x) => Value::UInt8(*x),
            Value::UInt16(x) => Value::UInt16(*x),
            Value::UInt32(x) => Value::UInt32(*x),
            Value::UInt64(x) => Value::UInt64(*x),
            Value::UInt128(x) => Value::UInt128(*x),
            Value::UInt256(x) => Value::UInt256(*x),
            Value::Float32(x) => Value::Float32(*x),
            Value::Float64(x) => Value::Float64(*x),
            Value::Decimal32(s, x) => Value::Decimal32(*s, *x),
            Value::Decimal64(s, x) => Value::Decimal64(*s, *x),
            Value::Decimal128(s, x) => Value::Decimal128(*s, *x),
            Value::Decimal256(s, x) => Value::Decimal256(*s, *x),
            Value::String(s) => Value::String(s.clone()),
            Value::Uuid(x) => Value::Uuid(*x),
            Value::Date(x) => Value::Date(*x),
            Value::DateTime(x) => Value::DateTime(x.clone()),
            Value::DateTime64(tz, p, x) => Value::DateTime64(tz.clone(), *p, *x),
            Value::Ipv4(x) => Value::Ipv4(*x),
            Value::Ipv6(x) => Value::Ipv6(*x),
            Value::Enum8(x) => Value::Enum8(*x),
            Value::Enum16(x) => Value::Enum16(*x),
            Value::Array(xs) => {
                proof {
                    assert(decreases_to!(*self => self->Array_0));
                }
                let out = duplicate_all(xs);
                proof {
                    lemma_container_models(out, out);
                    lemma_container_models(*xs, *xs);
                }
                Value::Array(out)
            },
            Value::Tuple(xs) => {
                proof {
                    assert(decreases_to!(*self => self->Tuple_0));
                }
                let out = duplicate_all(xs);
                proof {
                    lemma_container_models(out, out);
                    lemma_container_models(*xs, *xs);
                }
                Value::Tuple(out)
            },
            Value::Null => Value::Null,
            Value::Mapping(ks, vs) => {
                proof {
                    assert(decreases_to!(*self => self->Mapping_0));
                    assert(decreases_to!(*self => self->Mapping_1));
                }
                let keys = duplicate_all(ks);
                let values = duplicate_all(vs);
                proof {
                    lemma_container_models(keys, values);
                    lemma_container_models(*ks, *vs);
                }
                Value::Mapping(keys, values)
            },
        }
    }

    /// Whether two values are the same: the same variant with the same
    /// contents.
    pub fn same(&self, other: &Value) -> (r: bool)
        ensures
            r == (self@ == other@),
        decreases self,
    {
        match (self, other) {
            (Value::Int8(a), Value::Int8(b)) => *a == *b,
            (Value::Int16(a), Value::Int16(b)) => *a == *b,
            (Value::Int32(a), Value::Int32(b)) => *a == *b,
            (Value::Int64(a), Value::Int64(b)) => *a == *b,
            (Value::Int128(a), Value::Int128(b)) => *a == *b,
            (Value::UInt8(a), Value::UInt8(b)) => *a == *b,
            (Value::UInt16(a), Value::UInt16(b)) => *a == *b,
            (Value::UInt32(a), Value::UInt32(b)) => *a == *b,
            (Value::UInt64(a), Value::UInt64(b)) => *a == *b,
            (Value::UInt128(a), Value::UInt128(b)) => *a == *b,
            (Value::Float32(a), Value::Float32(b)) => *a == *b,
            (Value::Float64(a), Value::Float64(b)) => *a == *b,
            (Value::Enum8(a), Value::Enum8(b)) => *a == *b,
            (Value::Enum16(a), Value::Enum16(b)) => *a == *b,
            (Value::Int256(a), Value::Int256(b)) => a.same(b),
            (Value::UInt256(a), Value::UInt256(b)) => a.same(b),
            (Value::Decimal32(s, a), Value::Decimal32(t, b)) => *s == *t && *a == *b,
            (Value::Decimal64(s, a), Value::Decimal64(t, b)) => *s == *t && *a == *b,
            (Value::Decimal128(s, a), Value::Decimal128(t, b)) => *s == *t && *a == *b,
            (Value::Decimal256(s, a), Value::Decimal256(t, b)) => *s == *t && a.same(b),
            (Value::String(a), Value::String(b)) => *a == *b,
            (Value::Uuid(a), Value::Uuid(b)) => a.0 == b.0,
            (Value::Date(a), Value::Date(b)) => a.0 == b.0,
            (Value::DateTime(a), Value::DateTime(b)) => a.0.same_zone(&b.0) && a.1 == b.1,
            (Value::DateTime64(z, p, a), Value::DateTime64(y, q, b)) => z.same_zone(y) && *p == *q
                && *a == *b,
            (Value::Ipv4(a), Value::Ipv4(b)) => a.0 == b.0,
            (Value::Ipv6(a), Value::Ipv6(b)) => a.same(b),
            (Value::Array(a), Value::Array(b)) => {
                proof {
                    assert(decreases_to!(*self => self->Array_0));
                    lemma_container_models(*a, *a);
                    lemma_container_models(*b, *b);
                }
                all_same(a, b)
            },
            (Value::Tuple(a), Value::Tuple(b)) => {
                proof {
                    assert(decreases_to!(*self => self->Tuple_0));
                    lemma_container_models(*a, *a);
                    lemma_container_models(*b, *b);
                }
                all_same(a, b)
            },
            (Value::Null, Value::Null) => true,
            (Value::Mapping(k, v), Value::Mapping(l, w)) => {
                proof {
                    assert(decreases_to!(*self => self->Mapping_0));
                    assert(decreases_to!(*self => self->Mapping_1));
                    lemma_container_models(*k, *v);
                    lemma_container_models(*l, *w);
                }
                all_same(k, l) && all_same(v, w)
            },
            _ => false,
        }
    }
}

impl Clone for Value {
    fn clone(&self) -> (r: Value)
        ensures
            r@ == self@,
    {
        self.duplicate()
    }
}

impl PartialEq for Value {
    fn eq(&self, other: &Value) -> (r: bool) {
        self.same(other)
    }
}

impl PartialEqSpecImpl for Value {
    open spec fn obeys_eq_spec() -> bool {
        true
    }

    /// Two values are equal where their models are.
    open spec fn eq_spec(&self, other: &Value) -> bool {
        self@ == other@
    }
}

} // verus!

//! The grammar of column types and their models.

use crate::tz::{tz_name_valid, Tz};
use vstd::prelude::*;
use vstd::std_specs::cmp::PartialEqSpecImpl;

pub mod defaults;
pub mod deserialize;
pub mod layout;
pub mod low_cardinality;
pub mod parse;
pub mod print;
pub mod reading;
pub mod round_trip;
pub mod serialize;
pub mod text_round_trip;
pub mod validate;

verus! {

broadcast use vstd::std_specs::vec::axiom_vec_index_decreases;

/// Mathematical model of a column type: the same constructors as [`Type`],
/// with sequences in place of vectors and strings.
pub enum SpecType {
    Int8,
    Int16,
    Int32,
    Int64,
    Int128,
    Int256,
    UInt8,
    UInt16,
    UInt32,
    UInt64,
    UInt128,
    UInt256,
    Float32,
    Float64,
    Decimal32(usize),
    Decimal64(usize),
    Decimal128(usize),
    Decimal256(usize),
    String,
    FixedString(usize),
    Uuid,
    Date,
    DateTime(Seq<char>),
    DateTime64(usize, Seq<char>),
    Ipv4,
    Ipv6,
    Enum8(Seq<(Seq<char>, i8)>),
    Enum16(Seq<(Seq<char>, i16)>),
    LowCardinality(Box<SpecType>),
    Array(Box<SpecType>),
    Tuple(Seq<SpecType>),
    Nullable(Box<SpecType>),
    Mapping(Box<SpecType>, Box<SpecType>),
}

/// A raw ClickHouse type.
#[derive(Debug, Eq, Hash)]
pub enum Type {
    Int8,
    Int16,
    Int32,
    Int64,
    Int128,
    Int256,
    UInt8,
    UInt16,
    UInt32,
    UInt64,
    UInt128,
    UInt256,
    Float32,
    Float64,
    Decimal32(usize),
    Decimal64(usize),
    Decimal128(usize),
    Decimal256(usize),
    String,
    FixedString(usize),
    Uuid,
    Date,
    DateTime(Tz),
    DateTime64(usize, Tz),
    Ipv4,
    Ipv6,
    /// Has no textual parser.
    Enum8(Vec<(String, i8)>),
    /// Has no textual parser.
    Enum16(Vec<(String, i16)>),
    LowCardinality(Box<Type>),
    Array(Box<Type>),
    Tuple(Vec<Type>),
    Nullable(Box<Type>),
    /// The type `Map(K, V)`.
    Mapping(Box<Type>, Box<Type>),
}

/// The models of the entries of an `Enum8`.
pub open spec fn enum8_models(items: Seq<(String, i8)>) -> Seq<(Seq<char>, i8)> {
    Seq::new(items.len(), |i: int| (items[i].0@, items[i].1))
}

/// The models of the entries of an `Enum16`.
pub open spec fn enum16_models(items: Seq<(String, i16)>) -> Seq<(Seq<char>, i16)> {
    Seq::new(items.len(), |i: int| (items[i].0@, items[i].1))
}

impl Type {
    /// The model of this type.
    pub open spec fn model(&self) -> SpecType
        decreases self,
    {
        match self {
            Type::Int8 => SpecType::Int8,
            Type::Int16 => SpecType::Int16,
            Type::Int32 => SpecType::Int32,
            Type::Int64 => SpecType::Int64,
            Type::Int128 => SpecType::Int128,
            Type::Int256 => SpecType::Int256,
            Type::UInt8 => SpecType::UInt8,
            Type::UInt16 => SpecType::UInt16,
            Type::UInt32 => SpecType::UInt32,
            Type::UInt64 => SpecType::UInt64,
            Type::UInt128 => SpecType::UInt128,
            Type::UInt256 => SpecType::UInt256,
            Type::Float32 => SpecType::Float32,
            Type::Float64 => SpecType::Float64,
            Type::Decimal32(s) => SpecType::Decimal32(*s),
            Type::Decimal64(s) => SpecType::Decimal64(*s),
            Type::Decimal128(s) => SpecType::Decimal128(*s),
            Type::Decimal256(s) => SpecType::Decimal256(*s),
            Type::String => SpecType::String,
            Type::FixedString(n) => SpecType::FixedString(*n),
            Type::Uuid => SpecType::Uuid,
            Type::Date => SpecType::Date,
            Type::DateTime(tz) => SpecType::DateTime(tz@),
            Type::DateTime64(p, tz) => SpecType::DateTime64(*p, tz@),
            Type::Ipv4 => SpecType::Ipv4,
            Type::Ipv6 => SpecType::Ipv6,
            Type::Enum8(items) => SpecType::Enum8(enum8_models(items@)),
            Type::Enum16(items) => SpecType::Enum16(enum16_models(items@)),
            Type::LowCardinality(x) => SpecType::LowCardinality(Box::new(x.model())),
            Type::Array(x) => SpecType::Array(Box::new(x.model())),
            Type::Tuple(xs) => SpecType::Tuple(
                Seq::new(
                    xs.len() as nat,
                    |i: int|
                        if 0 <= i < xs.len() {
                            xs[i].model()
                        } else {
                            SpecType::Int8
                        },
                ),
            ),
            Type::Nullable(x) => SpecType::Nullable(Box::new(x.model())),
            Type::Mapping(k, v) => SpecType::Mapping(Box::new(k.model()), Box::new(v.model())),
        }
    }
}

impl View for Type {
    type V = SpecType;

    open spec fn view(&self) -> SpecType {
        self.model()
    }
}

/// The models of a sequence of types, one for one.
pub open spec fn type_models(types: Seq<Type>) -> Seq<SpecType> {
    Seq::new(types.len(), |i: int| types[i].model())
}

/// The model of a tuple type is the tuple of its members' models.
pub proof fn lemma_tuple_model(types: Vec<Type>)
    ensures
        Type::Tuple(types).model() == SpecType::Tuple(type_models(types@)),
{
    assert(Type::Tuple(types).model()->Tuple_0 =~= type_models(types@));
}

impl SpecType {
    /// Whether every time zone named in the type denotes a zone.
    pub open spec fn wf(self) -> bool
        decreases self,
    {
        match self {
            SpecType::DateTime(tz) => tz_name_valid(tz),
            SpecType::DateTime64(_, tz) => tz_name_valid(tz),
            SpecType::LowCardinality(x) => x.wf(),
            SpecType::Array(x) => x.wf(),
            SpecType::Nullable(x) => x.wf(),
            SpecType::Mapping(k, v) => k.wf() && v.wf(),
            SpecType::Tuple(ts) => forall|i: int| 0 <= i < ts.len() ==> (#[trigger] ts[i]).wf(),
            _ => true,
        }
    }

    /// Signed and unsigned integers of every width.
    pub open spec fn is_integer(self) -> bool {
        match self {
            SpecType::Int8
            | SpecType::Int16
            | SpecType::Int32
            | SpecType::Int64
            | SpecType::Int128
            | SpecType::Int256
            | SpecType::UInt8
            | SpecType::UInt16
            | SpecType::UInt32
            | SpecType::UInt64
            | SpecType::UInt128
            | SpecType::UInt256 => true,
            _ => false,
        }
    }

    /// `String` and `FixedString(n)`.
    pub open spec fn is_text(self) -> bool {
        self is String || self is FixedString
    }

    /// The container constructors.
    pub open spec fn is_composite(self) -> bool {
        self is Array || self is Mapping || self is LowCardinality || self is Tuple
            || self is Nullable
    }

    /// The type under one level of `Nullable`, or the type itself.
    pub open spec fn strip_null(self) -> SpecType {
        match self {
            SpecType::Nullable(x) => *x,
            _ => self,
        }
    }

    /// The type under one level of `LowCardinality`, or the type itself.
    pub open spec fn strip_low_cardinality(self) -> SpecType {
        match self {
            SpecType::LowCardinality(x) => *x,
            _ => self,
        }
    }
}

impl Type {
    /// Whether every time zone named in the type denotes a zone. Types made
    /// by this library's functions are well formed.
    pub open spec fn wf(&self) -> bool {
        self@.wf()
    }

    /// The element type of an array type.
    pub fn unwrap_array(&self) -> (inner: &Type)
        requires
            self@ is Array,
        ensures
            self@ == SpecType::Array(Box::new(inner@)),
    {
        match self {
            Type::Array(x) => &**x,
            _ => vstd::pervasive::unreached(),
        }
    }

    /// The key and value types of a map type.
    pub fn unwrap_map(&self) -> (inner: (&Type, &Type))
        requires
            self@ is Mapping,
        ensures
            self@ == SpecType::Mapping(Box::new(inner.0@), Box::new(inner.1@)),
    {
        match self {
            Type::Mapping(key, value) => (&**key, &**value),
            _ => vstd::pervasive::unreached(),
        }
    }

    /// The member types of a tuple type.
    pub fn unwrap_tuple(&self) -> (inner: &[Type])
        requires
            self@ is Tuple,
        ensures
            self@ == SpecType::Tuple(type_models(inner@)),
    {
        match self {
            Type::Tuple(x) => {
                proof {
                    lemma_tuple_model(*x);
                }
                x.as_slice()
            },
            _ => vstd::pervasive::unreached(),
        }
    }

    /// The type under one level of `Nullable`, or the type itself.
    pub fn strip_null(&self) -> (inner: &Type)
        ensures
            inner@ == self@.strip_null(),
    {
        match self {
            Type::Nullable(x) => &**x,
            _ => self,
        }
    }

    /// Whether the outermost constructor is `Nullable`.
    pub fn is_nullable(&self) -> (b: bool)
        ensures
            b == (self@ is Nullable),
    {
        matches!(self, Type::Nullable(_))
    }

    /// The type under one level of `LowCardinality`, or the type itself.
    pub fn strip_low_cardinality(&self) -> (inner: &Type)
        ensures
            inner@ == self@.strip_low_cardinality(),
    {
        match self {
            Type::LowCardinality(x) => &**x,
            _ => self,
        }
    }
}

fn clone_enum8(items: &Vec<(String, i8)>) -> (out: Vec<(String, i8)>)
    ensures
        enum8_models(out@) == enum8_models(items@),
{
    let mut out: Vec<(String, i8)> = Vec::new();
    let mut i: usize = 0;
    while i < items.len()
        invariant
            i <= items.len(),
            out.len() == i,
            forall|j: int| 0 <= j < i ==> out[j].0@ == items[j].0@ && out[j].1 == items[j].1,
        decreases items.len() - i,
    {
        out.push((items[i].0.clone(), items[i].1));
        i += 1;
    }
    assert(enum8_models(out@) =~= enum8_models(items@));
    out
}

fn clone_enum16(items: &Vec<(String, i16)>) -> (out: Vec<(String, i16)>)
    ensures
        enum16_models(out@) == enum16_models(items@),
{
    let mut out: Vec<(String, i16)> = Vec::new();
    let mut i: usize = 0;
    while i < items.len()
        invariant
            i <= items.len(),
            out.len() == i,
            forall|j: int| 0 <= j < i ==> out[j].0@ == items[j].0@ && out[j].1 == items[j].1,
        decreases items.len() - i,
    {
        out.push((items[i].0.clone(), items[i].1));
        i += 1;
    }
    assert(enum16_models(out@) =~= enum16_models(items@));
    out
}

impl Clone for Type {
    fn clone(&self) -> (r: Self)
        ensures
            r.model() == self.model(),
        decreases self,
    {
        match self {
            Type::Int8 => Type::Int8,
            Type::Int16 => Type::Int16,
            Type::Int32 => Type::Int32,
            Type::Int64 => Type::Int64,
            Type::Int128 => Type::Int128,
            Type::Int256 => Type::Int256,
            Type::UInt8 => Type::UInt8,
            Type::UInt16 => Type::UInt16,
            Type::UInt32 => Type::UInt32,
            Type::UInt64 => Type::UInt64,
            Type::UInt128 => Type::UInt128,
            Type::UInt256 => Type::UInt256,
            Type::Float32 => Type::Float32,
            Type::Float64 => Type::Float64,
            Type::Decimal32(s) => Type::Decimal32(*s),
            Type::Decimal64(s) => Type::Decimal64(*s),
            Type::Decimal128(s) => Type::Decimal128(*s),
            Type::Decimal256(s) => Type::Decimal256(*s),
            Type::String => Type::String,
            Type::FixedString(n) => Type::FixedString(*n),
            Type::Uuid => Type::Uuid,
            Type::Date => Type::Date,
            Type::DateTime(tz) => Type::DateTime(tz.clone()),
            Type::DateTime64(p, tz) => Type::DateTime64(*p, tz.clone()),
            Type::Ipv4 => Type::Ipv4,
            Type::Ipv6 => Type::Ipv6,
            Type::Enum8(items) => Type::Enum8(clone_enum8(items)),
            Type::Enum16(items) => Type::Enum16(clone_enum16(items)),
            Type::LowCardinality(x) => Type::LowCardinality(Box::new((&**x).clone())),
            Type::Array(x) => Type::Array(Box::new((&**x).clone())),
            Type::Tuple(xs) => {
                let mut out: Vec<Type> = Vec::new();
                let mut i: usize = 0;
                while i < xs.len()
                    invariant
                        *self == Type::Tuple(*xs),
                        i <= xs.len(),
                        out.len() == i,
                        forall|j: int| 0 <= j < i ==> (#[trigger] out[j]).model() == xs[j].model(),
                    decreases xs.len() - i,
                {
                    proof {
                        assert(decreases_to!(*self => self->Tuple_0));
                    }
                    out.push(xs[i].clone());
                    i += 1;
                }
                assert(Type::Tuple(out).model()->Tuple_0 =~= self.model()->Tuple_0);
                Type::Tuple(out)
            },
            Type::Nullable(x) => Type::Nullable(Box::new((&**x).clone())),
            Type::Mapping(k, v) => Type::Mapping(
                Box::new((&**k).clone()),
                Box::new((&**v).clone()),
            ),
        }
    }
}

fn same_enum8(a: &Vec<(String, i8)>, b: &Vec<(String, i8)>) -> (r: bool)
    ensures
        r == (enum8_models(a@) == enum8_models(b@)),
{
    if a.len() != b.len() {
        assert(enum8_models(a@).len() != enum8_models(b@).len());
        return false;
    }
    let mut i: usize = 0;
    while i < a.len()
        invariant
            a.len() == b.len(),
            i <= a.len(),
            forall|j: int| 0 <= j < i ==> enum8_models(a@)[j] == enum8_models(b@)[j],
        decreases a.len() - i,
    {
        if !(a[i].0 == b[i].0 && a[i].1 == b[i].1) {
            assert(enum8_models(a@)[i as int] != enum8_models(b@)[i as int]);
            return false;
        }
        i += 1;
    }
    assert(enum8_models(a@) =~= enum8_models(b@));
    true
}

fn same_enum16(a: &Vec<(String, i16)>, b: &Vec<(String, i16)>) -> (r: bool)
    ensures
        r == (enum16_models(a@) == enum16_models(b@)),
{
    if a.len() != b.len() {
        assert(enum16_models(a@).len() != enum16_models(b@).len());
        return false;
    }
    let mut i: usize = 0;
    while i < a.len()
        invariant
            a.len() == b.len(),
            i <= a.len(),
            forall|j: int| 0 <= j < i ==> enum16_models(a@)[j] == enum16_models(b@)[j],
        decreases a.len() - i,
    {
        if !(a[i].0 == b[i].0 && a[i].1 == b[i].1) {
            assert(enum16_models(a@)[i as int] != enum16_models(b@)[i as int]);
            return false;
        }
        i += 1;
    }
    assert(enum16_models(a@) =~= enum16_models(b@));
    true
}

impl Type {
    /// Whether two types are the same: the same constructor with the same
    /// arguments.
    pub fn same(&self, other: &Type) -> (r: bool)
        ensures
            r == (self@ == other@),
        decreases self,
    {
        match (self, other) {
            (Type::Int8, Type::Int8) => true,
            (Type::Int16, Type::Int16) => true,
            (Type::Int32, Type::Int32) => true,
            (Type::Int64, Type::Int64) => true,
            (Type::Int128, Type::Int128) => true,
            (Type::Int256, Type::Int256) => true,
            (Type::UInt8, Type::UInt8) => true,
            (Type::UInt16, Type::UInt16) => true,
            (Type::UInt32, Type::UInt32) => true,
            (Type::UInt64, Type::UInt64) => true,
            (Type::UInt128, Type::UInt128) => true,
            (Type::UInt256, Type::UInt256) => true,
            (Type::Float32, Type::Float32) => true,
            (Type::Float64, Type::Float64) => true,
            (Type::String, Type::String) => true,
            (Type::Uuid, Type::Uuid) => true,
            (Type::Date, Type::Date) => true,
            (Type::Ipv4, Type::Ipv4) => true,
            (Type::Ipv6, Type::Ipv6) => true,
            (Type::Decimal32(a), Type::Decimal32(b)) => *a == *b,
            (Type::Decimal64(a), Type::Decimal64(b)) => *a == *b,
            (Type::Decimal128(a), Type::Decimal128(b)) => *a == *b,
            (Type::Decimal256(a), Type::Decimal256(b)) => *a == *b,
            (Type::FixedString(a), Type::FixedString(b)) => *a == *b,
            (Type::DateTime(a), Type::DateTime(b)) => a.same_zone(b),
            (Type::DateTime64(p, a), Type::DateTime64(q, b)) => *p == *q && a.same_zone(b),
            (Type::Enum8(a), Type::Enum8(b)) => same_enum8(a, b),
            (Type::Enum16(a), Type::Enum16(b)) => same_enum16(a, b),
            (Type::LowCardinality(a), Type::LowCardinality(b)) => a.same(b),
            (Type::Array(a), Type::Array(b)) => a.same(b),
            (Type::Nullable(a), Type::Nullable(b)) => a.same(b),
            (Type::Mapping(k, v), Type::Mapping(l, w)) => k.same(l) && v.same(w),
            (Type::Tuple(a), Type::Tuple(b)) => {
                proof {
                    lemma_tuple_model(*a);
                    lemma_tuple_model(*b);
                }
                if a.len() != b.len() {
                    assert(type_models(a@).len() != type_models(b@).len());
                    return false;
                }
                let mut i: usize = 0;
                while i < a.len()
                    invariant
                        *self == Type::Tuple(*a),
                        self@ == SpecType::Tuple(type_models(a@)),
                        other@ == SpecType::Tuple(type_models(b@)),
                        a.len() == b.len(),
                        i <= a.len(),
                        forall|j: int| 0 <= j < i ==> (#[trigger] a[j])@ == b[j]@,
                    decreases a.len() - i,
                {
                    proof {
                        assert(decreases_to!(*self => self->Tuple_0));
                    }
                    if !a[i].same(&b[i]) {
                        assert(type_models(a@)[i as int] != type_models(b@)[i as int]);
                        return false;
                    }
                    i += 1;
                }
                assert(type_models(a@) =~= type_models(b@));
                true
            },
            _ => false,
        }
    }
}

impl PartialEq for Type {
    fn eq(&self, other: &Type) -> (r: bool) {
        self.same(other)
    }
}

impl PartialEqSpecImpl for Type {
    open spec fn obeys_eq_spec() -> bool {
        true
    }

    /// Two types are equal where their models are.
    open spec fn eq_spec(&self, other: &Type) -> bool {
        self@ == other@
    }
}

} // verus!

//! The canonical text of types.

use crate::text::{
    decimal_text, push_decimal, push_signed_decimal, push_str, signed_decimal_text, string_of_chars,
};
use crate::types::{enum16_models, enum8_models, SpecType, Type};
use vstd::prelude::*;

verus! {

broadcast use vstd::std_specs::vec::axiom_vec_index_decreases;

/// The text of one entry of an enumeration: its name, `=`, its number.
pub open spec fn enum_item_text(name: Seq<char>, value: int) -> Seq<char> {
    name + seq!['='] + signed_decimal_text(value)
}

/// The texts of the first `n` entries of an `Enum8`, with commas between.
pub open spec fn enum8_text(items: Seq<(Seq<char>, i8)>, n: nat) -> Seq<char>
    decreases n,
{
    if n == 0 {
        Seq::empty()
    } else if n == 1 {
        enum_item_text(items[0].0, items[0].1 as int)
    } else {
        enum8_text(items, (n - 1) as nat) + seq![','] + enum_item_text(
            items[n - 1].0,
            items[n - 1].1 as int,
        )
    }
}

/// The texts of the first `n` entries of an `Enum16`, with commas between.
pub open spec fn enum16_text(items: Seq<(Seq<char>, i16)>, n: nat) -> Seq<char>
    decreases n,
{
    if n == 0 {
        Seq::empty()
    } else if n == 1 {
        enum_item_text(items[0].0, items[0].1 as int)
    } else {
        enum16_text(items, (n - 1) as nat) + seq![','] + enum_item_text(
            items[n - 1].0,
            items[n - 1].1 as int,
        )
    }
}

/// A constructor applied to one argument: `name(arg)`.
pub open spec fn applied(name: Seq<char>, arg: Seq<char>) -> Seq<char> {
    name + seq!['('] + arg + seq![')']
}

/// The canonical text of a type.
pub open spec fn type_text(t: SpecType) -> Seq<char>
    decreases t, 0nat,
{
    match t {
        SpecType::Int8 => "Int8"@,
        SpecType::Int16 => "Int16"@,
        SpecType::Int32 => "Int32"@,
        SpecType::Int64 => "Int64"@,
        SpecType::Int128 => "Int128"@,
        SpecType::Int256 => "Int256"@,
        SpecType::UInt8 => "UInt8"@,
        SpecType::UInt16 => "UInt16"@,
        SpecType::UInt32 => "UInt32"@,
        SpecType::UInt64 => "UInt64"@,
        SpecType::UInt128 => "UInt128"@,
        SpecType::UInt256 => "UInt256"@,
        SpecType::Float32 => "Float32"@,
        SpecType::Float64 => "Float64"@,
        SpecType::Decimal32(s) => applied("Decimal32"@, decimal_text(s as nat)),
        SpecType::Decimal64(s) => applied("Decimal64"@, decimal_text(s as nat)),
        SpecType::Decimal128(s) => applied("Decimal128"@, decimal_text(s as nat)),
        SpecType::Decimal256(s) => applied("Decimal256"@, decimal_text(s as nat)),
        SpecType::String => "String"@,
        SpecType::FixedString(n) => applied("FixedString"@, decimal_text(n as nat)),
        SpecType::Uuid => "UUID"@,
        SpecType::Date => "Date"@,
        SpecType::DateTime(tz) => applied("DateTime"@, seq!['\''] + tz + seq!['\'']),
        SpecType::DateTime64(p, tz) => applied(
            "DateTime64"@,
            decimal_text(p as nat) + seq![',', '\''] + tz + seq!['\''],
        ),
        SpecType::Ipv4 => "IPv4"@,
        SpecType::Ipv6 => "IPv6"@,
        SpecType::Enum8(items) => applied("Enum8"@, enum8_text(items, items.len())),
        SpecType::Enum16(items) => applied("Enum16"@, enum16_text(items, items.len())),
        SpecType::LowCardinality(x) => applied("LowCardinality"@, type_text(*x)),
        SpecType::Array(x) => applied("Array"@, type_text(*x)),
        SpecType::Tuple(ts) => applied("Tuple"@, types_text(ts, ts.len())),
        SpecType::Nullable(x) => applied("Nullable"@, type_text(*x)),
        SpecType::Mapping(k, v) => applied("Map"@, type_text(*k) + seq![','] + type_text(*v)),
    }
}

/// The texts of the first `n` types of `ts`, with commas between.
pub open spec fn types_text(ts: Seq<SpecType>, n: nat) -> Seq<char>
    decreases ts, n,
{
    if n == 0 || n > ts.len() {
        Seq::empty()
    } else if n == 1 {
        type_text(ts[0])
    } else {
        types_text(ts, (n - 1) as nat) + seq![','] + type_text(ts[n - 1])
    }
}

fn write_enum8(items: &Vec<(String, i8)>, out: &mut Vec<char>)
    ensures
        final(out)@ == old(out)@ + enum8_text(enum8_models(items@), items.len() as nat),
{
    let ghost models = enum8_models(items@);
    let mut i: usize = 0;
    assert(out@ =~= old(out)@ + enum8_text(models, 0));
    while i < items.len()
        invariant
            i <= items.len(),
            models == enum8_models(items@),
            out@ == old(out)@ + enum8_text(models, i as nat),
        decreases items.len() - i,
    {
        if i > 0 {
            out.push(',');
        }
        push_str(out, items[i].0.as_str());
        out.push('=');
        push_signed_decimal(out, items[i].1 as i32);
        assert(out@ =~= old(out)@ + enum8_text(models, (i + 1) as nat));
        i += 1;
    }
}

fn write_enum16(items: &Vec<(String, i16)>, out: &mut Vec<char>)
    ensures
        final(out)@ == old(out)@ + enum16_text(enum16_models(items@), items.len() as nat),
{
    let ghost models = enum16_models(items@);
    let mut i: usize = 0;
    assert(out@ =~= old(out)@ + enum16_text(models, 0));
    while i < items.len()
        invariant
            i <= items.len(),
            models == enum16_models(items@),
            out@ == old(out)@ + enum16_text(models, i as nat),
        decreases items.len() - i,
    {
        if i > 0 {
            out.push(',');
        }
        push_str(out, items[i].0.as_str());
        out.push('=');
        push_signed_decimal(out, items[i].1 as i32);
        assert(out@ =~= old(out)@ + enum16_text(models, (i + 1) as nat));
        i += 1;
    }
}

/// Appends `name(` to `out`.
fn open_call(out: &mut Vec<char>, name: &str)
    ensures
        final(out)@ == old(out)@ + name@ + seq!['('],
{
    push_str(out, name);
    out.push('(');
}

/// Appends `name(n)` to `out`.
fn write_scaled(out: &mut Vec<char>, name: &str, n: usize)
    ensures
        final(out)@ == old(out)@ + applied(name@, decimal_text(n as nat)),
{
    open_call(out, name);
    push_decimal(out, n);
    out.push(')');
    assert(out@ =~= old(out)@ + applied(name@, decimal_text(n as nat)));
}

impl Type {
    /// Appends the canonical text of the type to `out`.
    pub fn write_text(&self, out: &mut Vec<char>)
        ensures
            final(out)@ == old(out)@ + type_text(self@),
        decreases self,
    {
        match self {
            Type::Int8 => push_str(out, "Int8"),
            Type::Int16 => push_str(out, "Int16"),
            Type::Int32 => push_str(out, "Int32"),
            Type::Int64 => push_str(out, "Int64"),
            Type::Int128 => push_str(out, "Int128"),
            Type::Int256 => push_str(out, "Int256"),
            Type::UInt8 => push_str(out, "UInt8"),
            Type::UInt16 => push_str(out, "UInt16"),
            Type::UInt32 => push_str(out, "UInt32"),
            Type::UInt64 => push_str(out, "UInt64"),
            Type::UInt128 => push_str(out, "UInt128"),
            Type::UInt256 => push_str(out, "UInt256"),
            Type::Float32 => push_str(out, "Float32"),
            Type::Float64 => push_str(out, "Float64"),
            Type::Decimal32(s) => write_scaled(out, "Decimal32", *s),
            Type::Decimal64(s) => write_scaled(out, "Decimal64", *s),
            Type::Decimal128(s) => write_scaled(out, "Decimal128", *s),
            Type::Decimal256(s) => write_scaled(out, "Decimal256", *s),
            Type::String => push_str(out, "String"),
            Type::FixedString(n) => write_scaled(out, "FixedString", *n),
            Type::Uuid => push_str(out, "UUID"),
            Type::Date => push_str(out, "Date"),
            Type::DateTime(tz) => {
                open_call(out, "DateTime");
                out.push('\'');
                push_str(out, tz.name());
                out.push('\'');
                out.push(')');
                assert(out@ =~= old(out)@ + type_text(self@));
            },
            Type::DateTime64(precision, tz) => {
                open_call(out, "DateTime64");
                push_decimal(out, *precision);
                out.push(',');
                out.push('\'');
                push_str(out, tz.name());
                out.push('\'');
                out.push(')');
                assert(out@ =~= old(out)@ + type_text(self@));
            },
            Type::Ipv4 => push_str(out, "IPv4"),
            Type::Ipv6 => push_str(out, "IPv6"),
            Type::Enum8(items) => {
                open_call(out, "Enum8");
                write_enum8(items, out);
                out.push(')');
                assert(out@ =~= old(out)@ + type_text(self@));
            },
            Type::Enum16(items) => {
                open_call(out, "Enum16");
                write_enum16(items, out);
                out.push(')');
                assert(out@ =~= old(out)@ + type_text(self@));
            },
            Type::LowCardinality(inner) => {
                open_call(out, "LowCardinality");
                inner.write_text(out);
                out.push(')');
                assert(out@ =~= old(out)@ + type_text(self@));
            },
            Type::Array(inner) => {
                open_call(out, "Array");
                inner.write_text(out);
                out.push(')');
                assert(out@ =~= old(out)@ + type_text(self@));
            },
            Type::Tuple(items) => {
                open_call(out, "Tuple");
                let ghost models = self@->Tuple_0;
                let ghost head = out@;
                let mut i: usize = 0;
                assert(out@ =~= head + types_text(models, 0));
                while i < items.len()
                    invariant
                        *self == Type::Tuple(*items),
                        models == self@->Tuple_0,
                        i <= items.len(),
                        out@ == head + types_text(models, i as nat),
                    decreases items.len() - i,
                {
                    proof {
                        assert(decreases_to!(*self => self->Tuple_0));
                    }
                    if i > 0 {
                        out.push(',');
                    }
                    items[i].write_text(out);
                    assert(out@ =~= head + types_text(models, (i + 1) as nat));
                    i += 1;
                }
                out.push(')');
                assert(out@ =~= old(out)@ + type_text(self@));
            },
            Type::Nullable(inner) => {
                open_call(out, "Nullable");
                inner.write_text(out);
                out.push(')');
                assert(out@ =~= old(out)@ + type_text(self@));
            },
            Type::Mapping(key, value) => {
                open_call(out, "Map");
                key.write_text(out);
                out.push(',');
                value.write_text(out);
                out.push(')');
                assert(out@ =~= old(out)@ + type_text(self@));
            },
        }
    }

    /// The canonical text of the type.
    pub fn to_string(&self) -> (s: String)
        ensures
            s@ == type_text(self@),
    {
        let mut out: Vec<char> = Vec::new();
        self.write_text(&mut out);
        assert(out@ =~= type_text(self@));
        string_of_chars(&out)
    }
}

impl ToString for Type {
    /// The canonical text of the type, as [`Type::to_string`] gives it.
    fn to_string(&self) -> (s: String)
        ensures
            s@ == type_text(self@),
    {
        Type::to_string(self)
    }
}

} // verus!

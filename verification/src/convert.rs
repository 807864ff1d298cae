//! Conversions between raw values and the types of a program, and the
//! contract of a row.

use crate::errors::{Error, ErrorKind};
use crate::types::{SpecType, Type};
use crate::types::print::type_text;
use crate::values::{SpecValue, Uuid, Value};
use vstd::prelude::*;

verus! {

/// A type that can be converted to a raw ClickHouse value.
pub trait ToSql: Sized {
    /// The value that `self` converts to, or the class of the failure.
    spec fn sql_value(self) -> Result<SpecValue, ErrorKind>;

    /// Converts to a raw value.
    fn to_sql(self) -> (r: Result<Value, Error>)
        ensures
            match self.sql_value() {
                Ok(v) => r matches Ok(x) && x@ == v,
                Err(k) => r matches Err(e) && e.kind == k,
            },
    ;
}

impl ToSql for Value {
    open spec fn sql_value(self) -> Result<SpecValue, ErrorKind> {
        Ok(self@)
    }

    fn to_sql(self) -> (r: Result<Value, Error>) {
        Ok(self)
    }
}

/// The error for a column whose type a conversion cannot take: a
/// `TypeMismatch` that names the type.
pub fn unexpected_type(type_: &Type) -> (e: Error)
    ensures
        e.kind == ErrorKind::TypeMismatch,
        e.message@ == "unexpected type: "@ + type_text(type_@),
{
    let mut message: Vec<char> = Vec::new();
    crate::text::push_str(&mut message, "unexpected type: ");
    type_.write_text(&mut message);
    assert(message@ =~= "unexpected type: "@ + type_text(type_@));
    let text = crate::text::string_of_chars(&message);
    Error::new(ErrorKind::TypeMismatch, text.as_str())
}

/// A type that can be converted from a raw ClickHouse value.
pub trait FromSql: Sized {
    /// Whether a value of a column of the given type converts, or the class
    /// of the failure.
    spec fn sql_check(type_: SpecType, value: SpecValue) -> Result<(), ErrorKind>;

    /// Whether `out` is what the value converts to.
    spec fn sql_result(type_: SpecType, value: SpecValue, out: Self) -> bool;

    /// Converts from a raw value of a column of the given type.
    fn from_sql(type_: &Type, value: Value) -> (r: Result<Self, Error>)
        ensures
            match Self::sql_check(type_@, value@) {
                Ok(()) => r matches Ok(x) && Self::sql_result(type_@, value@, x),
                Err(k) => r matches Err(e) && e.kind == k,
            },
    ;
}

impl FromSql for Value {
    open spec fn sql_check(type_: SpecType, value: SpecValue) -> Result<(), ErrorKind> {
        Ok(())
    }

    open spec fn sql_result(type_: SpecType, value: SpecValue, out: Value) -> bool {
        out@ == value
    }

    fn from_sql(_type_: &Type, value: Value) -> (r: Result<Self, Error>) {
        Ok(value)
    }
}

impl ToSql for Uuid {
    open spec fn sql_value(self) -> Result<SpecValue, ErrorKind> {
        Ok(SpecValue::Uuid(self))
    }

    fn to_sql(self) -> (r: Result<Value, Error>) {
        Ok(Value::Uuid(self))
    }
}

impl FromSql for Uuid {
    open spec fn sql_check(type_: SpecType, value: SpecValue) -> Result<(), ErrorKind> {
        if type_ is Uuid && value is Uuid {
            Ok(())
        } else {
            Err(ErrorKind::TypeMismatch)
        }
    }

    open spec fn sql_result(type_: SpecType, value: SpecValue, out: Uuid) -> bool {
        value == SpecValue::Uuid(out)
    }

    fn from_sql(type_: &Type, value: Value) -> (r: Result<Self, Error>) {
        if !matches!(type_, Type::Uuid) {
            return Err(unexpected_type(type_));
        }
        match value {
            Value::Uuid(x) => Ok(x),
            _ => Err(Error::new(ErrorKind::TypeMismatch, "value is no UUID")),
        }
    }
}

/// The models of the named and typed values of a row.
pub open spec fn row_models(columns: Seq<(&str, &Type, Value)>) -> Seq<
    (Seq<char>, SpecType, SpecValue),
> {
    Seq::new(columns.len(), |i: int| (columns[i].0@, columns[i].1@, columns[i].2@))
}

/// The models of the named values of a row.
pub open spec fn named_models(columns: Seq<(&'static str, Value)>) -> Seq<(Seq<char>, SpecValue)> {
    Seq::new(columns.len(), |i: int| (columns[i].0@, columns[i].1@))
}

/// A row that can be read from and written as raw ClickHouse values.
pub trait Row: Sized {
    /// Whether the columns of a row, in their order, make such a row, or the
    /// class of the failure.
    spec fn row_check(columns: Seq<(Seq<char>, SpecType, SpecValue)>) -> Result<(), ErrorKind>;

    /// Whether `out` is the row that the columns make.
    spec fn row_result(columns: Seq<(Seq<char>, SpecType, SpecValue)>, out: Self) -> bool;

    /// The named values that the row is written as, in the order of the
    /// destination's columns, or the class of the failure.
    spec fn row_columns(self) -> Result<Seq<(Seq<char>, SpecValue)>, ErrorKind>;

    /// Makes a row from its columns: name, type and value of each, in order.
    fn deserialize_row(map: Vec<(&str, &Type, Value)>) -> (r: Result<Self, Error>)
        ensures
            match Self::row_check(row_models(map@)) {
                Ok(()) => r matches Ok(x) && Self::row_result(row_models(map@), x),
                Err(k) => r matches Err(e) && e.kind == k,
            },
    ;

    /// The columns of the row: name and value of each, in order.
    fn serialize_row(self) -> (r: Result<Vec<(&'static str, Value)>, Error>)
        ensures
            match self.row_columns() {
                Ok(columns) => r matches Ok(x) && named_models(x@) == columns,
                Err(k) => r matches Err(e) && e.kind == k,
            },
    ;
}

impl Row for bool {
    /// A row of one `UInt8` column makes a boolean.
    open spec fn row_check(columns: Seq<(Seq<char>, SpecType, SpecValue)>) -> Result<
        (),
        ErrorKind,
    > {
        if columns.len() == 1 && columns[0].2 is UInt8 {
            Ok(())
        } else {
            Err(ErrorKind::TypeMismatch)
        }
    }

    /// The boolean is true exactly where the column holds `1`.
    open spec fn row_result(columns: Seq<(Seq<char>, SpecType, SpecValue)>, out: bool) -> bool {
        out == (columns[0].2->UInt8_0 == 1)
    }

    /// A boolean is not written as a row.
    open spec fn row_columns(self) -> Result<Seq<(Seq<char>, SpecValue)>, ErrorKind> {
        Err(ErrorKind::Unsupported)
    }

    fn deserialize_row(map: Vec<(&str, &Type, Value)>) -> (r: Result<Self, Error>) {
        if map.len() != 1 {
            return Err(Error::new(ErrorKind::TypeMismatch, "boolean result should have len 1"));
        }
        assert(row_models(map@)[0].2 == map[0].2@);
        match &map[0].2 {
            Value::UInt8(v) => Ok(*v == 1),
            _ => Err(Error::new(ErrorKind::TypeMismatch, "boolean result should be a UInt8")),
        }
    }

    fn serialize_row(self) -> (r: Result<Vec<(&'static str, Value)>, Error>) {
        Err(Error::new(ErrorKind::Unsupported, "a boolean is not written as a row"))
    }
}

} // verus!

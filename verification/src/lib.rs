//! Type system and columnar block codec of the ClickHouse native protocol.
//!
//! The crate models the grammar of column types, their textual form, the
//! composability rules, and the byte layout of columns on the wire.  Every
//! executable function carries a contract stated over the mathematical models
//! [`types::SpecType`] and [`values::SpecValue`].

pub mod convert;
pub mod errors;
pub mod text;
pub mod types;
pub mod tz;
pub mod values;
pub mod wire;

pub use convert::{unexpected_type, FromSql, Row, ToSql};
pub use errors::{Error, ErrorKind};
pub use types::deserialize::DeserializerState;
pub use types::parse::{eat_identifier, parse_args};
pub use types::serialize::SerializerState;
pub use types::Type;
pub use tz::Tz;
pub use values::{i256, u256, Date, DateTime, Ipv4, Ipv6, Uuid, Value};
pub use wire::Reader;

use vstd::prelude::*;

verus! {

/// Major version of the ClickHouse protocol that the library speaks.
pub const VERSION_MAJOR: u64 = 21;

/// Minor version of the ClickHouse protocol that the library speaks.
pub const VERSION_MINOR: u64 = 6;

/// What the library's functions give: a value or an error of the library.
pub type Result<T> = core::result::Result<T, Error>;

} // verus!

//! A codec for the values of CQL `decimal` columns.
//!
//! A decimal value is a mantissa and a scale. On the wire it is the scale
//! in four big-endian bytes followed by the mantissa in big-endian two's
//! complement. [`extract_scale_and_mantissa_from_slice`] reads such a value,
//! [`DecimalCql`] holds one, writes it as a cell and converts it from and to
//! a `rust_decimal::Decimal`, and [`DecimalCqlError`] names what can fail.
//!
//! - `wire`: the format, reading it, and what is proved of it.
//! - `decimal`: the value type, its conversions and its column type check.
//! - `cell`: writing a value with its length in front, by the driver.
//! - `column`: the column types that the codec tells apart.
//! - `error`: the failures and their messages.
//!
//! Everything is verified but for the calls into `rust_decimal` and
//! `scylla`. They stand in four small functions whose contracts are taken
//! on trust: `decimal_mantissa`, `decimal_scale` and `decimal_from_parts`
//! in `decimal`, and `write_decimal_cell` in `cell`. The `Decimal` that
//! `decimal_from_parts` makes is known to contracts by a name only,
//! `decimal_of`.

pub mod cell;
pub mod column;
pub mod decimal;
pub mod error;
pub mod wire;

pub use crate::column::ColumnKind;
pub use crate::decimal::DecimalCql;
pub use crate::error::DecimalCqlError;
pub use crate::wire::extract_scale_and_mantissa_from_slice;

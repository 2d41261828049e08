//! Parsing of integer literals from strings, with support for the base
//! prefixes `0x`, `0o`, and `0b` for hexadecimal, octal, and binary literals,
//! respectively.
//!
//! A valid integer string is an optional sign (`+` or `-`, the latter
//! forbidden for unsigned types), followed by an optional base prefix (`0x`,
//! `0o`, or `0b`, all lowercase), followed by one or more digits optionally
//! interspersed with underscores.  Leading and trailing whitespace is not
//! allowed.  Parsing is supported for all primitive integer widths and for
//! non-zero variants of each.

pub mod accum;
pub mod base;
pub mod digits;
pub mod errors;
pub mod laws;
pub mod parse;
pub mod prim;

pub use accum::Accumulator;
pub use accum::IntAccumulator;
pub use accum::NonZero;
pub use accum::NonZeroAccumulator;
pub use base::Base;
pub use base::BaseError;
pub use errors::IntAccumulatorError;
pub use errors::StrToIntError;
pub use errors::StrToPrimIntError;
pub use parse::strtoint;
pub use parse::StrToInt;
pub use prim::PrimInt;

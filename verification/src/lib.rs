//! Betting odds in American, decimal and fractional notation.
//!
//! The crate converts between the three notations, validates odds, and reads
//! and writes their text forms. Its own arithmetic is on whole numbers. A
//! decimal value is a double, and enters as a [`Decimal`] record: the bit
//! pattern of the double, 2.5 for example, with those of a few doubles
//! computed from it and two texts that write it. The crate compares and
//! rounds such patterns, see [`binary64`]; it does not add, multiply or
//! divide them, and where that is wanted says so in a [`Deferred`] result.

pub mod binary64;
pub mod conversions;
pub mod display;
pub mod error;
pub mod rounding;
pub mod text;
pub mod types;
pub mod validation;

pub use error::OddsError;
pub use types::{Decimal, Deferred, Odds, OddsFormat};

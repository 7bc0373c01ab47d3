//! The ways in which odds can be unusable.

use vstd::prelude::*;

verus! {

/// What went wrong with some odds, most kinds with a detail text.
#[derive(Debug, PartialEq)]
pub enum OddsError {
    /// American odds that are zero or -100.
    InvalidAmericanOdds(String),
    /// Decimal odds that are too small for what was asked.
    InvalidDecimalOdds(String),
    /// Kept for callers that classify fractional odds themselves.
    InvalidFractionalOdds(String),
    /// Text that is no odds in any notation.
    ParseError(String),
    /// Odds beyond the magnitude that is accepted.
    ValueOutOfRange(String),
    /// Fractional odds with a zero denominator.
    ZeroDenominator,
    /// Kept for callers that reject negative amounts themselves.
    NegativeValue(String),
    /// Decimal odds that are infinite or not a number.
    InfiniteOrNaN,
}

/// An [`OddsError`] with its detail as a sequence of characters.
pub enum ErrorModel {
    InvalidAmericanOdds(Seq<char>),
    InvalidDecimalOdds(Seq<char>),
    InvalidFractionalOdds(Seq<char>),
    ParseError(Seq<char>),
    ValueOutOfRange(Seq<char>),
    ZeroDenominator,
    NegativeValue(Seq<char>),
    InfiniteOrNaN,
}

impl View for OddsError {
    type V = ErrorModel;

    open spec fn view(&self) -> ErrorModel {
        match self {
            OddsError::InvalidAmericanOdds(detail) => ErrorModel::InvalidAmericanOdds(detail@),
            OddsError::InvalidDecimalOdds(detail) => ErrorModel::InvalidDecimalOdds(detail@),
            OddsError::InvalidFractionalOdds(detail) => ErrorModel::InvalidFractionalOdds(detail@),
            OddsError::ParseError(detail) => ErrorModel::ParseError(detail@),
            OddsError::ValueOutOfRange(detail) => ErrorModel::ValueOutOfRange(detail@),
            OddsError::ZeroDenominator => ErrorModel::ZeroDenominator,
            OddsError::NegativeValue(detail) => ErrorModel::NegativeValue(detail@),
            OddsError::InfiniteOrNaN => ErrorModel::InfiniteOrNaN,
        }
    }
}

impl ErrorModel {
    /// The sentence that presents the error to a person: what kind it is,
    /// then its detail.
    pub open spec fn sentence(self) -> Seq<char> {
        match self {
            ErrorModel::InvalidAmericanOdds(detail) => "Invalid American odds: "@ + detail,
            ErrorModel::InvalidDecimalOdds(detail) => "Invalid decimal odds: "@ + detail,
            ErrorModel::InvalidFractionalOdds(detail) => "Invalid fractional odds: "@ + detail,
            ErrorModel::ParseError(detail) => "Failed to parse odds string: "@ + detail,
            ErrorModel::ValueOutOfRange(detail) => "Value out of range: "@ + detail,
            ErrorModel::ZeroDenominator => "Denominator cannot be zero"@,
            ErrorModel::NegativeValue(detail) => "Negative value not allowed: "@ + detail,
            ErrorModel::InfiniteOrNaN => "Value must be finite and not NaN"@,
        }
    }
}

/// The result of a fallible operation with the error as its model.
pub open spec fn outcome<T>(r: Result<T, OddsError>) -> Result<T, ErrorModel> {
    match r {
        Ok(value) => Ok(value),
        Err(error) => Err(error@),
    }
}

impl OddsError {
    /// The error as a sentence for a person to read.
    pub fn to_string(&self) -> (text: String)
        ensures
            text@ == self@.sentence(),
    {
        match self {
            OddsError::InvalidAmericanOdds(detail) => String::from_str(
                "Invalid American odds: ",
            ).concat(detail.as_str()),
            OddsError::InvalidDecimalOdds(detail) => String::from_str(
                "Invalid decimal odds: ",
            ).concat(detail.as_str()),
            OddsError::InvalidFractionalOdds(detail) => String::from_str(
                "Invalid fractional odds: ",
            ).concat(detail.as_str()),
            OddsError::ParseError(detail) => String::from_str(
                "Failed to parse odds string: ",
            ).concat(detail.as_str()),
            OddsError::ValueOutOfRange(detail) => String::from_str("Value out of range: ").concat(
                detail.as_str(),
            ),
            OddsError::ZeroDenominator => String::from_str("Denominator cannot be zero"),
            OddsError::NegativeValue(detail) => String::from_str(
                "Negative value not allowed: ",
            ).concat(detail.as_str()),
            OddsError::InfiniteOrNaN => String::from_str("Value must be finite and not NaN"),
        }
    }
}

} // verus!

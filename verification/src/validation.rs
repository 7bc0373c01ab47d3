//! Which odds make sense and are of a practical size.

use crate::binary64::{
    at_least, below_one, exceeds_thousand, finite, greater_than, is_finite, less_than,
};
use crate::error::{outcome, ErrorModel, OddsError};
use crate::text::{append_integer, integer_text};
use crate::types::{Deferred, Odds, OddsFormat, OddsModel};
use vstd::prelude::*;

verus! {

/// The largest magnitude of American odds that is accepted.
pub const MAX_AMERICAN: i32 = 100000;

/// The largest numerator and the largest denominator that are accepted.
pub const MAX_FRACTION_PART: u32 = 10000;

impl OddsModel {
    /// What is wrong with the odds, if anything is. The first of these that
    /// applies is the answer.
    ///
    /// American odds: zero; -100, while +100 passes; a magnitude above
    /// [`MAX_AMERICAN`]. Decimal odds: no finite number; less than one; more
    /// than one thousand. Fractional odds: a zero denominator; a part above
    /// [`MAX_FRACTION_PART`].
    pub open spec fn validate(self) -> Result<(), ErrorModel> {
        match self {
            OddsModel::American(value) => {
                if value == 0 {
                    Err(ErrorModel::InvalidAmericanOdds("American odds cannot be zero"@))
                } else if value == -100 {
                    Err(
                        ErrorModel::InvalidAmericanOdds(
                            "American odds cannot be -100 (would imply infinite probability)"@,
                        ),
                    )
                } else if value < -MAX_AMERICAN || value > MAX_AMERICAN {
                    Err(
                        ErrorModel::ValueOutOfRange(
                            "American odds out of reasonable range: "@ + integer_text(value as int),
                        ),
                    )
                } else {
                    Ok(())
                }
            },
            OddsModel::Decimal(value) => {
                if !is_finite(value.bits) {
                    Err(ErrorModel::InfiniteOrNaN)
                } else if less_than(value.bits, 1) {
                    Err(
                        ErrorModel::InvalidDecimalOdds(
                            "Decimal odds must be >= 1.0, got: "@ + value.shown,
                        ),
                    )
                } else if greater_than(value.bits, 1000) {
                    Err(ErrorModel::ValueOutOfRange("Decimal odds too large: "@ + value.shown))
                } else {
                    Ok(())
                }
            },
            OddsModel::Fractional(num, den) => {
                if den == 0 {
                    Err(ErrorModel::ZeroDenominator)
                } else if num > MAX_FRACTION_PART || den > MAX_FRACTION_PART {
                    Err(ErrorModel::ValueOutOfRange("Fractional odds values too large"@))
                } else {
                    Ok(())
                }
            },
        }
    }
}

impl Odds {
    /// Checks the odds, as [`OddsModel::validate`] says.
    pub fn validate(&self) -> (r: Result<(), OddsError>)
        ensures
            outcome(r) == self@.validate(),
    {
        match self.format() {
            OddsFormat::American(value) => {
                if *value == 0 {
                    Err(
                        OddsError::InvalidAmericanOdds(
                            String::from_str("American odds cannot be zero"),
                        ),
                    )
                } else if *value == -100 {
                    Err(
                        OddsError::InvalidAmericanOdds(
                            String::from_str(
                                "American odds cannot be -100 (would imply infinite probability)",
                            ),
                        ),
                    )
                } else if *value < -MAX_AMERICAN || *value > MAX_AMERICAN {
                    let mut detail = String::from_str("American odds out of reasonable range: ");
                    append_integer(&mut detail, *value);
                    Err(OddsError::ValueOutOfRange(detail))
                } else {
                    Ok(())
                }
            },
            OddsFormat::Decimal(value) => {
                if !finite(value.bits) {
                    Err(OddsError::InfiniteOrNaN)
                } else if below_one(value.bits) {
                    Err(
                        OddsError::InvalidDecimalOdds(
                            String::from_str("Decimal odds must be >= 1.0, got: ").concat(
                                value.shown.as_str(),
                            ),
                        ),
                    )
                } else if exceeds_thousand(value.bits) {
                    Err(
                        OddsError::ValueOutOfRange(
                            String::from_str("Decimal odds too large: ").concat(
                                value.shown.as_str(),
                            ),
                        ),
                    )
                } else {
                    Ok(())
                }
            },
            OddsFormat::Fractional(num, den) => {
                if *den == 0 {
                    Err(OddsError::ZeroDenominator)
                } else if *num > MAX_FRACTION_PART || *den > MAX_FRACTION_PART {
                    Err(
                        OddsError::ValueOutOfRange(
                            String::from_str("Fractional odds values too large"),
                        ),
                    )
                } else {
                    Ok(())
                }
            },
        }
    }
}

/// Odds that pass [`OddsModel::validate`] have decimal odds and an implied
/// probability, and the decimal odds are a number of at least one: held
/// decimal odds stand for a finite number from one to one thousand, and the
/// two other notations give one plus a quotient with a positive divisor.
/// The probability, one over such a number, is then above zero and at most
/// one.
pub proof fn lemma_valid_odds_are_at_least_one(odds: OddsModel)
    requires
        odds.validate() is Ok,
    ensures
        odds.implied_probability() is Ok,
        match odds.to_decimal() {
            Ok(Deferred::Ready(bits)) => is_finite(bits) && at_least(bits, 1) && !greater_than(
                bits,
                1000,
            ),
            Ok(Deferred::OnePlus { num, den }) => den > 0,
            Err(_) => false,
        },
{
}

} // verus!

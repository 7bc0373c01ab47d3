//! Odds in their three notations.

use crate::conversions::{lemma_normalize_idempotent, normalize_american_odds, normalized};
use vstd::prelude::*;

verus! {

/// A decimal odds value as this crate holds it: a double, with four doubles
/// that were computed from it and two texts that write it. The doubles are
/// held as their IEEE-754 bit patterns, see [`crate::binary64`]. Whoever
/// has the double fills every field from it, each operation in double
/// precision; the crate reads the fields and never checks one against
/// another.
///
/// Below, `d` is the double.
#[derive(Debug, PartialEq)]
pub struct Decimal {
    /// `d` itself.
    pub bits: u64,
    /// `(d - 1) * 100`: the profit on a stake of 100.
    pub hundredfold: u64,
    /// `-100 / (d - 1)`: the stake that wins 100, with a minus sign.
    pub inverse: u64,
    /// `(d - 1) * 1000`: the profit on a stake of 1000.
    pub thousandfold: u64,
    /// `1 / d`: the implied probability.
    pub reciprocal: u64,
    /// `d` in the shortest decimal text that reads back as `d`.
    pub shown: String,
    /// `d` in decimal text with two digits after the point.
    pub fixed: String,
}

/// A [`Decimal`] with its texts as sequences of characters.
pub struct DecimalModel {
    pub bits: u64,
    pub hundredfold: u64,
    pub inverse: u64,
    pub thousandfold: u64,
    pub reciprocal: u64,
    pub shown: Seq<char>,
    pub fixed: Seq<char>,
}

impl View for Decimal {
    type V = DecimalModel;

    open spec fn view(&self) -> DecimalModel {
        DecimalModel {
            bits: self.bits,
            hundredfold: self.hundredfold,
            inverse: self.inverse,
            thousandfold: self.thousandfold,
            reciprocal: self.reciprocal,
            shown: self.shown@,
            fixed: self.fixed@,
        }
    }
}

impl Clone for Decimal {
    fn clone(&self) -> (copy: Self)
        ensures
            copy@ == self@,
    {
        Decimal {
            bits: self.bits,
            hundredfold: self.hundredfold,
            inverse: self.inverse,
            thousandfold: self.thousandfold,
            reciprocal: self.reciprocal,
            shown: self.shown.clone(),
            fixed: self.fixed.clone(),
        }
    }
}

/// The model of decimal odds that may be missing.
pub open spec fn model_of(decimal: Option<Decimal>) -> Option<DecimalModel> {
    match decimal {
        Some(value) => Some(value@),
        None => None,
    }
}

/// The three notations of betting odds.
#[derive(Debug, PartialEq)]
pub enum OddsFormat {
    /// Moneyline odds: a positive value is the profit on a stake of 100, a
    /// negative one the stake that wins 100.
    American(i32),
    /// The total return on a stake of one.
    Decimal(Decimal),
    /// Profit to stake, as numerator and denominator.
    Fractional(u32, u32),
}

/// An [`OddsFormat`] with its texts as sequences of characters.
pub enum OddsModel {
    American(i32),
    Decimal(DecimalModel),
    Fractional(u32, u32),
}

impl View for OddsFormat {
    type V = OddsModel;

    open spec fn view(&self) -> OddsModel {
        match self {
            OddsFormat::American(value) => OddsModel::American(*value),
            OddsFormat::Decimal(value) => OddsModel::Decimal(value@),
            OddsFormat::Fractional(num, den) => OddsModel::Fractional(*num, *den),
        }
    }
}

impl Clone for OddsFormat {
    fn clone(&self) -> (copy: Self)
        ensures
            copy@ == self@,
    {
        match self {
            OddsFormat::American(value) => OddsFormat::American(*value),
            OddsFormat::Decimal(value) => OddsFormat::Decimal(value.clone()),
            OddsFormat::Fractional(num, den) => OddsFormat::Fractional(*num, *den),
        }
    }
}

impl OddsModel {
    /// American odds are in their usual form: not strictly between 0 and
    /// 100, nor between -100 and 0. The two other notations have no such
    /// form.
    pub open spec fn usual(self) -> bool {
        match self {
            OddsModel::American(value) => normalized(value as int) == value,
            _ => true,
        }
    }
}

/// Odds in one of the three notations. Any value can be held, also one that
/// [`Odds::validate`] refuses, but American odds only in their usual form.
#[derive(Debug, PartialEq)]
pub struct Odds {
    format: OddsFormat,
}

impl View for Odds {
    type V = OddsModel;

    closed spec fn view(&self) -> OddsModel {
        self.format@
    }
}

impl Clone for Odds {
    fn clone(&self) -> (copy: Self)
        ensures
            copy@ == self@,
    {
        proof {
            use_type_invariant(self);
        }
        Odds { format: self.format.clone() }
    }
}

/// A result that is either known or some arithmetic in double precision
/// away: that arithmetic is left to the caller.
#[derive(Debug, Clone, Copy, PartialEq, Eq)]
pub enum Deferred<T> {
    /// The result.
    Ready(T),
    /// The result belongs to the decimal odds `num / den + 1`. The caller
    /// divides and adds in double precision, makes a [`Decimal`] of the
    /// outcome, and takes from it what the operation names for this case.
    OnePlus { num: u32, den: u32 },
}

impl Odds {
    #[verifier::type_invariant]
    spec fn held_in_usual_form(&self) -> bool {
        self.format@.usual()
    }

    /// American odds. A value strictly between 0 and 100, or between -100
    /// and 0, is not kept as it is: see [`normalize_american_odds`].
    pub fn new_american(value: i32) -> (odds: Odds)
        ensures
            odds@ == OddsModel::American(normalized(value as int) as i32),
            odds@.usual(),
    {
        proof {
            lemma_normalize_idempotent(value as int);
        }
        Odds { format: OddsFormat::American(normalize_american_odds(value)) }
    }

    /// Decimal odds, kept as given.
    pub fn new_decimal(value: Decimal) -> (odds: Odds)
        ensures
            odds@ == OddsModel::Decimal(value@),
    {
        Odds { format: OddsFormat::Decimal(value) }
    }

    /// Fractional odds, kept as given: not reduced, and a zero denominator
    /// is held like any other.
    pub fn new_fractional(numerator: u32, denominator: u32) -> (odds: Odds)
        ensures
            odds@ == OddsModel::Fractional(numerator, denominator),
    {
        Odds { format: OddsFormat::Fractional(numerator, denominator) }
    }

    /// The notation and the values held.
    pub fn format(&self) -> (format: &OddsFormat)
        ensures
            format@ == self@,
            self@.usual(),
    {
        proof {
            use_type_invariant(self);
        }
        &self.format
    }
}

} // verus!

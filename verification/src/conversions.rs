//! From one notation to another.

use crate::binary64::{
    at_least, at_least_two, exceeds_one, greater_than, round_to_i32, round_to_u32, rounded,
};
use crate::error::{outcome, ErrorModel, OddsError};
use crate::rounding::{lemma_nearest, nearest};
use crate::types::{Decimal, DecimalModel, Deferred, Odds, OddsFormat, OddsModel};
use vstd::arithmetic::div_mod::{lemma_fundamental_div_mod, lemma_mod_multiples_basic};
use vstd::prelude::*;

verus! {

/// American odds in their usual form. A profit of less than 100 on a stake
/// of 100 is written as the stake that wins 100, and a stake of less than
/// 100 as the profit on 100: `10000 / odds`, rounded to the nearest whole
/// number, with the other sign. Every other value stays.
pub open spec fn normalized(odds: int) -> int {
    if 0 < odds < 100 {
        -nearest(10000, odds)
    } else if -100 < odds < 0 {
        nearest(10000, -odds)
    } else {
        odds
    }
}

/// Brings American odds into their usual form, as [`normalized`] says.
/// The result is never strictly between 0 and 100 nor between -100 and 0,
/// and where it differs from `odds`, it times `odds` is as close to -10000
/// as a whole number can bring it.
pub fn normalize_american_odds(odds: i32) -> (r: i32)
    ensures
        r == normalized(odds as int),
        !(0 < r < 100),
        !(-100 < r < 0),
        0 < odds < 100 ==> r < 0 && -odds <= 2 * (10000 + r * odds) < odds,
        -100 < odds < 0 ==> r > 0 && odds <= 2 * (10000 + r * odds) < -odds,
{
    proof {
        lemma_normalized_magnitude(odds as int);
        lemma_normalized_nearest(odds as int);
    }
    if odds > 0 && odds < 100 {
        -((20000 + odds) / (2 * odds))
    } else if odds < 0 && odds > -100 {
        (20000 - odds) / (2 * (-odds))
    } else {
        odds
    }
}

/// What [`normalized`] changes, it moves out of the band: to a magnitude
/// between 101 and 10000, with the other sign.
pub proof fn lemma_normalized_magnitude(odds: int)
    ensures
        0 < odds < 100 ==> -10000 <= normalized(odds) <= -101,
        -100 < odds < 0 ==> 101 <= normalized(odds) <= 10000,
{
    if 0 < odds < 100 {
        lemma_nearest_of_small(odds);
    } else if -100 < odds < 0 {
        lemma_nearest_of_small(-odds);
    }
}

/// What [`normalized`] changes, it sends to the whole number that is
/// closest to `-10000 / odds`. Of two that are equally close it takes the
/// one farther from zero.
pub proof fn lemma_normalized_nearest(odds: int)
    ensures
        0 < odds < 100 ==> -odds <= 2 * (10000 + normalized(odds) * odds) < odds,
        -100 < odds < 0 ==> odds <= 2 * (10000 + normalized(odds) * odds) < -odds,
{
    if 0 < odds < 100 {
        lemma_nearest(10000, odds);
        let q = nearest(10000, odds);
        assert(10000 + (-q) * odds == 10000 - q * odds) by (nonlinear_arith);
    } else if -100 < odds < 0 {
        lemma_nearest(10000, -odds);
        let q = nearest(10000, -odds);
        assert(10000 + q * odds == 10000 - q * (-odds)) by (nonlinear_arith);
    }
}

proof fn lemma_nearest_of_small(x: int)
    requires
        0 < x < 100,
    ensures
        101 <= nearest(10000, x) <= 10000,
{
    let q = nearest(10000, x);
    assert(101 <= q <= 10000) by (nonlinear_arith)
        requires
            q == (20000 + x) / (2 * x),
            0 < x < 100,
    ;
}

/// Normalizing twice is normalizing once.
pub proof fn lemma_normalize_idempotent(odds: int)
    ensures
        normalized(normalized(odds)) == normalized(odds),
{
    lemma_normalized_magnitude(odds);
}

/// `g` is the greatest common divisor of `a` and `b`: the largest number
/// that divides both, and zero where both are zero.
pub open spec fn is_gcd(g: int, a: int, b: int) -> bool {
    if a == 0 && b == 0 {
        g == 0
    } else {
        &&& g > 0
        &&& a % g == 0
        &&& b % g == 0
        &&& forall|d: int| d > 0 && #[trigger] (a % d) == 0 && b % d == 0 ==> d <= g
    }
}

/// The greatest common divisor of `a` and `b`.
pub open spec fn greatest_common_divisor(a: int, b: int) -> int {
    choose|g: int| is_gcd(g, a, b)
}

/// There is one greatest common divisor.
pub proof fn lemma_gcd_unique(g: int, a: int, b: int)
    requires
        is_gcd(g, a, b),
    ensures
        g == greatest_common_divisor(a, b),
{
    let h = greatest_common_divisor(a, b);
    assert(is_gcd(h, a, b));
    if a != 0 || b != 0 {
        assert(a % g == 0 && b % g == 0);
        assert(a % h == 0 && b % h == 0);
    }
}

/// A fraction divided through by the greatest common divisor of its parts
/// keeps its value, keeps a positive denominator, and is in lowest terms.
pub proof fn lemma_lowest_terms(num: int, den: int, g: int)
    requires
        0 <= num,
        0 < den,
        is_gcd(g, num, den),
    ensures
        0 < g,
        (num / g) * den == num * (den / g),
        0 <= num / g,
        0 < den / g,
        is_gcd(1, num / g, den / g),
{
    let a = num / g;
    let b = den / g;
    lemma_fundamental_div_mod(num, g);
    lemma_fundamental_div_mod(den, g);
    assert(a * den == num * b) by (nonlinear_arith)
        requires
            num == g * a,
            den == g * b,
    ;
    assert(0 <= a && 0 < b) by (nonlinear_arith)
        requires
            num == g * a,
            den == g * b,
            0 <= num,
            0 < den,
            0 < g,
    ;
    assert forall|d: int| d > 0 && #[trigger] (a % d) == 0 && b % d == 0 implies d <= 1 by {
        let ka = a / d;
        let kb = b / d;
        lemma_fundamental_div_mod(a, d);
        lemma_fundamental_div_mod(b, d);
        assert(num == ka * (g * d) && den == kb * (g * d) && g * d > 0) by (nonlinear_arith)
            requires
                num == g * a,
                den == g * b,
                a == d * ka,
                b == d * kb,
                0 < g,
                0 < d,
        ;
        lemma_mod_multiples_basic(ka, g * d);
        lemma_mod_multiples_basic(kb, g * d);
        assert(num % (g * d) == 0 && den % (g * d) == 0);
        assert(d <= 1) by (nonlinear_arith)
            requires
                g * d <= g,
                0 < g,
                0 < d,
        ;
    }
}

/// A fraction divided through by the greatest common divisor of its two
/// parts.
pub open spec fn reduced(num: u32, den: u32) -> (u32, u32) {
    let g = greatest_common_divisor(num as int, den as int);
    ((num as int / g) as u32, (den as int / g) as u32)
}

/// The greatest common divisor as `num_integer::gcd` computes it for two
/// unsigned numbers: a number that divides both and is the largest to do so,
/// and zero for two zeros.
#[verifier::external_body]
fn gcd(a: u32, b: u32) -> (g: u32)
    ensures
        is_gcd(g as int, a as int, b as int),
{
    num_integer::gcd(a, b)
}

impl DecimalModel {
    /// The profit on a stake of 100 as a whole number.
    pub open spec fn hundredths(self) -> i32 {
        rounded(self.hundredfold, i32::MIN as int, i32::MAX as int) as i32
    }

    /// The profit on a stake of 1000 as a whole number.
    pub open spec fn thousandths(self) -> u32 {
        rounded(self.thousandfold, 0, u32::MAX as int) as u32
    }

    /// The American odds of decimal odds: for a value of two or more the
    /// profit on 100 as a whole number, normalized; for any other the stake
    /// that wins 100 as a whole number, with a minus sign.
    pub open spec fn american(self) -> i32 {
        if at_least(self.bits, 2) {
            normalized(self.hundredths() as int) as i32
        } else {
            rounded(self.inverse, i32::MIN as int, i32::MAX as int) as i32
        }
    }

    /// The fractional odds of decimal odds: the profit on 1000 as a whole
    /// number over one thousand, reduced.
    pub open spec fn fractional(self) -> (u32, u32) {
        reduced(self.thousandths(), 1000)
    }
}

/// What American odds other than zero pay per unit staked, as a fraction:
/// odds above zero pay their value on 100, odds below zero pay 100 on their
/// value without the sign.
pub open spec fn american_profit(value: i32) -> (u32, u32) {
    if value > 0 {
        (value as u32, 100u32)
    } else {
        (100u32, (-value) as u32)
    }
}

/// American odds in their usual form pay on the side of even money that
/// their sign says: above zero the profit is at least the stake, below zero
/// at most the stake, and less than the stake unless the odds are -100. So
/// their decimal odds are at least two, or at most two.
pub proof fn lemma_american_profit(value: i32)
    requires
        value != 0,
        normalized(value as int) == value,
    ensures
        american_profit(value).1 > 0,
        value > 0 ==> american_profit(value).0 >= american_profit(value).1,
        value < 0 ==> american_profit(value).0 <= american_profit(value).1,
        value < -100 ==> american_profit(value).0 < american_profit(value).1,
{
    lemma_normalized_magnitude(value as int);
}

impl OddsModel {
    /// The decimal odds: one more than the profit per unit staked. Decimal
    /// odds are their own, as a bit pattern; for the two other notations
    /// the division and the addition are left to the caller, whose outcome
    /// is the result. American odds of zero have no decimal form, nor have
    /// fractional odds with a zero denominator.
    pub open spec fn to_decimal(self) -> Result<Deferred<u64>, ErrorModel> {
        match self {
            OddsModel::Decimal(value) => Ok(Deferred::Ready(value.bits)),
            OddsModel::American(value) => {
                if value == 0 {
                    Err(ErrorModel::InvalidAmericanOdds("American odds cannot be zero"@))
                } else {
                    Ok(
                        Deferred::OnePlus {
                            num: american_profit(value).0,
                            den: american_profit(value).1,
                        },
                    )
                }
            },
            OddsModel::Fractional(num, den) => {
                if den == 0 {
                    Err(ErrorModel::ZeroDenominator)
                } else {
                    Ok(Deferred::OnePlus { num, den })
                }
            },
        }
    }

    /// The implied probability, as a bit pattern: one over the decimal
    /// odds, where [`OddsModel::to_decimal`] gives them, and its error where
    /// it gives none. For deferred decimal odds the result is their
    /// [`Decimal::reciprocal`].
    pub open spec fn implied_probability(self) -> Result<Deferred<u64>, ErrorModel> {
        match self {
            OddsModel::Decimal(value) => Ok(Deferred::Ready(value.reciprocal)),
            _ => self.to_decimal(),
        }
    }

    /// The American odds. American odds are their own. Decimal odds must
    /// be greater than one. Fractional odds go through their decimal form,
    /// whatever the denominator and whatever comes of it: the result is
    /// its [`Decimal::american`].
    pub open spec fn to_american(self) -> Result<Deferred<i32>, ErrorModel> {
        match self {
            OddsModel::American(value) => Ok(Deferred::Ready(value)),
            OddsModel::Decimal(value) => {
                if greater_than(value.bits, 1) {
                    Ok(Deferred::Ready(value.american()))
                } else {
                    Err(
                        ErrorModel::InvalidDecimalOdds(
                            "Decimal odds must be greater than 1.0, got: "@ + value.shown,
                        ),
                    )
                }
            },
            OddsModel::Fractional(num, den) => Ok(Deferred::OnePlus { num, den }),
        }
    }

    /// The fractional odds. Fractional odds are their own, as they are
    /// held. Decimal odds give thousandths, reduced. American odds go
    /// through their decimal form, of which the result is the
    /// [`Decimal::fractional`], and zero has none.
    pub open spec fn to_fractional(self) -> Result<Deferred<(u32, u32)>, ErrorModel> {
        match self {
            OddsModel::Fractional(num, den) => Ok(Deferred::Ready((num, den))),
            OddsModel::Decimal(value) => Ok(Deferred::Ready(value.fractional())),
            OddsModel::American(value) => {
                if value == 0 {
                    Err(ErrorModel::InvalidAmericanOdds("American odds cannot be zero"@))
                } else {
                    Ok(
                        Deferred::OnePlus {
                            num: american_profit(value).0,
                            den: american_profit(value).1,
                        },
                    )
                }
            },
        }
    }
}

impl Decimal {
    /// The American odds of these decimal odds, whatever their value: see
    /// [`DecimalModel::american`]. Where the value is two or more, the
    /// result is not strictly between 0 and 100 nor between -100 and 0.
    pub fn american(&self) -> (r: i32)
        ensures
            r == self@.american(),
            at_least(self.bits, 2) ==> !(0 < r < 100) && !(-100 < r < 0),
    {
        if at_least_two(self.bits) {
            normalize_american_odds(round_to_i32(self.hundredfold))
        } else {
            round_to_i32(self.inverse)
        }
    }

    /// The fractional odds of these decimal odds, to a thousandth: see
    /// [`DecimalModel::fractional`]. The result is worth as much as the
    /// thousandths over one thousand and is in lowest terms.
    pub fn fractional(&self) -> (r: (u32, u32))
        ensures
            r == self@.fractional(),
            r.0 * 1000 == self@.thousandths() * r.1,
            0 < r.1,
            is_gcd(1, r.0 as int, r.1 as int),
    {
        let thousandths = round_to_u32(self.thousandfold);
        let g = gcd(thousandths, 1000);
        proof {
            lemma_gcd_unique(g as int, thousandths as int, 1000);
            lemma_lowest_terms(thousandths as int, 1000, g as int);
        }
        (thousandths / g, 1000 / g)
    }
}

/// What American odds pay per unit staked, as [`american_profit`] says.
fn profit_of_american(value: i32) -> (r: (u32, u32))
    ensures
        r == american_profit(value),
{
    if value > 0 {
        (value as u32, 100)
    } else {
        (100, (-(value as i64)) as u32)
    }
}

/// The error for American odds of zero.
fn zero_american() -> (r: OddsError)
    ensures
        r@ == ErrorModel::InvalidAmericanOdds("American odds cannot be zero"@),
{
    OddsError::InvalidAmericanOdds(String::from_str("American odds cannot be zero"))
}

impl Odds {
    /// Converts to American odds, as [`OddsModel::to_american`] says.
    pub fn to_american(&self) -> (r: Result<Deferred<i32>, OddsError>)
        ensures
            outcome(r) == self@.to_american(),
    {
        match self.format() {
            OddsFormat::American(value) => Ok(Deferred::Ready(*value)),
            OddsFormat::Decimal(value) => {
                if exceeds_one(value.bits) {
                    Ok(Deferred::Ready(value.american()))
                } else {
                    Err(
                        OddsError::InvalidDecimalOdds(
                            String::from_str("Decimal odds must be greater than 1.0, got: ").concat(
                                value.shown.as_str(),
                            ),
                        ),
                    )
                }
            },
            OddsFormat::Fractional(num, den) => Ok(Deferred::OnePlus { num: *num, den: *den }),
        }
    }

    /// Converts to decimal odds, as [`OddsModel::to_decimal`] says.
    pub fn to_decimal(&self) -> (r: Result<Deferred<u64>, OddsError>)
        ensures
            outcome(r) == self@.to_decimal(),
    {
        match self.format() {
            OddsFormat::Decimal(value) => Ok(Deferred::Ready(value.bits)),
            OddsFormat::American(value) => {
                if *value == 0 {
                    Err(zero_american())
                } else {
                    let (num, den) = profit_of_american(*value);
                    Ok(Deferred::OnePlus { num, den })
                }
            },
            OddsFormat::Fractional(num, den) => {
                if *den == 0 {
                    Err(OddsError::ZeroDenominator)
                } else {
                    Ok(Deferred::OnePlus { num: *num, den: *den })
                }
            },
        }
    }

    /// Converts to fractional odds, as [`OddsModel::to_fractional`] says.
    pub fn to_fractional(&self) -> (r: Result<Deferred<(u32, u32)>, OddsError>)
        ensures
            outcome(r) == self@.to_fractional(),
    {
        match self.format() {
            OddsFormat::Fractional(num, den) => Ok(Deferred::Ready((*num, *den))),
            OddsFormat::Decimal(value) => Ok(Deferred::Ready(value.fractional())),
            OddsFormat::American(value) => {
                if *value == 0 {
                    Err(zero_american())
                } else {
                    let (num, den) = profit_of_american(*value);
                    Ok(Deferred::OnePlus { num, den })
                }
            },
        }
    }

    /// The implied probability, as [`OddsModel::implied_probability`] says.
    pub fn implied_probability(&self) -> (r: Result<Deferred<u64>, OddsError>)
        ensures
            outcome(r) == self@.implied_probability(),
    {
        match self.format() {
            OddsFormat::Decimal(value) => Ok(Deferred::Ready(value.reciprocal)),
            _ => self.to_decimal(),
        }
    }
}

} // verus!

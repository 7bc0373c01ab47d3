//! Odds as text, and text as odds.

use crate::conversions::{lemma_normalize_idempotent, lemma_normalized_magnitude, normalized};
use crate::error::{ErrorModel, OddsError};
use crate::text::{
    append_integer, append_number, digits, find, integer_text, is_digit, lemma_digits,
    lemma_position, lemma_trim_keeps, parse_signed, parse_unsigned, position, signed_integer,
    to_chars, trim, trim_bounds, unsigned_integer,
};
use crate::types::{model_of, Decimal, DecimalModel, Odds, OddsFormat, OddsModel};
use vstd::prelude::*;

verus! {

impl OddsModel {
    /// The odds as they are written: American odds with their sign, a plus
    /// for what is not negative; decimal odds with two digits after the
    /// point; fractional odds as numerator, stroke, denominator, as held.
    pub open spec fn text(self) -> Seq<char> {
        match self {
            OddsModel::American(value) => {
                if value >= 0 {
                    "+"@ + integer_text(value as int)
                } else {
                    integer_text(value as int)
                }
            },
            OddsModel::Decimal(value) => value.fixed,
            OddsModel::Fractional(num, den) => digits(num as nat) + "/"@ + digits(den as nat),
        }
    }

    /// The odds, where they pass [`OddsModel::validate`], and what it
    /// objects to where they do not.
    pub open spec fn checked(self) -> Result<OddsModel, ErrorModel> {
        match self.validate() {
            Ok(_) => Ok(self),
            Err(error) => Err(error),
        }
    }
}

/// The odds that a text with a stroke in it writes: a numerator and a
/// denominator around the one stroke, each an unsigned whole number with
/// white space around it at most.
pub open spec fn parse_fraction(t: Seq<char>) -> Result<OddsModel, ErrorModel> {
    let stroke = position(t, '/');
    let after = t.subrange(stroke + 1, t.len() as int);
    let num = trim(t.subrange(0, stroke));
    let den = trim(after);
    if position(after, '/') < after.len() {
        Err(
            ErrorModel::ParseError(
                "Invalid fractional format, expected 'num/den': '"@ + t + "'"@,
            ),
        )
    } else if num.len() == 0 || den.len() == 0 {
        Err(ErrorModel::ParseError("Empty numerator or denominator in fraction"@))
    } else {
        match (unsigned_integer(num), unsigned_integer(den)) {
            (Some(n), Some(d)) => OddsModel::Fractional(n, d).checked(),
            (None, _) => Err(ErrorModel::ParseError("Invalid numerator: '"@ + num + "'"@)),
            (_, None) => Err(ErrorModel::ParseError("Invalid denominator: '"@ + den + "'"@)),
        }
    }
}

/// The odds that a text writes. White space at its two ends does not count.
/// What remains is read, in this order, as
/// - a whole number with or without sign: American odds, normalized;
/// - something with a sign in front: nothing;
/// - something with a stroke: fractional odds, see [`parse_fraction`];
/// - anything else: the decimal odds `decimal`, which the caller has read
///   from the same text, if it could.
/// Odds that were read are checked before they are given out.
pub open spec fn parse(s: Seq<char>, decimal: Option<DecimalModel>) -> Result<
    OddsModel,
    ErrorModel,
> {
    let t = trim(s);
    if t.len() == 0 {
        Err(ErrorModel::ParseError("Empty string"@))
    } else if let Some(value) = signed_integer(t) {
        OddsModel::American(normalized(value as int) as i32).checked()
    } else if t[0] == '+' || t[0] == '-' {
        Err(ErrorModel::ParseError("Invalid American odds format: '"@ + t + "'"@))
    } else if position(t, '/') < t.len() {
        parse_fraction(t)
    } else {
        match decimal {
            Some(value) => OddsModel::Decimal(value).checked(),
            None => Err(
                ErrorModel::ParseError("Unable to parse '"@ + t + "' as any odds format"@),
            ),
        }
    }
}

/// What [`parse`] gives out has passed [`OddsModel::validate`], and
/// American odds among it are in their usual form.
pub proof fn lemma_parsed_odds_are_valid(s: Seq<char>, decimal: Option<DecimalModel>)
    ensures
        match parse(s, decimal) {
            Ok(odds) => odds.validate() is Ok && odds.usual(),
            Err(_) => true,
        },
{
    if let Some(value) = signed_integer(trim(s)) {
        lemma_normalize_idempotent(value as int);
    }
}

/// What is written of American and of fractional odds reads back as the
/// same odds, where the odds pass [`OddsModel::validate`] and American
/// odds are in their usual form. What the caller offers as decimal odds
/// makes no difference.
pub proof fn lemma_text_reads_back(odds: OddsModel, decimal: Option<DecimalModel>)
    requires
        !(odds is Decimal),
        odds.usual(),
        odds.validate() is Ok,
    ensures
        parse(odds.text(), decimal) == Ok::<OddsModel, ErrorModel>(odds),
{
    reveal_strlit("+");
    reveal_strlit("/");
    let t = odds.text();
    match odds {
        OddsModel::American(value) => {
            lemma_normalized_magnitude(value as int);
            let magnitude = if value < 0 {
                (-value) as nat
            } else {
                value as nat
            };
            lemma_digits(magnitude);
            assert(t.drop_first() =~= digits(magnitude));
            assert(t.last() == digits(magnitude).last());
            assert(is_digit(digits(magnitude).last()));
            lemma_trim_keeps(t);
        },
        OddsModel::Fractional(num, den) => {
            let before = digits(num as nat);
            let behind = digits(den as nat);
            lemma_digits(num as nat);
            lemma_digits(den as nat);
            let stroke = before.len() as int;
            assert(t[0] == before[0] && is_digit(before[0]));
            assert(t.last() == behind.last() && is_digit(behind.last()));
            lemma_trim_keeps(t);
            assert(t[stroke] == '/');
            assert(!is_digit(t[stroke]));
            assert forall|k: int| 0 <= k < stroke implies t[k] != '/' by {
                assert(t[k] == before[k] && is_digit(before[k]));
            }
            lemma_position(t, '/', stroke);
            let after = t.subrange(stroke + 1, t.len() as int);
            assert(after =~= behind);
            assert forall|k: int| 0 <= k < after.len() implies after[k] != '/' by {
                assert(is_digit(behind[k]));
            }
            lemma_position(after, '/', after.len() as int);
            assert(t.subrange(0, stroke) =~= before);
            assert(is_digit(before.last()));
            lemma_trim_keeps(before);
            lemma_trim_keeps(behind);
        },
        OddsModel::Decimal(_) => {},
    }
}

/// A detail text that quotes a piece of the input.
fn quoting(before: &str, quoted: &str, after: &str) -> (r: String)
    ensures
        r@ == before@ + quoted@ + after@,
{
    String::from_str(before).concat(quoted).concat(after)
}

impl Odds {
    /// The odds as text, as [`OddsModel::text`] says.
    pub fn to_string(&self) -> (r: String)
        ensures
            r@ == self@.text(),
    {
        match self.format() {
            OddsFormat::American(value) => {
                let mut out = String::new();
                if *value >= 0 {
                    out.append("+");
                }
                append_integer(&mut out, *value);
                assert(out@ =~= self@.text());
                out
            },
            OddsFormat::Decimal(value) => value.fixed.clone(),
            OddsFormat::Fractional(num, den) => {
                let mut out = String::new();
                append_number(&mut out, *num as u64);
                out.append("/");
                append_number(&mut out, *den as u64);
                assert(out@ =~= self@.text());
                out
            },
        }
    }

    /// The odds, where they pass [`Odds::validate`].
    fn checked(self) -> (r: Result<Odds, OddsError>)
        ensures
            match r {
                Ok(odds) => self@.checked() == Ok::<OddsModel, ErrorModel>(odds@),
                Err(error) => self@.checked() == Err::<OddsModel, ErrorModel>(error@),
            },
    {
        match self.validate() {
            Ok(()) => Ok(self),
            Err(error) => Err(error),
        }
    }

    /// Reads odds from text, as [`parse`] says. `decimal` is what the text
    /// without the white space at its ends gives when it is read as a
    /// number in double precision, and `None` where it is no such number.
    pub fn from_str(s: &str, decimal: Option<Decimal>) -> (r: Result<Odds, OddsError>)
        ensures
            match r {
                Ok(odds) => parse(s@, model_of(decimal)) == Ok::<
                    OddsModel,
                    ErrorModel,
                >(odds@),
                Err(error) => parse(s@, model_of(decimal)) == Err::<
                    OddsModel,
                    ErrorModel,
                >(error@),
            },
            r matches Ok(odds) ==> odds@.validate() is Ok,
    {
        proof {
            lemma_parsed_odds_are_valid(s@, model_of(decimal));
        }
        let v = to_chars(s);
        let (lo, hi) = trim_bounds(&v, 0, v.len());
        assert(v@.subrange(0, v.len() as int) =~= v@);
        let ghost t = v@.subrange(lo as int, hi as int);
        if lo == hi {
            return Err(OddsError::ParseError(String::from_str("Empty string")));
        }
        if let Some(value) = parse_signed(&v, lo, hi) {
            return Odds::new_american(value).checked();
        }
        let first = v[lo];
        assert(t[0] == first);
        if first == '+' || first == '-' {
            return Err(
                OddsError::ParseError(
                    quoting("Invalid American odds format: '", s.substring_char(lo, hi), "'"),
                ),
            );
        }
        let stroke = find(&v, lo, hi, '/');
        if stroke < hi {
            let second = find(&v, stroke + 1, hi, '/');
            let (num_lo, num_hi) = trim_bounds(&v, lo, stroke);
            let (den_lo, den_hi) = trim_bounds(&v, stroke + 1, hi);
            proof {
                assert(t.subrange(0, stroke - lo) =~= v@.subrange(lo as int, stroke as int));
                assert(t.subrange(stroke - lo + 1, t.len() as int) =~= v@.subrange(
                    stroke + 1,
                    hi as int,
                ));
            }
            if second < hi {
                return Err(
                    OddsError::ParseError(
                        quoting(
                            "Invalid fractional format, expected 'num/den': '",
                            s.substring_char(lo, hi),
                            "'",
                        ),
                    ),
                );
            }
            if num_lo == num_hi || den_lo == den_hi {
                return Err(
                    OddsError::ParseError(
                        String::from_str("Empty numerator or denominator in fraction"),
                    ),
                );
            }
            return match (parse_unsigned(&v, num_lo, num_hi), parse_unsigned(&v, den_lo, den_hi)) {
                (Some(num), Some(den)) => Odds::new_fractional(num, den).checked(),
                (None, _) => Err(
                    OddsError::ParseError(
                        quoting("Invalid numerator: '", s.substring_char(num_lo, num_hi), "'"),
                    ),
                ),
                (_, None) => Err(
                    OddsError::ParseError(
                        quoting("Invalid denominator: '", s.substring_char(den_lo, den_hi), "'"),
                    ),
                ),
            };
        }
        match decimal {
            Some(value) => Odds::new_decimal(value).checked(),
            None => Err(
                OddsError::ParseError(
                    quoting("Unable to parse '", s.substring_char(lo, hi), "' as any odds format"),
                ),
            ),
        }
    }
}

} // verus!

//! IEEE-754 double-precision values, read through their bit patterns.
//!
//! A pattern has a sign bit, eleven exponent bits and fifty-two fraction
//! bits. The functions here order a pattern against the few whole numbers
//! that odds are compared with, and round a pattern to a whole number. Their
//! contracts say what that means for the number the pattern stands for,
//! which [`scaled`] gives as an integer.

use crate::rounding::{lemma_nearest, nearest};
use vstd::arithmetic::div_mod::{
    lemma_basic_div, lemma_div_is_ordered, lemma_div_multiples_vanish,
    lemma_div_multiples_vanish_quotient,
};
use vstd::arithmetic::power2::*;
use vstd::prelude::*;

verus! {

/// The sign bit alone: negative zero.
pub const SIGN_BIT: u64 = 0x8000_0000_0000_0000;

/// Two to the fifty-second: the number of fraction patterns per exponent.
pub const FRACTION_SPAN: u64 = 0x0010_0000_0000_0000;

/// The pattern of positive infinity; every larger magnitude is not a number.
pub const POSITIVE_INFINITY: u64 = 0x7FF0_0000_0000_0000;

/// The pattern of one.
pub const ONE: u64 = 0x3FF0_0000_0000_0000;

/// The pattern of two.
pub const TWO: u64 = 0x4000_0000_0000_0000;

/// The pattern of one thousand.
pub const THOUSAND: u64 = 0x408F_4000_0000_0000;

/// Whether the sign bit is set.
pub open spec fn negative(bits: u64) -> bool {
    bits >= SIGN_BIT
}

/// The pattern without its sign bit.
pub open spec fn magnitude(bits: u64) -> int {
    if bits >= SIGN_BIT {
        bits - SIGN_BIT
    } else {
        bits as int
    }
}

/// The biased exponent, from 0 to 2047.
pub open spec fn exponent(bits: u64) -> int {
    magnitude(bits) / (FRACTION_SPAN as int)
}

/// The fraction bits, below two to the fifty-second.
pub open spec fn fraction(bits: u64) -> int {
    magnitude(bits) % (FRACTION_SPAN as int)
}

/// The pattern stands for no number.
pub open spec fn is_nan(bits: u64) -> bool {
    exponent(bits) == 2047 && fraction(bits) != 0
}

/// The pattern stands for positive or negative infinity.
pub open spec fn is_infinite(bits: u64) -> bool {
    exponent(bits) == 2047 && fraction(bits) == 0
}

/// The pattern stands for a number: zero, subnormal or normal.
pub open spec fn is_finite(bits: u64) -> bool {
    exponent(bits) < 2047
}

/// The absolute value that a sign-free finite pattern stands for, times two
/// to the 1074th: the significand shifted by the exponent. Subnormal patterns
/// have no hidden bit and share the lowest shift.
pub open spec fn weight(magnitude: int) -> int {
    let e = magnitude / (FRACTION_SPAN as int);
    let f = magnitude % (FRACTION_SPAN as int);
    if e <= 0 {
        f
    } else {
        (FRACTION_SPAN + f) * pow2((e - 1) as nat)
    }
}

/// The number that a finite pattern stands for, times two to the 1074th. For
/// every finite pattern this is an integer.
pub open spec fn scaled(bits: u64) -> int {
    if negative(bits) {
        -weight(magnitude(bits))
    } else {
        weight(magnitude(bits))
    }
}

/// What the whole number `k` is on the scale of [`scaled`].
pub open spec fn on_scale(k: int) -> int {
    k * pow2(1074)
}

/// The value is at least `k`. False of what is not a number.
pub open spec fn at_least(bits: u64, k: int) -> bool {
    if is_finite(bits) {
        scaled(bits) >= on_scale(k)
    } else {
        is_infinite(bits) && !negative(bits)
    }
}

/// The value is greater than `k`. False of what is not a number.
pub open spec fn greater_than(bits: u64, k: int) -> bool {
    if is_finite(bits) {
        scaled(bits) > on_scale(k)
    } else {
        is_infinite(bits) && !negative(bits)
    }
}

/// The value is less than `k`. False of what is not a number.
pub open spec fn less_than(bits: u64, k: int) -> bool {
    if is_finite(bits) {
        scaled(bits) < on_scale(k)
    } else {
        is_infinite(bits) && negative(bits)
    }
}

/// The whole number nearest to the value of a finite pattern, a half going
/// away from zero.
pub open spec fn nearest_whole(bits: u64) -> int {
    let q = nearest(weight(magnitude(bits)), on_scale(1));
    if negative(bits) {
        -q
    } else {
        q
    }
}

/// The value as a whole number from `least` to `most`: the nearest whole
/// number, a half going away from zero, or the nearer of the two ends where
/// that lies beyond them. Infinity gives the end on its side, and what is
/// not a number gives zero.
pub open spec fn rounded(bits: u64, least: int, most: int) -> int {
    if is_nan(bits) {
        0
    } else if is_infinite(bits) {
        if negative(bits) {
            least
        } else {
            most
        }
    } else if nearest_whole(bits) < least {
        least
    } else if nearest_whole(bits) > most {
        most
    } else {
        nearest_whole(bits)
    }
}

/// A weight is never negative.
pub proof fn lemma_weight_nonnegative(magnitude: int)
    requires
        0 <= magnitude,
    ensures
        0 <= weight(magnitude),
{
    let e = magnitude / (FRACTION_SPAN as int);
    let f = magnitude % (FRACTION_SPAN as int);
    if e > 0 {
        let p = pow2((e - 1) as nat) as int;
        lemma_pow2_pos((e - 1) as nat);
        assert(0 <= (FRACTION_SPAN + f) * p) by (nonlinear_arith)
            requires
                0 <= f,
                0 < p,
        ;
    }
}

/// Sign-free patterns are ordered as the values they stand for: a larger
/// pattern has a larger weight.
pub proof fn lemma_weight_increases(a: int, b: int)
    requires
        0 <= a < b,
    ensures
        weight(a) < weight(b),
{
    let span = FRACTION_SPAN as int;
    let ea = a / span;
    let fa = a % span;
    let eb = b / span;
    let fb = b % span;
    if ea == eb {
        if ea > 0 {
            let p = pow2((ea - 1) as nat) as int;
            lemma_pow2_pos((ea - 1) as nat);
            assert((span + fa) * p < (span + fb) * p) by (nonlinear_arith)
                requires
                    fa < fb,
                    0 < p,
            ;
        }
    } else {
        assert(ea < eb);
        let q = pow2((eb - 1) as nat) as int;
        let top = pow2(ea as nat) as int;
        lemma_pow2_pos((eb - 1) as nat);
        assert(span * q <= (span + fb) * q) by (nonlinear_arith)
            requires
                0 <= fb,
                0 < q,
        ;
        if ea < eb - 1 {
            lemma_pow2_strictly_increases(ea as nat, (eb - 1) as nat);
        }
        assert(span * top <= span * q) by (nonlinear_arith)
            requires
                top <= q,
                0 < span,
        ;
        if ea > 0 {
            let p = pow2((ea - 1) as nat) as int;
            lemma_pow2_pos((ea - 1) as nat);
            lemma_pow2_unfold(ea as nat);
            assert(top == 2 * p);
            assert((span + fa) * p < span * (2 * p)) by (nonlinear_arith)
                requires
                    fa < span,
                    0 < p,
            ;
        } else {
            lemma_pow2_pos(0);
            assert(fa < span * top) by (nonlinear_arith)
                requires
                    fa < span,
                    1 <= top,
                    0 < span,
            ;
        }
    }
}

/// The patterns [`ONE`], [`TWO`] and [`THOUSAND`] stand for one, two and one
/// thousand.
pub proof fn lemma_landmarks()
    ensures
        weight(ONE as int) == on_scale(1),
        weight(TWO as int) == on_scale(2),
        weight(THOUSAND as int) == on_scale(1000),
{
    lemma2_to64_rest();
    assert(pow2(52) == FRACTION_SPAN);
    lemma_pow2_adds(52, 1022);
    lemma_pow2_adds(52, 1023);
    lemma_pow2_unfold(1075);
    assert(ONE as int / (FRACTION_SPAN as int) == 1023);
    assert(ONE as int % (FRACTION_SPAN as int) == 0);
    assert(TWO as int / (FRACTION_SPAN as int) == 1024);
    assert(TWO as int % (FRACTION_SPAN as int) == 0);
    assert(THOUSAND as int / (FRACTION_SPAN as int) == 1032);
    assert(THOUSAND as int % (FRACTION_SPAN as int) == 0xF_4000_0000_0000);
    assert(FRACTION_SPAN + 0xF_4000_0000_0000 == 1000 * pow2(43));
    lemma_pow2_adds(43, 1031);
    assert(1000 * pow2(43) * pow2(1031) == 1000 * (pow2(43) * pow2(1031))) by (nonlinear_arith);
}

/// Whether the pattern stands for a number, infinity excluded.
pub fn finite(bits: u64) -> (r: bool)
    ensures
        r == is_finite(bits),
{
    let sign_free: u64 = if bits >= SIGN_BIT {
        bits - SIGN_BIT
    } else {
        bits
    };
    sign_free < POSITIVE_INFINITY
}

/// Whether the value is at least two.
pub fn at_least_two(bits: u64) -> (r: bool)
    ensures
        r == at_least(bits, 2),
{
    proof {
        lemma_landmarks();
        lemma_weight_nonnegative(magnitude(bits));
        lemma_pow2_pos(1074);
        if bits < TWO {
            lemma_weight_increases(bits as int, TWO as int);
        } else if TWO < bits && bits < SIGN_BIT {
            lemma_weight_increases(TWO as int, bits as int);
        }
    }
    TWO <= bits && bits <= POSITIVE_INFINITY
}

/// Whether the value is greater than one.
pub fn exceeds_one(bits: u64) -> (r: bool)
    ensures
        r == greater_than(bits, 1),
{
    proof {
        lemma_landmarks();
        lemma_weight_nonnegative(magnitude(bits));
        lemma_pow2_pos(1074);
        if bits < ONE {
            lemma_weight_increases(bits as int, ONE as int);
        } else if ONE < bits && bits < SIGN_BIT {
            lemma_weight_increases(ONE as int, bits as int);
        }
    }
    ONE < bits && bits <= POSITIVE_INFINITY
}

/// Whether the value is less than one.
pub fn below_one(bits: u64) -> (r: bool)
    ensures
        r == less_than(bits, 1),
{
    proof {
        lemma_landmarks();
        lemma_weight_nonnegative(magnitude(bits));
        lemma_pow2_pos(1074);
        if bits < ONE {
            lemma_weight_increases(bits as int, ONE as int);
        } else if ONE < bits && bits < SIGN_BIT {
            lemma_weight_increases(ONE as int, bits as int);
        }
    }
    bits < ONE || (SIGN_BIT <= bits && bits - SIGN_BIT <= POSITIVE_INFINITY)
}

/// Whether the value is greater than one thousand.
pub fn exceeds_thousand(bits: u64) -> (r: bool)
    ensures
        r == greater_than(bits, 1000),
{
    proof {
        lemma_landmarks();
        lemma_weight_nonnegative(magnitude(bits));
        lemma_pow2_pos(1074);
        if bits < THOUSAND {
            lemma_weight_increases(bits as int, THOUSAND as int);
        } else if THOUSAND < bits && bits < SIGN_BIT {
            lemma_weight_increases(THOUSAND as int, bits as int);
        }
    }
    THOUSAND < bits && bits <= POSITIVE_INFINITY
}

/// [`nearest_whole`] is within a half of the value, and is the one farther
/// from zero where two whole numbers are.
pub proof fn lemma_nearest_whole(bits: u64)
    ensures
        !negative(bits) ==> -on_scale(1) <= 2 * (scaled(bits) - on_scale(nearest_whole(bits)))
            < on_scale(1),
        negative(bits) ==> -on_scale(1) < 2 * (scaled(bits) - on_scale(nearest_whole(bits)))
            <= on_scale(1),
{
    let w = weight(magnitude(bits));
    let q = nearest(w, on_scale(1));
    lemma_weight_nonnegative(magnitude(bits));
    lemma_pow2_pos(1074);
    lemma_nearest(w, on_scale(1));
    assert((-q) * pow2(1074) == -(q * pow2(1074))) by (nonlinear_arith);
}

/// Two to the power `n`.
fn power_of_two(n: u64) -> (p: u64)
    requires
        n <= 63,
    ensures
        p == pow2(n as nat),
{
    let mut p: u64 = 1;
    let mut i: u64 = 0;
    proof {
        lemma2_to64();
    }
    while i < n
        invariant
            i <= n <= 63,
            p == pow2(i as nat),
        decreases n - i,
    {
        proof {
            lemma2_to64_rest();
            lemma_pow2_unfold((i + 1) as nat);
            if i + 1 < 63 {
                lemma_pow2_strictly_increases((i + 1) as nat, 63);
            }
        }
        p = p * 2;
        i = i + 1;
    }
    p
}

/// The whole number nearest to what a sign-free finite pattern stands for,
/// or two to the thirty-second where that is less.
fn nearest_magnitude(sign_free: u64) -> (q: u64)
    requires
        sign_free < POSITIVE_INFINITY,
    ensures
        q <= 0x1_0000_0000,
        ({
            let exact = nearest(weight(sign_free as int), on_scale(1));
            if exact < 0x1_0000_0000 {
                q == exact
            } else {
                q == 0x1_0000_0000
            }
        }),
{
    let e: u64 = sign_free / FRACTION_SPAN;
    let f: u64 = sign_free % FRACTION_SPAN;
    let ghost w = weight(sign_free as int);
    let ghost u = on_scale(1);
    proof {
        lemma2_to64();
        lemma2_to64_rest();
        lemma_pow2_pos(1074);
        lemma_weight_nonnegative(sign_free as int);
    }
    if e >= 1055 {
        proof {
            let k = pow2((e - 1) as nat) as int;
            lemma_pow2_adds(52, (e - 1) as nat);
            lemma_pow2_adds(32, 1074);
            if e + 51 > 1106 {
                lemma_pow2_strictly_increases(1106, (e + 51) as nat);
            }
            lemma_pow2_pos((e - 1) as nat);
            assert(w >= pow2(52) * k) by (nonlinear_arith)
                requires
                    w == (pow2(52) + f) * k,
                    0 <= f,
                    0 < k,
            ;
            assert(w >= 0x1_0000_0000 * u);
            assert((2 * u) * 0x1_0000_0000 <= 2 * w + u) by (nonlinear_arith)
                requires
                    w >= 0x1_0000_0000 * u,
                    0 < u,
            ;
            lemma_div_is_ordered((2 * u) * 0x1_0000_0000, 2 * w + u, 2 * u);
            lemma_div_multiples_vanish(0x1_0000_0000, 2 * u);
        }
        return 0x1_0000_0000;
    }
    if e <= 1021 {
        proof {
            if e == 0 {
                lemma_pow2_strictly_increases(53, 1074);
            } else {
                let k = pow2((e - 1) as nat) as int;
                lemma_pow2_pos((e - 1) as nat);
                lemma_pow2_adds(54, (e - 1) as nat);
                if e + 53 < 1074 {
                    lemma_pow2_strictly_increases((e + 53) as nat, 1074);
                }
                assert(2 * w < pow2(54) * k) by (nonlinear_arith)
                    requires
                        w == (pow2(52) + f) * k,
                        f < pow2(52),
                        pow2(54) == 4 * pow2(52),
                        0 < k,
                ;
            }
            lemma_basic_div(2 * w + u, 2 * u);
        }
        return 0;
    }
    let significand: u64 = FRACTION_SPAN + f;
    let shift: u64 = 1075 - e;
    let p: u64 = power_of_two(shift);
    proof {
        let k = pow2((e - 1) as nat) as int;
        let h = pow2((shift - 1) as nat) as int;
        lemma_pow2_pos((e - 1) as nat);
        lemma_pow2_pos((shift - 1) as nat);
        lemma_pow2_unfold(shift as nat);
        lemma_pow2_unfold(e as nat);
        lemma_pow2_adds((shift - 1) as nat, e as nat);
        if 21 < shift {
            lemma_pow2_strictly_increases(21, shift as nat);
        }
        if shift < 53 {
            lemma_pow2_strictly_increases(shift as nat, 53);
        }
        assert(p == 2 * h);
        assert(u == p * k && 2 * w + u == k * (2 * significand + p) && 2 * u == k * (2 * p))
            by (nonlinear_arith)
            requires
                u == h * (2 * k),
                p == 2 * h,
                w == significand * k,
        ;
        lemma_div_multiples_vanish_quotient(k, 2 * significand + p, 2 * p);
        lemma_div_multiples_vanish_quotient(2, significand + h, p as int);
        assert(2 * (significand + h) == 2 * significand + p);
        assert(significand + h < 0x1_0000_0001 * p);
        lemma_div_is_ordered(significand + h, 0x1_0000_0001 * p, p as int);
        lemma_div_multiples_vanish(0x1_0000_0001, p as int);
        assert(0x1_0000_0001 * p == p * 0x1_0000_0001) by (nonlinear_arith);
        if (significand + h) / (p as int) == 0x1_0000_0001 {
            assert(0x1_0000_0001 * p <= significand + h) by (nonlinear_arith)
                requires
                    (significand + h) / (p as int) == 0x1_0000_0001,
                    0 < p,
                    0 <= significand + h,
            ;
        }
    }
    (significand + p / 2) / p
}

/// The value as a signed whole number of 32 bits, as [`rounded`] says.
pub fn round_to_i32(bits: u64) -> (r: i32)
    ensures
        r == rounded(bits, i32::MIN as int, i32::MAX as int),
{
    let minus = bits >= SIGN_BIT;
    let sign_free: u64 = if minus {
        bits - SIGN_BIT
    } else {
        bits
    };
    if sign_free > POSITIVE_INFINITY {
        0
    } else if sign_free == POSITIVE_INFINITY {
        if minus {
            i32::MIN
        } else {
            i32::MAX
        }
    } else {
        let q = nearest_magnitude(sign_free);
        if minus {
            if q >= 0x8000_0000 {
                i32::MIN
            } else {
                -(q as i32)
            }
        } else {
            if q >= 0x8000_0000 {
                i32::MAX
            } else {
                q as i32
            }
        }
    }
}

/// The value as an unsigned whole number of 32 bits, as [`rounded`] says.
pub fn round_to_u32(bits: u64) -> (r: u32)
    ensures
        r == rounded(bits, 0, u32::MAX as int),
{
    let minus = bits >= SIGN_BIT;
    let sign_free: u64 = if minus {
        bits - SIGN_BIT
    } else {
        bits
    };
    if sign_free > POSITIVE_INFINITY {
        0
    } else if sign_free == POSITIVE_INFINITY {
        if minus {
            0
        } else {
            u32::MAX
        }
    } else {
        let q = nearest_magnitude(sign_free);
        if minus {
            0
        } else if q > 0xFFFF_FFFF {
            u32::MAX
        } else {
            q as u32
        }
    }
}

} // verus!

//! Quotients as whole numbers.

use vstd::prelude::*;

verus! {

/// `n / d` rounded to the nearest whole number, a half going up, for `n`
/// not negative and `d` positive.
pub open spec fn nearest(n: int, d: int) -> int {
    (2 * n + d) / (2 * d)
}

/// [`nearest`] gives the whole number closest to the quotient: twice the
/// distance is at most the divisor, and reaches it only from below.
pub proof fn lemma_nearest(n: int, d: int)
    requires
        0 <= n,
        0 < d,
    ensures
        -d <= 2 * (n - nearest(n, d) * d) < d,
        0 <= nearest(n, d),
{
    let q = nearest(n, d);
    assert(q * (2 * d) <= 2 * n + d < (q + 1) * (2 * d) && 0 <= q) by (nonlinear_arith)
        requires
            q == (2 * n + d) / (2 * d),
            0 <= n,
            0 < d,
    ;
    assert(q * (2 * d) == 2 * (q * d) && (q + 1) * (2 * d) == 2 * (q * d) + 2 * d)
        by (nonlinear_arith);
}

} // verus!

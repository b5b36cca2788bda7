//! Integer arithmetic shared by the rasterizer: rounding division on signed
//! numbers and the facts about products that the overflow proofs rest on.

use vstd::prelude::*;
use vstd::arithmetic::div_mod::lemma_fundamental_div_mod_converse;

verus! {

/// The absolute value of an integer.
pub open spec fn abs(a: int) -> int {
    if a < 0 {
        -a
    } else {
        a
    }
}

/// A product is bounded by the product of the bounds of its factors.
pub proof fn lemma_product_bound(a: int, b: int, m: int, n: int)
    by (nonlinear_arith)
    requires
        -m <= a <= m,
        -n <= b <= n,
    ensures
        -(m * n) <= a * b <= m * n,
{
}

/// A quotient `q` with remainder in `[0, d)` is the rounded-down quotient.
pub proof fn lemma_floor_div_unique(a: int, d: int, q: int)
    requires
        d > 0,
        q * d <= a < q * d + d,
    ensures
        a / d == q,
{
    lemma_fundamental_div_mod_converse(a, d, q, a - q * d);
}

/// Rounded-down division lies between its operands' scaled bounds: when
/// `lo * d <= a <= hi * d`, the quotient is within `[lo, hi]`.
pub proof fn lemma_floor_div_between(a: int, d: int, lo: int, hi: int)
    by (nonlinear_arith)
    requires
        d > 0,
        lo * d <= a <= hi * d,
    ensures
        lo <= a / d <= hi,
{
    let q = a / d;
    assert(a == d * q + a % d && 0 <= a % d < d) by {
        vstd::arithmetic::div_mod::lemma_fundamental_div_mod(a, d);
        vstd::arithmetic::div_mod::lemma_mod_bound(a, d);
    }
    if q < lo {
        assert(d * q + d <= d * lo);
    }
    if q > hi {
        assert(d * q >= d * hi + d);
    }
}

/// Division rounding toward negative infinity, for a positive divisor.
pub fn floor_div(a: i128, d: i128) -> (q: i128)
    requires
        d > 0,
    ensures
        q == a as int / d as int,
{
    if a >= 0 {
        a / d
    } else {
        // For negative `a`, round (-a - 1) / d down and mirror it.
        let m: i128 = -(a + 1);
        let t: i128 = m / d;
        let q: i128 = -t - 1;
        proof {
            let r = m as int % d as int;
            vstd::arithmetic::div_mod::lemma_fundamental_div_mod(m as int, d as int);
            vstd::arithmetic::div_mod::lemma_mod_bound(m as int, d as int);
            assert(m == d * t + r);
            assert(d * t == t * d) by (nonlinear_arith);
            assert(q * d == -(t * d) - d) by (nonlinear_arith)
                requires
                    q == -t - 1,
            ;
            lemma_floor_div_unique(a as int, d as int, q as int);
        }
        q
    }
}

} // verus!

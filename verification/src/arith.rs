//! Whole-number arithmetic shared by the curve and the layout.

use vstd::prelude::*;
use vstd::arithmetic::div_mod::*;

verus! {

/// The smaller of two numbers.
pub open spec fn min_int(a: int, b: int) -> int {
    if a <= b {
        a
    } else {
        b
    }
}

/// `x`, or the nearer bound where `x` lies outside `lo..=hi`.
pub open spec fn clamp_int(x: int, lo: int, hi: int) -> int {
    if x < lo {
        lo
    } else if x > hi {
        hi
    } else {
        x
    }
}

/// Largest magnitude that the division takes: 2 to the power 62.
pub(crate) const DIV_LIMIT: i64 = 0x4000_0000_0000_0000;

/// The smaller of two numbers.
pub(crate) fn min_i64(a: i64, b: i64) -> (m: i64)
    ensures
        m == min_int(a as int, b as int),
{
    if a <= b {
        a
    } else {
        b
    }
}

/// `x` cut to `lo..=hi`.
pub(crate) fn clamp_i64(x: i64, lo: i64, hi: i64) -> (c: i64)
    ensures
        c == clamp_int(x as int, lo as int, hi as int),
{
    if x < lo {
        lo
    } else if x > hi {
        hi
    } else {
        x
    }
}

/// The quotient of `a` by `b`, rounded down also where `a` is negative.
pub(crate) fn floor_div(a: i64, b: i64) -> (q: i64)
    requires
        0 < b < DIV_LIMIT,
        -DIV_LIMIT < a < DIV_LIMIT,
    ensures
        q == a as int / b as int,
{
    if a >= 0 {
        a / b
    } else {
        let up: i64 = (b - 1 - a) / b;
        proof {
            let n = b - 1 - a;
            lemma_fundamental_div_mod(n, b as int);
            lemma_mod_bound(n, b as int);
            let r = b - 1 - n % (b as int);
            assert(a == (-up) * b + r) by (nonlinear_arith)
                requires
                    n == b * up + n % (b as int),
                    n == b - 1 - a,
                    r == b - 1 - n % (b as int),
            ;
            lemma_fundamental_div_mod_converse(a as int, b as int, -up, r);
        }
        -up
    }
}

} // verus!

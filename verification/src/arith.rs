//! Integer division as the operations need it: toward zero and downward.

use vstd::arithmetic::div_mod::lemma_fundamental_div_mod_converse;
use vstd::prelude::*;

verus! {

/// The quotient of `a` by `b` rounded toward zero.
pub open spec fn truncated_quotient(a: int, b: int) -> int {
    let q = magnitude(a) / magnitude(b);
    if (a < 0) == (b < 0) {
        q
    } else {
        -q
    }
}

/// The absolute value of `a`.
pub open spec fn magnitude(a: int) -> int {
    if a < 0 {
        -a
    } else {
        a
    }
}

/// Divides toward zero.
pub(crate) fn quotient(a: i64, b: i64) -> (q: i64)
    requires
        b != 0,
        -0x1_0000_0000_0000 < a < 0x1_0000_0000_0000,
    ensures
        q as int == truncated_quotient(a as int, b as int),
{
    let na: i128 = if a < 0 {
        -(a as i128)
    } else {
        a as i128
    };
    let nb: i128 = if b < 0 {
        -(b as i128)
    } else {
        b as i128
    };
    let q: i128 = na / nb;
    assert(0 <= q <= na) by (nonlinear_arith)
        requires
            q == na / nb,
            na >= 0,
            nb >= 1,
    ;
    if (a < 0) == (b < 0) {
        q as i64
    } else {
        -(q as i64)
    }
}

/// Divides by a positive unit, rounding down.
pub(crate) fn floor_div(n: i128, unit: u32) -> (q: i128)
    requires
        unit > 0,
        -0x1_0000_0000_0000_0000_0000_0000_0000 < n < 0x1_0000_0000_0000_0000_0000_0000_0000,
    ensures
        q as int == (n as int) / (unit as int),
        -0x2_0000_0000_0000_0000_0000_0000_0000 <= q <= 0x2_0000_0000_0000_0000_0000_0000_0000,
{
    let u: i128 = unit as i128;
    if n >= 0 {
        let q: i128 = n / u;
        assert(0 <= q <= n) by (nonlinear_arith)
            requires
                q as int == (n as int) / (u as int),
                n >= 0,
                u >= 1,
        ;
        q
    } else {
        let k: i128 = (-n + u - 1) / u;
        proof {
            let up = -n + u - 1;
            assert(0 <= k <= up && k * u <= up < (k + 1) * u) by (nonlinear_arith)
                requires
                    k as int == up / (u as int),
                    up >= 0,
                    u >= 1,
            ;
            assert((-k) * u + (n + k * u) == n) by (nonlinear_arith);
            assert(k * u + u == (k + 1) * u) by (nonlinear_arith);
            lemma_fundamental_div_mod_converse(n as int, u as int, -k, n + k * u);
        }
        -k
    }
}

} // verus!

//! Weighted sums over a window: the averaging and Gaussian filters.

use crate::arith::{quotient, truncated_quotient};
use crate::color::{clamp_channel, clamp_to_channel, Color};
use crate::window::{weight_at, weights, FilterMatrix};
use vstd::prelude::*;

verus! {

/// One channel of a sample: 0 for red, 1 for green, anything else for blue.
pub open spec fn channel(c: Color, which: int) -> int {
    if which == 0 {
        c.r as int
    } else if which == 1 {
        c.g as int
    } else {
        c.b as int
    }
}

/// The sum of the first `n` products of a window's channel with the weights.
pub open spec fn weighted_sum(win: Seq<Color>, w: Seq<int>, which: int, n: nat) -> int
    decreases n,
{
    if n == 0 {
        0
    } else {
        weighted_sum(win, w, which, (n - 1) as nat) + channel(win[n - 1], which) * w[n - 1]
    }
}

/// The sum of the first `n` weights.
pub open spec fn weight_total(w: Seq<int>, n: nat) -> int
    decreases n,
{
    if n == 0 {
        0
    } else {
        weight_total(w, (n - 1) as nat) + w[n - 1]
    }
}

/// The sample that a weighted filter gives for a window: each channel is the
/// weighted sum of that channel over the nine samples, divided by `divisor`
/// toward zero and limited to the channel range.
pub open spec fn convolved(win: Seq<Color>, k: FilterMatrix, divisor: int) -> Color {
    Color {
        r: clamp_channel(truncated_quotient(weighted_sum(win, weights(k), 0, 9), divisor)) as u8,
        g: clamp_channel(truncated_quotient(weighted_sum(win, weights(k), 1, 9), divisor)) as u8,
        b: clamp_channel(truncated_quotient(weighted_sum(win, weights(k), 2, 9), divisor)) as u8,
    }
}

/// The sum of the nine weights of a filter matrix.
pub fn sum_filter_matrix(matrix: &FilterMatrix) -> (sum: i64)
    ensures
        sum as int == weight_total(weights(*matrix), 9),
{
    let mut sum: i64 = 0;
    let mut n: usize = 0;
    while n < 9
        invariant
            n <= 9,
            sum as int == weight_total(weights(*matrix), n as nat),
            -0x8000_0000 * n <= sum <= 0x8000_0000 * n,
        decreases 9 - n,
    {
        let v: i32 = weight_at(matrix, n);
        sum = sum + v as i64;
        n = n + 1;
    }
    sum
}

/// The three per-channel weighted sums of a window.
pub fn window_sums(win: &Vec<Color>, k: &FilterMatrix) -> (sums: (i64, i64, i64))
    requires
        win@.len() == 9,
    ensures
        sums.0 as int == weighted_sum(win@, weights(*k), 0, 9),
        sums.1 as int == weighted_sum(win@, weights(*k), 1, 9),
        sums.2 as int == weighted_sum(win@, weights(*k), 2, 9),
        -0x1_0000_0000_0000 < sums.0 < 0x1_0000_0000_0000,
        -0x1_0000_0000_0000 < sums.1 < 0x1_0000_0000_0000,
        -0x1_0000_0000_0000 < sums.2 < 0x1_0000_0000_0000,
{
    let mut r_sum: i64 = 0;
    let mut g_sum: i64 = 0;
    let mut b_sum: i64 = 0;
    let mut n: usize = 0;
    while n < 9
        invariant
            n <= 9,
            win@.len() == 9,
            r_sum as int == weighted_sum(win@, weights(*k), 0, n as nat),
            g_sum as int == weighted_sum(win@, weights(*k), 1, n as nat),
            b_sum as int == weighted_sum(win@, weights(*k), 2, n as nat),
            -0x80_0000_0000 * n <= r_sum <= 0x80_0000_0000 * n,
            -0x80_0000_0000 * n <= g_sum <= 0x80_0000_0000 * n,
            -0x80_0000_0000 * n <= b_sum <= 0x80_0000_0000 * n,
        decreases 9 - n,
    {
        let c: Color = win[n];
        let w: i64 = weight_at(k, n) as i64;
        assert(-0x80_0000_0000 <= c.r * w <= 0x80_0000_0000 && -0x80_0000_0000 <= c.g * w
            <= 0x80_0000_0000 && -0x80_0000_0000 <= c.b * w <= 0x80_0000_0000) by (nonlinear_arith)
            requires
                -0x8000_0000 <= w <= 0x8000_0000,
                0 <= c.r <= 255,
                0 <= c.g <= 255,
                0 <= c.b <= 255,
        ;
        r_sum = r_sum + c.r as i64 * w;
        g_sum = g_sum + c.g as i64 * w;
        b_sum = b_sum + c.b as i64 * w;
        n = n + 1;
    }
    (r_sum, g_sum, b_sum)
}

/// Applies a weighted filter to a window.
pub fn convolve(win: &Vec<Color>, k: &FilterMatrix, divisor: i64) -> (c: Color)
    requires
        win@.len() == 9,
        divisor != 0,
    ensures
        c == convolved(win@, *k, divisor as int),
{
    let sums: (i64, i64, i64) = window_sums(win, k);
    Color {
        r: clamp_to_channel(quotient(sums.0, divisor)),
        g: clamp_to_channel(quotient(sums.1, divisor)),
        b: clamp_to_channel(quotient(sums.2, divisor)),
    }
}

/// Over samples that are all the same, a weighted sum is the channel times
/// the sum of the weights.
pub proof fn lemma_weighted_sum_uniform(win: Seq<Color>, w: Seq<int>, which: int, c: Color, n: nat)
    requires
        n <= win.len(),
        forall|k: int| 0 <= k < n ==> #[trigger] win[k] == c,
    ensures
        weighted_sum(win, w, which, n) == channel(c, which) * weight_total(w, n),
    decreases n,
{
    if n > 0 {
        lemma_weighted_sum_uniform(win, w, which, c, (n - 1) as nat);
        let v = channel(c, which);
        let t = weight_total(w, (n - 1) as nat);
        let last = w[n - 1];
        assert(v * (t + last) == v * t + v * last) by (nonlinear_arith);
    } else {
        assert(channel(c, which) * 0 == 0) by (nonlinear_arith);
    }
}

/// A weighted filter that divides by the sum of its weights gives back the
/// sample of a window whose nine samples are the same, when that sum is
/// positive.
pub proof fn lemma_convolved_uniform(win: Seq<Color>, k: FilterMatrix, c: Color)
    requires
        win.len() == 9,
        forall|n: int| 0 <= n < 9 ==> #[trigger] win[n] == c,
        weight_total(weights(k), 9) > 0,
    ensures
        convolved(win, k, weight_total(weights(k), 9)) == c,
{
    let total = weight_total(weights(k), 9);
    assert forall|which: int| 0 <= which < 3 implies clamp_channel(
        truncated_quotient(#[trigger] weighted_sum(win, weights(k), which, 9), total),
    ) == channel(c, which) by {
        let v = channel(c, which);
        lemma_weighted_sum_uniform(win, weights(k), which, c, 9);
        assert(v * total >= 0) by (nonlinear_arith)
            requires
                v >= 0,
                total > 0,
        ;
        assert(v * total == total * v) by (nonlinear_arith);
        vstd::arithmetic::div_mod::lemma_div_multiples_vanish(v, total);
    }
    assert(channel(c, 0) == c.r && channel(c, 1) == c.g && channel(c, 2) == c.b);
}

/// With weights that are not negative, a weighted sum lies between zero and
/// 255 times the sum of the weights.
pub proof fn lemma_weighted_sum_bounds(win: Seq<Color>, w: Seq<int>, which: int, n: nat)
    requires
        n <= win.len(),
        n <= w.len(),
        forall|k: int| 0 <= k < n ==> #[trigger] w[k] >= 0,
    ensures
        0 <= weight_total(w, n),
        0 <= weighted_sum(win, w, which, n) <= 255 * weight_total(w, n),
    decreases n,
{
    if n > 0 {
        lemma_weighted_sum_bounds(win, w, which, (n - 1) as nat);
        let v = channel(win[n - 1], which);
        let last = w[n - 1];
        assert(0 <= v * last <= 255 * last) by (nonlinear_arith)
            requires
                0 <= v <= 255,
                0 <= last,
        ;
    }
}

/// A weighted filter never has to limit its result when no weight is
/// negative and the divisor is the sum of the weights: the quotient is a
/// channel value already.
pub proof fn lemma_weighted_mean_in_range(win: Seq<Color>, k: FilterMatrix, which: int)
    requires
        win.len() == 9,
        forall|n: int| 0 <= n < 9 ==> #[trigger] weights(k)[n] >= 0,
        weight_total(weights(k), 9) > 0,
    ensures
        0 <= truncated_quotient(
            weighted_sum(win, weights(k), which, 9),
            weight_total(weights(k), 9),
        ) <= 255,
{
    let total = weight_total(weights(k), 9);
    let sum = weighted_sum(win, weights(k), which, 9);
    lemma_weighted_sum_bounds(win, weights(k), which, 9);
    vstd::arithmetic::div_mod::lemma_div_pos_is_pos(sum, total);
    vstd::arithmetic::div_mod::lemma_div_is_ordered(sum, 255 * total, total);
    assert(255 * total == total * 255) by (nonlinear_arith);
    vstd::arithmetic::div_mod::lemma_div_multiples_vanish(255, total);
}

} // verus!

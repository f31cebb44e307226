//! Border detection: a one-direction gradient, its magnitude and a cut-off.

use crate::color::Color;
use crate::convolve::{channel, weighted_sum, window_sums};
use crate::window::{weights, FilterMatrix};
use vstd::prelude::*;

verus! {

/// Whether `r` is the square root of `n` rounded down.
pub open spec fn is_int_sqrt(n: int, r: int) -> bool {
    0 <= r && r * r <= n < (r + 1) * (r + 1)
}

/// The square root of `n` rounded down.
pub open spec fn int_sqrt(n: int) -> int {
    choose|r: int| is_int_sqrt(n, r)
}

/// The magnitude of the gradient vector `(g, g)`, rounded down: the same
/// directional difference counts for both components.
pub open spec fn gradient_magnitude(g: int) -> int {
    int_sqrt(g * g + g * g)
}

/// The difference kernel: the sample to the right of the centre minus the
/// sample below it.
pub open spec fn difference_kernel() -> FilterMatrix {
    [[0, 0, 0], [0, 0, -1i32], [0, 1, 0]]
}

/// One channel of the border detector's output.
pub open spec fn edge_channel(win: Seq<Color>, which: int, threshold: int) -> u8 {
    if gradient_magnitude(weighted_sum(win, weights(difference_kernel()), which, 9)) > threshold {
        255
    } else {
        0
    }
}

/// The sample that border detection gives for a window: each channel is 255
/// where the gradient magnitude of that channel is above the threshold, and 0
/// elsewhere.
pub open spec fn edge_detected(win: Seq<Color>, threshold: int) -> Color {
    Color {
        r: edge_channel(win, 0, threshold),
        g: edge_channel(win, 1, threshold),
        b: edge_channel(win, 2, threshold),
    }
}

proof fn lemma_square_monotonic(a: int, b: int)
    requires
        0 <= a <= b,
    ensures
        a * a <= b * b,
{
    assert(a * a <= b * b) by (nonlinear_arith)
        requires
            0 <= a <= b,
    ;
}

/// Every natural number has a rounded-down square root.
pub proof fn lemma_int_sqrt_exists(n: int)
    requires
        0 <= n,
    ensures
        is_int_sqrt(n, int_sqrt(n)),
    decreases n,
{
    if n == 0 {
        assert(is_int_sqrt(0, 0));
    } else {
        lemma_int_sqrt_exists(n - 1);
        let r = int_sqrt(n - 1);
        if (r + 1) * (r + 1) <= n {
            assert((r + 2) * (r + 2) > (r + 1) * (r + 1)) by (nonlinear_arith)
                requires
                    0 <= r,
            ;
            assert(is_int_sqrt(n, r + 1));
        } else {
            assert(is_int_sqrt(n, r));
        }
    }
}

/// The rounded-down root of `n` is above `t` exactly when `n` reaches the
/// square of `t + 1`.
pub proof fn lemma_int_sqrt_above(n: int, t: int)
    requires
        0 <= n,
        0 <= t,
    ensures
        int_sqrt(n) > t <==> n >= (t + 1) * (t + 1),
{
    lemma_int_sqrt_exists(n);
    let r = int_sqrt(n);
    if r > t {
        lemma_square_monotonic(t + 1, r);
    } else {
        lemma_square_monotonic(r + 1, t + 1);
    }
}

/// Whether the gradient magnitude of the directional difference `g` is above
/// the threshold.
pub fn is_edge(g: i64, threshold: u32) -> (above: bool)
    requires
        -0x1_0000_0000_0000 < g < 0x1_0000_0000_0000,
    ensures
        above == (gradient_magnitude(g as int) > threshold),
{
    let wide: i128 = g as i128;
    assert(0 <= wide * wide < 0x1_0000_0000_0000_0000_0000_0000) by (nonlinear_arith)
        requires
            -0x1_0000_0000_0000 < wide < 0x1_0000_0000_0000,
    ;
    let square: i128 = wide * wide;
    let bound: i128 = threshold as i128 + 1;
    assert(0 <= bound * bound <= 0x1_0000_0000 * 0x1_0000_0000) by (nonlinear_arith)
        requires
            1 <= bound <= 0x1_0000_0000,
    ;
    proof {
        lemma_int_sqrt_above(g * g + g * g, threshold as int);
    }
    square + square >= bound * bound
}

/// Applies border detection to a window.
pub fn detect_edge(win: &Vec<Color>, threshold: u32) -> (c: Color)
    requires
        win@.len() == 9,
    ensures
        c == edge_detected(win@, threshold as int),
{
    let k: FilterMatrix = [[0, 0, 0], [0, 0, -1], [0, 1, 0]];
    let g: (i64, i64, i64) = window_sums(win, &k);
    Color {
        r: if is_edge(g.0, threshold) {
            255
        } else {
            0
        },
        g: if is_edge(g.1, threshold) {
            255
        } else {
            0
        },
        b: if is_edge(g.2, threshold) {
            255
        } else {
            0
        },
    }
}

/// The gradient of a window is the channel of the sample to the right of the
/// centre minus the channel of the sample below the centre.
pub proof fn lemma_gradient_is_difference(win: Seq<Color>, which: int)
    requires
        win.len() == 9,
    ensures
        weighted_sum(win, weights(difference_kernel()), which, 9) == channel(win[7], which)
            - channel(win[5], which),
{
    let w = weights(difference_kernel());
    assert(w[0] == 0 && w[1] == 0 && w[2] == 0 && w[3] == 0 && w[4] == 0 && w[5] == -1 && w[6] == 0
        && w[7] == 1 && w[8] == 0);
    assert forall|k: int| 0 <= k < 9 implies #[trigger] (channel(win[k], which) * w[k]) == (if k
        == 5 {
        -channel(win[5], which)
    } else if k == 7 {
        channel(win[7], which)
    } else {
        0
    }) by {
        let v = channel(win[k], which);
        let wk = w[k];
        assert(wk == 0 ==> v * wk == 0) by (nonlinear_arith);
        assert(wk == 1 ==> v * wk == v) by (nonlinear_arith);
        assert(wk == -1 ==> v * wk == -v) by (nonlinear_arith);
    }
    assert(weighted_sum(win, w, which, 0) == 0);
    assert(weighted_sum(win, w, which, 1) == 0);
    assert(weighted_sum(win, w, which, 2) == 0);
    assert(weighted_sum(win, w, which, 3) == 0);
    assert(weighted_sum(win, w, which, 4) == 0);
    assert(weighted_sum(win, w, which, 5) == 0);
    assert(weighted_sum(win, w, which, 6) == -channel(win[5], which));
    assert(weighted_sum(win, w, which, 7) == -channel(win[5], which));
    assert(weighted_sum(win, w, which, 8) == channel(win[7], which) - channel(win[5], which));
}

/// With the threshold zero, a channel of the output is 255 exactly where the
/// two samples that the gradient compares differ in that channel.
pub proof fn lemma_edge_at_zero(win: Seq<Color>, which: int)
    requires
        win.len() == 9,
    ensures
        edge_channel(win, which, 0) == 255 <==> channel(win[7], which) != channel(win[5], which),
        edge_channel(win, which, 0) == 0 <==> channel(win[7], which) == channel(win[5], which),
{
    lemma_gradient_is_difference(win, which);
    let g = channel(win[7], which) - channel(win[5], which);
    assert(g * g >= 0) by (nonlinear_arith);
    assert(g != 0 ==> g * g >= 1) by (nonlinear_arith);
    assert(g == 0 ==> g * g == 0) by (nonlinear_arith);
    lemma_int_sqrt_above(g * g + g * g, 0);
}

} // verus!

//! Gray-level dilation and erosion of a window by a structuring kernel.

use crate::color::{clamp_channel, gray, Color};
use crate::window::{weight_at, weights, FilterMatrix};
use vstd::prelude::*;

verus! {

/// The nine candidates of a dilation: each gray level raised by its weight
/// and limited to the channel range.
pub open spec fn dilation_terms(win: Seq<Color>, mask: FilterMatrix) -> Seq<int> {
    Seq::new(9, |k: int| clamp_channel(win[k].level() + weights(mask)[k]))
}

/// The nine candidates of an erosion: each gray level lowered by its weight
/// and limited to the channel range.
pub open spec fn erosion_terms(win: Seq<Color>, mask: FilterMatrix) -> Seq<int> {
    Seq::new(9, |k: int| clamp_channel(win[k].level() - weights(mask)[k]))
}

/// The gray sample that dilation gives for a window: the largest candidate.
pub open spec fn dilated(win: Seq<Color>, mask: FilterMatrix) -> Color {
    gray(dilation_terms(win, mask).max() as u8)
}

/// The gray sample that erosion gives for a window: the smallest candidate.
pub open spec fn eroded(win: Seq<Color>, mask: FilterMatrix) -> Color {
    gray(erosion_terms(win, mask).min() as u8)
}

/// A value that is an entry of `s` and bounds every entry from above is the
/// maximum of `s`.
pub proof fn lemma_is_max(s: Seq<int>, v: int, at: int)
    requires
        0 <= at < s.len(),
        s[at] == v,
        forall|k: int| 0 <= k < s.len() ==> s[k] <= v,
    ensures
        s.max() == v,
{
    s.max_ensures();
    let m = s.max();
    assert(s.contains(m));
    let j = choose|j: int| 0 <= j < s.len() && s[j] == m;
    assert(s[j] <= v);
    assert(s[at] <= m);
}

/// A value that is an entry of `s` and bounds every entry from below is the
/// minimum of `s`.
pub proof fn lemma_is_min(s: Seq<int>, v: int, at: int)
    requires
        0 <= at < s.len(),
        s[at] == v,
        forall|k: int| 0 <= k < s.len() ==> v <= s[k],
    ensures
        s.min() == v,
{
    s.min_ensures();
    let m = s.min();
    assert(s.contains(m));
    let j = choose|j: int| 0 <= j < s.len() && s[j] == m;
    assert(v <= s[j]);
    assert(m <= s[at]);
}

/// Applies dilation to a window.
pub fn dilate(win: &Vec<Color>, mask: &FilterMatrix) -> (c: Color)
    requires
        win@.len() == 9,
    ensures
        c == dilated(win@, *mask),
{
    let ghost terms = dilation_terms(win@, *mask);
    let mut value: u8 = 0;
    let ghost mut at: int = 0;
    let mut k: usize = 0;
    while k < 9
        invariant
            k <= 9,
            win@.len() == 9,
            terms == dilation_terms(win@, *mask),
            forall|n: int| 0 <= n < k ==> terms[n] <= value,
            k == 0 ==> value == 0,
            k > 0 ==> 0 <= at < k && terms[at] == value,
        decreases 9 - k,
    {
        let level: i64 = win[k].gray_level() as i64;
        let mut pixel_value: i64 = level + weight_at(mask, k) as i64;
        if pixel_value > 255 {
            pixel_value = 255;
        }
        if pixel_value > value as i64 {
            value = pixel_value as u8;
            proof {
                at = k as int;
            }
        } else if k == 0 {
            proof {
                at = 0;
            }
        }
        assert(terms[k as int] == clamp_channel(level + weights(*mask)[k as int]));
        k = k + 1;
    }
    proof {
        lemma_is_max(terms, value as int, at);
    }
    Color::gray(value)
}

/// Applies erosion to a window.
pub fn erode(win: &Vec<Color>, mask: &FilterMatrix) -> (c: Color)
    requires
        win@.len() == 9,
    ensures
        c == eroded(win@, *mask),
{
    let ghost terms = erosion_terms(win@, *mask);
    let mut value: u8 = 255;
    let ghost mut at: int = 0;
    let mut k: usize = 0;
    while k < 9
        invariant
            k <= 9,
            win@.len() == 9,
            terms == erosion_terms(win@, *mask),
            forall|n: int| 0 <= n < k ==> value <= terms[n],
            k == 0 ==> value == 255,
            k > 0 ==> 0 <= at < k && terms[at] == value,
        decreases 9 - k,
    {
        let level: i64 = win[k].gray_level() as i64;
        let mut pixel_value: i64 = level - weight_at(mask, k) as i64;
        if pixel_value < 0 {
            pixel_value = 0;
        }
        if pixel_value < value as i64 {
            value = pixel_value as u8;
            proof {
                at = k as int;
            }
        } else if k == 0 {
            proof {
                at = 0;
            }
        }
        assert(terms[k as int] == clamp_channel(level - weights(*mask)[k as int]));
        k = k + 1;
    }
    proof {
        lemma_is_min(terms, value as int, at);
    }
    Color::gray(value)
}

/// The structuring kernel that changes no gray level.
pub open spec fn zero_kernel() -> FilterMatrix {
    [[0, 0, 0], [0, 0, 0], [0, 0, 0]]
}

/// Whether no weight of the kernel is negative.
pub open spec fn is_non_negative(mask: FilterMatrix) -> bool {
    forall|k: int| 0 <= k < 9 ==> #[trigger] weights(mask)[k] >= 0
}

/// With a kernel that has no negative weight, dilation gives at least what
/// erosion gives for the same window.
pub proof fn lemma_dilated_above_eroded(win: Seq<Color>, mask: FilterMatrix)
    requires
        win.len() == 9,
        is_non_negative(mask),
    ensures
        dilated(win, mask).r >= eroded(win, mask).r,
        dilated(win, mask).level() >= eroded(win, mask).level(),
{
    let up = dilation_terms(win, mask);
    let down = erosion_terms(win, mask);
    up.max_ensures();
    down.min_ensures();
    assert(weights(mask)[4] >= 0);
    assert(down.min() <= down[4]);
    assert(up[4] <= up.max());
    assert(up.contains(up.max()));
    assert(down.contains(down.min()));
}

/// With the zero kernel, dilation of a window whose nine samples have one
/// gray level gives the gray sample of that level.
pub proof fn lemma_dilated_uniform(win: Seq<Color>, v: u8)
    requires
        win.len() == 9,
        forall|k: int| 0 <= k < 9 ==> (#[trigger] win[k]).level() == v,
    ensures
        dilated(win, zero_kernel()) == gray(v),
{
    let terms = dilation_terms(win, zero_kernel());
    assert forall|k: int| 0 <= k < 9 implies terms[k] == v by {
        assert(weights(zero_kernel())[k] == 0);
    }
    lemma_is_max(terms, v as int, 0);
}

/// With the zero kernel, erosion of a window gives the gray sample of the
/// centre's gray level when no other sample of the window is darker.
pub proof fn lemma_eroded_to_centre(win: Seq<Color>)
    requires
        win.len() == 9,
        forall|k: int| 0 <= k < 9 ==> (#[trigger] win[k]).level() >= win[4].level(),
    ensures
        eroded(win, zero_kernel()) == gray(win[4].level()),
{
    let terms = erosion_terms(win, zero_kernel());
    assert forall|k: int| 0 <= k < 9 implies terms[k] == win[k].level() by {
        assert(weights(zero_kernel())[k] == 0);
    }
    lemma_is_min(terms, win[4].level() as int, 4);
}

} // verus!

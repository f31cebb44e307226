//! Order statistics of a window's gray levels: the mode and the median.

use crate::color::{levels_of, Color};
use vstd::prelude::*;
use vstd::relations::{sorted_by, total_ordering};
use vstd::seq_lib::{
    lemma_sorted_unique, to_multiset_build, to_multiset_insert, to_multiset_len,
};

verus! {

/// How many of the first `n` entries of `s` equal `v`.
pub open spec fn occurrences(s: Seq<u8>, v: u8, n: nat) -> nat
    decreases n,
{
    if n == 0 {
        0
    } else {
        occurrences(s, v, (n - 1) as nat) + if s[n - 1] == v {
            1nat
        } else {
            0nat
        }
    }
}

/// How many entries of `s` equal `v`.
pub open spec fn count(s: Seq<u8>, v: u8) -> nat {
    occurrences(s, v, s.len())
}

/// Whether `k` is the first position of `s` whose value occurs most often.
pub open spec fn is_mode_index(s: Seq<u8>, k: int) -> bool {
    &&& 0 <= k < s.len()
    &&& forall|j: int| 0 <= j < s.len() ==> count(s, #[trigger] s[j]) <= count(s, s[k])
    &&& forall|j: int| 0 <= j < k ==> count(s, #[trigger] s[j]) < count(s, s[k])
}

/// The first position of `s` whose value occurs most often.
pub open spec fn mode_index(s: Seq<u8>) -> int {
    choose|k: int| is_mode_index(s, k)
}

/// The sample that the mode filter gives for a window: the first sample, in
/// scan order, whose gray level occurs most often in the window.
pub open spec fn mode_sample(win: Seq<Color>) -> Color {
    win[mode_index(levels_of(win))]
}

/// Whether `k` is the first position of `s` that holds `v`.
pub open spec fn is_first_index(s: Seq<u8>, v: u8, k: int) -> bool {
    &&& 0 <= k < s.len()
    &&& s[k] == v
    &&& forall|j: int| 0 <= j < k ==> s[j] != v
}

/// The first position of `s` that holds `v`.
pub open spec fn first_index(s: Seq<u8>, v: u8) -> int {
    choose|k: int| is_first_index(s, v, k)
}

/// The ascending order of gray levels.
pub open spec fn ascending() -> spec_fn(u8, u8) -> bool {
    |a: u8, b: u8| a <= b
}

/// The median of nine gray levels: the fifth in ascending order.
pub open spec fn median_level(s: Seq<u8>) -> u8 {
    s.sort_by(ascending())[4]
}

/// The sample that the median filter gives for a window: the first sample,
/// in scan order, whose gray level is the median of the nine.
pub open spec fn median_sample(win: Seq<Color>) -> Color {
    win[first_index(levels_of(win), median_level(levels_of(win)))]
}

/// No two positions are both the first with a most frequent value.
pub proof fn lemma_mode_index_unique(s: Seq<u8>, k: int)
    requires
        is_mode_index(s, k),
    ensures
        mode_index(s) == k,
{
    let m = mode_index(s);
    assert(is_mode_index(s, m));
    if m < k {
        assert(count(s, s[m]) < count(s, s[k]));
        assert(count(s, s[k]) <= count(s, s[m]));
    } else if k < m {
        assert(count(s, s[k]) < count(s, s[m]));
        assert(count(s, s[m]) <= count(s, s[k]));
    }
}

/// Among the first `n` entries there is a first position whose value occurs
/// at least as often as every value among them.
proof fn lemma_mode_in_prefix(s: Seq<u8>, n: int) -> (k: int)
    requires
        1 <= n <= s.len(),
    ensures
        0 <= k < n,
        forall|j: int| 0 <= j < n ==> count(s, #[trigger] s[j]) <= count(s, s[k]),
        forall|j: int| 0 <= j < k ==> count(s, #[trigger] s[j]) < count(s, s[k]),
    decreases n,
{
    if n == 1 {
        0
    } else {
        let before = lemma_mode_in_prefix(s, n - 1);
        if count(s, s[n - 1]) > count(s, s[before]) {
            n - 1
        } else {
            before
        }
    }
}

/// Every sequence that is not empty has a first position whose value occurs
/// most often.
pub proof fn lemma_mode_index_exists(s: Seq<u8>)
    requires
        s.len() > 0,
    ensures
        is_mode_index(s, mode_index(s)),
{
    let k = lemma_mode_in_prefix(s, s.len() as int);
    assert(is_mode_index(s, k));
}

/// Sorting keeps the length and the values of a sequence of gray levels and
/// puts them in ascending order.
pub proof fn lemma_sorted_levels(s: Seq<u8>)
    ensures
        s.sort_by(ascending()).len() == s.len(),
        s.sort_by(ascending()).to_multiset() == s.to_multiset(),
        forall|i: int, j: int|
            0 <= i < j < s.len() ==> #[trigger] s.sort_by(ascending())[i] <= #[trigger] s.sort_by(
                ascending(),
            )[j],
        forall|i: int| 0 <= i < s.len() ==> s.contains(#[trigger] s.sort_by(ascending())[i]),
{
    let sorted = s.sort_by(ascending());
    assert(total_ordering(ascending()));
    s.lemma_sort_by_ensures(ascending());
    to_multiset_len(s);
    to_multiset_len(sorted);
    assert forall|i: int, j: int| 0 <= i < j < s.len() implies #[trigger] sorted[i]
        <= #[trigger] sorted[j] by {
        assert(ascending()(sorted[i], sorted[j]));
    }
    assert forall|i: int| 0 <= i < s.len() implies s.contains(#[trigger] sorted[i]) by {
        assert(sorted.contains(sorted[i]));
    }
}

/// The median of nine gray levels is one of them, so that there is a first
/// position that holds it.
pub proof fn lemma_median_is_present(s: Seq<u8>)
    requires
        s.len() == 9,
    ensures
        s.contains(median_level(s)),
        is_first_index(s, median_level(s), first_index(s, median_level(s))),
{
    lemma_sorted_levels(s);
    let v = median_level(s);
    assert(s.contains(v));
    let k = lemma_first_in_prefix(s, v, 9);
    assert(is_first_index(s, v, k));
}

/// A value that occurs among the first `n` entries has a first position.
proof fn lemma_first_in_prefix(s: Seq<u8>, v: u8, n: int) -> (k: int)
    requires
        0 <= n <= s.len(),
        exists|j: int| 0 <= j < n && s[j] == v,
    ensures
        0 <= k < n,
        s[k] == v,
        forall|j: int| 0 <= j < k ==> s[j] != v,
    decreases n,
{
    if exists|j: int| 0 <= j < n - 1 && s[j] == v {
        lemma_first_in_prefix(s, v, n - 1)
    } else {
        n - 1
    }
}

/// No two positions are both the first to hold `v`.
pub proof fn lemma_first_index_unique(s: Seq<u8>, v: u8, k: int)
    requires
        is_first_index(s, v, k),
    ensures
        first_index(s, v) == k,
{
    let m = first_index(s, v);
    assert(is_first_index(s, v, m));
}

/// A value at a position below `n` occurs at least once among the first `n`.
pub proof fn lemma_present_occurs(s: Seq<u8>, at: int, n: nat)
    requires
        0 <= at < n <= s.len(),
    ensures
        occurrences(s, s[at], n) >= 1,
    decreases n,
{
    if at < n - 1 {
        lemma_present_occurs(s, at, (n - 1) as nat);
    }
}

/// The gray levels of the samples, in order.
pub fn gray_levels(win: &Vec<Color>) -> (levels: Vec<u8>)
    ensures
        levels@ == levels_of(win@),
{
    let mut levels: Vec<u8> = Vec::new();
    let mut k: usize = 0;
    while k < win.len()
        invariant
            k <= win@.len(),
            levels@.len() == k,
            forall|n: int| 0 <= n < k ==> #[trigger] levels@[n] == win@[n].level(),
        decreases win@.len() - k,
    {
        levels.push(win[k].gray_level());
        k = k + 1;
    }
    assert(levels@ =~= levels_of(win@));
    levels
}

/// Counts the entries equal to `v`.
pub fn count_level(levels: &Vec<u8>, v: u8) -> (n: usize)
    ensures
        n == count(levels@, v),
{
    let mut n: usize = 0;
    let mut k: usize = 0;
    while k < levels.len()
        invariant
            k <= levels@.len(),
            n == occurrences(levels@, v, k as nat),
            n <= k,
        decreases levels@.len() - k,
    {
        if levels[k] == v {
            n = n + 1;
        }
        k = k + 1;
    }
    n
}

/// Picks the representative of the most frequent gray level of a window.
pub fn find_mode(win: &Vec<Color>) -> (c: Color)
    requires
        win@.len() == 9,
    ensures
        c == mode_sample(win@),
{
    let levels: Vec<u8> = gray_levels(win);
    let mut best: usize = 0;
    let mut best_count: usize = 0;
    let mut k: usize = 0;
    while k < 9
        invariant
            k <= 9,
            levels@.len() == 9,
            k == 0 ==> best == 0 && best_count == 0,
            k > 0 ==> best < k && best_count == count(levels@, levels@[best as int]),
            forall|j: int| 0 <= j < k ==> count(levels@, #[trigger] levels@[j]) <= best_count,
            forall|j: int| 0 <= j < best ==> count(levels@, #[trigger] levels@[j]) < best_count,
        decreases 9 - k,
    {
        let n: usize = count_level(&levels, levels[k]);
        proof {
            lemma_present_occurs(levels@, k as int, 9);
        }
        if n > best_count {
            best = k;
            best_count = n;
        }
        k = k + 1;
    }
    proof {
        lemma_mode_index_unique(levels@, best as int);
    }
    win[best]
}

/// Sorts gray levels into ascending order.
pub fn sort_levels(levels: &Vec<u8>) -> (sorted: Vec<u8>)
    ensures
        sorted@ == levels@.sort_by(ascending()),
{
    let mut sorted: Vec<u8> = Vec::new();
    let mut k: usize = 0;
    assert(levels@.take(0) =~= sorted@);
    while k < levels.len()
        invariant
            k <= levels@.len(),
            sorted@.len() == k,
            sorted_by(sorted@, ascending()),
            sorted@.to_multiset() == levels@.take(k as int).to_multiset(),
        decreases levels@.len() - k,
    {
        let v: u8 = levels[k];
        let mut at: usize = 0;
        while at < sorted.len() && sorted[at] <= v
            invariant
                at <= sorted@.len(),
                forall|j: int| 0 <= j < at ==> sorted@[j] <= v,
            decreases sorted@.len() - at,
        {
            at = at + 1;
        }
        let ghost before = sorted@;
        sorted.insert(at, v);
        proof {
            assert(sorted@ == before.insert(at as int, v));
            assert forall|i: int, j: int| 0 <= i < j < sorted@.len() implies #[trigger] ascending()(
                sorted@[i],
                sorted@[j],
            ) by {
                if j < at {
                    assert(ascending()(before[i], before[j]));
                } else if j == at {
                } else if i < at {
                    assert(ascending()(before[i], before[j - 1]));
                } else if i == at {
                    assert(ascending()(before[at as int], before[j - 1]));
                } else {
                    assert(ascending()(before[i - 1], before[j - 1]));
                }
            }
            to_multiset_insert(before, at as int, v);
            to_multiset_build(levels@.take(k as int), v);
            assert(levels@.take(k as int + 1) =~= levels@.take(k as int).push(v));
        }
        k = k + 1;
    }
    proof {
        assert(levels@.take(k as int) =~= levels@);
        assert(total_ordering(ascending()));
        levels@.lemma_sort_by_ensures(ascending());
        lemma_sorted_unique(sorted@, levels@.sort_by(ascending()), ascending());
    }
    sorted
}

/// Picks the representative of the median gray level of a window.
pub fn find_median(win: &Vec<Color>) -> (c: Color)
    requires
        win@.len() == 9,
    ensures
        c == median_sample(win@),
{
    let levels: Vec<u8> = gray_levels(win);
    let sorted: Vec<u8> = sort_levels(&levels);
    proof {
        lemma_sorted_levels(levels@);
    }
    let median: u8 = sorted[4];
    let mut k: usize = 0;
    while levels[k] != median
        invariant
            k < 9,
            levels@.len() == 9,
            levels@.contains(median),
            forall|j: int| 0 <= j < k ==> levels@[j] != median,
        decreases 9 - k,
    {
        k = k + 1;
    }
    proof {
        lemma_first_index_unique(levels@, median, k as int);
    }
    win[k]
}

/// The median filter gives back the sample of a window whose nine samples
/// are all the same.
pub proof fn lemma_median_of_uniform(win: Seq<Color>, c: Color)
    requires
        win.len() == 9,
        forall|k: int| 0 <= k < 9 ==> #[trigger] win[k] == c,
    ensures
        median_sample(win) == c,
{
    let levels = levels_of(win);
    lemma_sorted_levels(levels);
    let median = median_level(levels);
    let at = choose|at: int| 0 <= at < levels.len() && levels[at] == median;
    assert(levels[at] == c.level());
    assert(levels[0] == c.level());
    lemma_first_index_unique(levels, c.level(), 0);
}

} // verus!

//! The 3x3 neighbourhood of a coordinate.

use crate::buffer::{image_height, image_width, Image};
use crate::color::Color;
use vstd::prelude::*;

verus! {

/// A 3x3 grid of signed weights: `k[i][j]` belongs to the neighbour at
/// offset `(i - 1, j - 1)`.
pub type FilterMatrix = [[i32; 3]; 3];

/// Whether `(x, y)` has all eight neighbours inside a `w` by `h` grid.
pub open spec fn is_interior(w: int, h: int, x: int, y: int) -> bool {
    1 <= x < w - 1 && 1 <= y < h - 1
}

/// The nine samples around `(x, y)` in scan order: entry `3 * i + j` is the
/// sample at `(x + i - 1, y + j - 1)`.
pub open spec fn window_at(g: Seq<Seq<Color>>, x: int, y: int) -> Seq<Color> {
    Seq::new(9, |k: int| g[x + k / 3 - 1][y + k % 3 - 1])
}

/// The nine weights of a filter matrix in scan order.
pub open spec fn weights(k: FilterMatrix) -> Seq<int> {
    Seq::new(9, |n: int| k[n / 3][n % 3] as int)
}

/// Reads the window around an interior coordinate of the image.
pub fn read_window(img: &Image, x: u32, y: u32) -> (win: Vec<Color>)
    requires
        is_interior(image_width(*img) as int, image_height(*img) as int, x as int, y as int),
    ensures
        win@ == window_at(img@, x as int, y as int),
{
    let mut win: Vec<Color> = Vec::new();
    let mut k: u32 = 0;
    while k < 9
        invariant
            k <= 9,
            is_interior(image_width(*img) as int, image_height(*img) as int, x as int, y as int),
            win@.len() == k,
            forall|n: int| 0 <= n < k ==> #[trigger] win@[n] == img@[x + n / 3 - 1][y + n % 3 - 1],
        decreases 9 - k,
    {
        let c: Color = img.pixel(x - 1 + k / 3, y - 1 + k % 3);
        win.push(c);
        k = k + 1;
    }
    assert(win@ =~= window_at(img@, x as int, y as int));
    win
}

/// The weight of a filter matrix at scan position `n`.
pub fn weight_at(k: &FilterMatrix, n: usize) -> (v: i32)
    requires
        n < 9,
    ensures
        v as int == weights(*k)[n as int],
{
    k[n / 3][n % 3]
}

} // verus!

//! The neighbourhood filters: one window operation applied at every interior
//! coordinate of an image.

use crate::buffer::{image_height, image_width, Image};
use crate::canvas::{covers, grid, has_size, in_grid, rows, set_cell, with_cell, PixelMatrix};
use crate::color::{black, gray, white, Color};
use crate::convolve::{
    convolve, convolved, lemma_convolved_uniform, sum_filter_matrix, weight_total,
};
use crate::edge::{detect_edge, edge_detected, lemma_edge_at_zero};
use crate::morphology::{dilate, dilated, erode, eroded, zero_kernel};
use crate::rank::{find_median, find_mode, median_sample, mode_sample};
use crate::window::{is_interior, read_window, weights, window_at, FilterMatrix};
use vstd::prelude::*;

verus! {

/// What a neighbourhood filter computes from a window.
#[derive(Clone, Copy, Debug)]
pub enum WindowFilter {
    /// A weighted sum per channel, divided by `divisor`.
    Weighted { kernel: FilterMatrix, divisor: i64 },
    /// The representative of the most frequent gray level.
    Mode,
    /// The representative of the median gray level.
    Median,
    /// Border detection with a cut-off for the gradient magnitude.
    Edge { threshold: u32 },
    /// Gray-level dilation by a structuring kernel.
    Dilation { mask: FilterMatrix },
    /// Gray-level erosion by a structuring kernel.
    Erosion { mask: FilterMatrix },
}

/// The kernel of the averaging filter.
pub open spec fn box_kernel() -> FilterMatrix {
    [[1, 1, 1], [1, 1, 1], [1, 1, 1]]
}

/// The binomial kernel of the Gaussian filter.
pub open spec fn gaussian_kernel() -> FilterMatrix {
    [[1, 2, 1], [2, 4, 2], [1, 2, 1]]
}

/// The averaging filter: the box kernel, divided by the sum of its weights.
pub open spec fn averaging() -> WindowFilter {
    WindowFilter::Weighted { kernel: box_kernel(), divisor: 9 }
}

/// The Gaussian filter: the binomial kernel, divided by the sum of its
/// weights.
pub open spec fn gaussian() -> WindowFilter {
    WindowFilter::Weighted { kernel: gaussian_kernel(), divisor: 16 }
}

/// Border detection with the given cut-off.
pub open spec fn edges_above(threshold: u32) -> WindowFilter {
    WindowFilter::Edge { threshold }
}

/// Dilation by the given structuring kernel.
pub open spec fn dilation_by(mask: FilterMatrix) -> WindowFilter {
    WindowFilter::Dilation { mask }
}

/// Erosion by the given structuring kernel.
pub open spec fn erosion_by(mask: FilterMatrix) -> WindowFilter {
    WindowFilter::Erosion { mask }
}

impl WindowFilter {
    /// A weighted filter needs a divisor other than zero.
    pub open spec fn wf(self) -> bool {
        self matches WindowFilter::Weighted { divisor, .. } ==> divisor != 0
    }

    /// The sample that the filter gives for a window of nine samples.
    pub open spec fn output(self, win: Seq<Color>) -> Color {
        match self {
            WindowFilter::Weighted { kernel, divisor } => convolved(win, kernel, divisor as int),
            WindowFilter::Mode => mode_sample(win),
            WindowFilter::Median => median_sample(win),
            WindowFilter::Edge { threshold } => edge_detected(win, threshold as int),
            WindowFilter::Dilation { mask } => dilated(win, mask),
            WindowFilter::Erosion { mask } => eroded(win, mask),
        }
    }

    /// Applies the filter to a window.
    pub fn apply(&self, win: &Vec<Color>) -> (c: Color)
        requires
            self.wf(),
            win@.len() == 9,
        ensures
            c == self.output(win@),
    {
        match self {
            WindowFilter::Weighted { kernel, divisor } => convolve(win, kernel, *divisor),
            WindowFilter::Mode => find_mode(win),
            WindowFilter::Median => find_median(win),
            WindowFilter::Edge { threshold } => detect_edge(win, *threshold),
            WindowFilter::Dilation { mask } => dilate(win, mask),
            WindowFilter::Erosion { mask } => erode(win, mask),
        }
    }
}

/// Whether the grid has a cell for every interior coordinate of a `w` by `h`
/// image.
pub open spec fn covers_interior(g: Seq<Seq<Color>>, w: int, h: int) -> bool {
    forall|x: int, y: int| is_interior(w, h, x, y) ==> #[trigger] in_grid(g, x, y)
}

/// The destination after the interior coordinates that come before
/// `(cx, cy)`, column by column, have been filtered.
pub open spec fn filtered_before(
    src: Seq<Seq<Color>>,
    dst: Seq<Seq<Color>>,
    f: WindowFilter,
    cx: int,
    cy: int,
) -> Seq<Seq<Color>> {
    Seq::new(
        dst.len(),
        |x: int|
            Seq::new(
                dst[x].len(),
                |y: int|
                    if is_interior(src.len() as int, rows(src), x, y) && (x < cx || (x == cx && y
                        < cy)) {
                        f.output(window_at(src, x, y))
                    } else {
                        dst[x][y]
                    },
            ),
    )
}

/// The destination after filtering: every cell at an interior coordinate of
/// the source holds the filter's output for the source window around it;
/// every other cell is as it was.
pub open spec fn filtered(src: Seq<Seq<Color>>, dst: Seq<Seq<Color>>, f: WindowFilter) -> Seq<
    Seq<Color>,
> {
    Seq::new(
        dst.len(),
        |x: int|
            Seq::new(
                dst[x].len(),
                |y: int|
                    if is_interior(src.len() as int, rows(src), x, y) {
                        f.output(window_at(src, x, y))
                    } else {
                        dst[x][y]
                    },
            ),
    )
}

/// Filters an image into a canvas.
pub fn filter_into(img: &Image, canvas: &mut PixelMatrix, f: &WindowFilter)
    requires
        f.wf(),
        covers_interior(grid(*old(canvas)), image_width(*img) as int, image_height(*img) as int),
    ensures
        grid(*final(canvas)) == filtered(img@, grid(*old(canvas)), *f),
{
    let w: u32 = img.width();
    let h: u32 = img.height();
    let ghost src = img@;
    let ghost dst = grid(*canvas);
    assert(w > 0 ==> rows(src) == h);
    assert(grid(*canvas) =~~= filtered_before(src, dst, *f, 1, 1));
    let mut x: u32 = 1;
    while x < w && x + 1 < w
        invariant
            1 <= x,
            w == image_width(*img),
            h == image_height(*img),
            src == img@,
            w > 0 ==> rows(src) == h,
            src.len() == w,
            f.wf(),
            covers_interior(dst, w as int, h as int),
            grid(*canvas) == filtered_before(src, dst, *f, x as int, 1),
        decreases w - x,
    {
        let mut y: u32 = 1;
        while y < h && y + 1 < h
            invariant
                1 <= x,
                x + 1 < w,
                1 <= y,
                w == image_width(*img),
                h == image_height(*img),
                src == img@,
                rows(src) == h,
                src.len() == w,
                f.wf(),
                covers_interior(dst, w as int, h as int),
                grid(*canvas) == filtered_before(src, dst, *f, x as int, y as int),
            decreases h - y,
        {
            let win: Vec<Color> = read_window(img, x, y);
            let c: Color = f.apply(&win);
            assert(in_grid(dst, x as int, y as int));
            set_cell(canvas, x as usize, y as usize, c);
            assert(grid(*canvas) =~~= filtered_before(src, dst, *f, x as int, y + 1));
            y = y + 1;
        }
        assert(grid(*canvas) =~~= filtered_before(src, dst, *f, x + 1, 1));
        x = x + 1;
    }
    assert(grid(*canvas) =~~= filtered(src, dst, *f));
}

/// The grid after the window around `(x, y)` has been filtered in place.
pub open spec fn sweep_cell(g: Seq<Seq<Color>>, f: WindowFilter, x: int, y: int) -> Seq<
    Seq<Color>,
> {
    with_cell(g, x, y, f.output(window_at(g, x, y)))
}

/// The grid after rows 1 to `n` of column `x` have been filtered in place,
/// top to bottom.
pub open spec fn sweep_column(g: Seq<Seq<Color>>, f: WindowFilter, x: int, n: int) -> Seq<
    Seq<Color>,
>
    decreases n,
{
    if n <= 0 {
        g
    } else {
        sweep_cell(sweep_column(g, f, x, n - 1), f, x, n)
    }
}

/// The grid after the interior of columns 1 to `n` has been filtered in
/// place, left to right, where the interior of a column is rows 1 to `m`.
pub open spec fn sweep_columns(g: Seq<Seq<Color>>, f: WindowFilter, n: int, m: int) -> Seq<
    Seq<Color>,
>
    decreases n,
{
    if n <= 0 {
        g
    } else {
        sweep_column(sweep_columns(g, f, n - 1, m), f, n, m)
    }
}

/// The grid after an in-place filter: the interior coordinates are
/// overwritten one after the other, column by column and top to bottom
/// within a column, and each window is read from the grid as the earlier
/// steps have left it.
pub open spec fn swept(g: Seq<Seq<Color>>, f: WindowFilter) -> Seq<Seq<Color>> {
    sweep_columns(g, f, g.len() - 2, rows(g) - 2)
}

/// Filters an image in place.
pub fn filter_in_place(img: &mut Image, f: &WindowFilter)
    requires
        f.wf(),
    ensures
        image_width(*final(img)) == image_width(*old(img)),
        image_height(*final(img)) == image_height(*old(img)),
        final(img)@ == swept(old(img)@, *f),
{
    let w: u32 = img.width();
    let h: u32 = img.height();
    let ghost g = img@;
    assert(w > 0 ==> rows(g) == h);
    let mut x: u32 = 1;
    while x < w && x + 1 < w
        invariant
            1 <= x,
            w == image_width(*img),
            h == image_height(*img),
            w == image_width(*old(img)),
            h == image_height(*old(img)),
            g == old(img)@,
            w > 0 ==> rows(g) == h,
            g.len() == w,
            w >= 3 ==> x <= w - 1,
            w < 3 ==> x == 1,
            f.wf(),
            img@ == sweep_columns(g, *f, x - 1, h - 2),
        decreases w - x,
    {
        let ghost start = img@;
        let mut y: u32 = 1;
        while y < h && y + 1 < h
            invariant
                1 <= x,
                x + 1 < w,
                1 <= y,
                h >= 3 ==> y <= h - 1,
                h < 3 ==> y == 1,
                w == image_width(*img),
                h == image_height(*img),
                f.wf(),
                img@ == sweep_column(start, *f, x as int, y - 1),
            decreases h - y,
        {
            let win: Vec<Color> = read_window(img, x, y);
            let c: Color = f.apply(&win);
            img.put(x, y, c);
            y = y + 1;
        }
        assert(h >= 3 ==> y == h - 1);
        assert(h < 3 ==> y == 1);
        assert(img@ == sweep_column(start, *f, x as int, h - 2));
        x = x + 1;
    }
    assert(w >= 3 ==> x == w - 1);
    assert(w < 3 ==> x == 1);
}

/// The sample that the averaging and the Gaussian filter give at an interior
/// coordinate: the weighted sum of the window, channel by channel, divided
/// by `z`.
pub fn apply_average_filter_mask(img: &Image, filter: FilterMatrix, x: u32, y: u32, z: i64) -> (c:
    Color)
    requires
        is_interior(image_width(*img) as int, image_height(*img) as int, x as int, y as int),
        z != 0,
    ensures
        c == convolved(window_at(img@, x as int, y as int), filter, z as int),
{
    let win: Vec<Color> = read_window(img, x, y);
    convolve(&win, &filter, z)
}

/// Writes the mean of each window into the canvas.
pub fn average_filter(img: &mut Image, canvas: &mut PixelMatrix)
    requires
        covers_interior(
            grid(*old(canvas)),
            image_width(*old(img)) as int,
            image_height(*old(img)) as int,
        ),
    ensures
        *final(img) == *old(img),
        grid(*final(canvas)) == filtered(old(img)@, grid(*old(canvas)), averaging()),
{
    let filter: FilterMatrix = [[1, 1, 1], [1, 1, 1], [1, 1, 1]];
    let z: i64 = sum_filter_matrix(&filter);
    assert(z == 9) by {
        reveal_with_fuel(weight_total, 10);
    }
    filter_into(img, canvas, &WindowFilter::Weighted { kernel: filter, divisor: z });
}

/// Blurs the image in place with the binomial kernel.
pub fn gaussian_filter(img: &mut Image)
    ensures
        image_width(*final(img)) == image_width(*old(img)),
        image_height(*final(img)) == image_height(*old(img)),
        final(img)@ == swept(old(img)@, gaussian()),
{
    let filter: FilterMatrix = [[1, 2, 1], [2, 4, 2], [1, 2, 1]];
    let z: i64 = sum_filter_matrix(&filter);
    assert(z == 16) by {
        reveal_with_fuel(weight_total, 10);
    }
    filter_in_place(img, &WindowFilter::Weighted { kernel: filter, divisor: z });
}

/// Writes the representative of each window's most frequent gray level into
/// the canvas.
pub fn mode_filter(img: &mut Image, canvas: &mut PixelMatrix)
    requires
        covers_interior(
            grid(*old(canvas)),
            image_width(*old(img)) as int,
            image_height(*old(img)) as int,
        ),
    ensures
        *final(img) == *old(img),
        grid(*final(canvas)) == filtered(old(img)@, grid(*old(canvas)), WindowFilter::Mode),
{
    filter_into(img, canvas, &WindowFilter::Mode);
}

/// Replaces each interior pixel, in place, by the representative of its
/// window's median gray level.
pub fn median_filter(img: &mut Image)
    ensures
        image_width(*final(img)) == image_width(*old(img)),
        image_height(*final(img)) == image_height(*old(img)),
        final(img)@ == swept(old(img)@, WindowFilter::Median),
{
    filter_in_place(img, &WindowFilter::Median);
}

/// Marks in the canvas, channel by channel, where the gradient magnitude is
/// above the threshold.
pub fn border_detection(img: &Image, canvas: &mut PixelMatrix, threshold: u32)
    requires
        covers_interior(grid(*old(canvas)), image_width(*img) as int, image_height(*img) as int),
    ensures
        grid(*final(canvas)) == filtered(img@, grid(*old(canvas)), edges_above(threshold)),
{
    filter_into(img, canvas, &WindowFilter::Edge { threshold });
}

/// Writes the gray-level dilation of the image by `mask` into the canvas.
pub fn dilation(img: &Image, canvas: &mut PixelMatrix, mask: &FilterMatrix)
    requires
        covers_interior(grid(*old(canvas)), image_width(*img) as int, image_height(*img) as int),
    ensures
        grid(*final(canvas)) == filtered(img@, grid(*old(canvas)), dilation_by(*mask)),
{
    filter_into(img, canvas, &WindowFilter::Dilation { mask: *mask });
}

/// Writes the gray-level erosion of the image by `mask` into the canvas.
pub fn erosion(img: &Image, canvas: &mut PixelMatrix, mask: &FilterMatrix)
    requires
        covers_interior(grid(*old(canvas)), image_width(*img) as int, image_height(*img) as int),
    ensures
        grid(*final(canvas)) == filtered(img@, grid(*old(canvas)), erosion_by(*mask)),
{
    filter_into(img, canvas, &WindowFilter::Erosion { mask: *mask });
}

/// Whether the sample is pure black or pure white.
pub open spec fn is_black_or_white(c: Color) -> bool {
    c == white() || c == black()
}

/// White where the gray level of the sample is above the cut-off, black
/// elsewhere.
pub open spec fn binarized(c: Color, cutoff: u8) -> Color {
    if c.level() > cutoff {
        white()
    } else {
        black()
    }
}

/// The destination after thresholding: every cell at a coordinate of the
/// source holds the binarized source sample; every other cell is as it was.
pub open spec fn thresholded(src: Seq<Seq<Color>>, dst: Seq<Seq<Color>>, cutoff: u8) -> Seq<
    Seq<Color>,
> {
    Seq::new(
        dst.len(),
        |x: int|
            Seq::new(
                dst[x].len(),
                |y: int|
                    if in_grid(src, x, y) {
                        binarized(src[x][y], cutoff)
                    } else {
                        dst[x][y]
                    },
            ),
    )
}

/// The destination after the source coordinates that come before `(cx, cy)`,
/// column by column, have been thresholded.
pub open spec fn thresholded_before(
    src: Seq<Seq<Color>>,
    dst: Seq<Seq<Color>>,
    cutoff: u8,
    cx: int,
    cy: int,
) -> Seq<Seq<Color>> {
    Seq::new(
        dst.len(),
        |x: int|
            Seq::new(
                dst[x].len(),
                |y: int|
                    if in_grid(src, x, y) && (x < cx || (x == cx && y < cy)) {
                        binarized(src[x][y], cutoff)
                    } else {
                        dst[x][y]
                    },
            ),
    )
}

/// Binarizes the whole image, border included, into the canvas.
pub fn threshold(img: &Image, canvas: &mut PixelMatrix, threshold: u8)
    requires
        covers(grid(*old(canvas)), image_width(*img) as int, image_height(*img) as int),
    ensures
        grid(*final(canvas)) == thresholded(img@, grid(*old(canvas)), threshold),
        forall|x: int, y: int|
            in_grid(img@, x, y) ==> is_black_or_white(#[trigger] grid(*final(canvas))[x][y]),
{
    let w: u32 = img.width();
    let h: u32 = img.height();
    let ghost src = img@;
    let ghost dst = grid(*canvas);
    assert(grid(*canvas) =~~= thresholded_before(src, dst, threshold, 0, 0));
    let mut x: u32 = 0;
    while x < w
        invariant
            x <= w,
            w == image_width(*img),
            h == image_height(*img),
            src == img@,
            covers(dst, w as int, h as int),
            grid(*canvas) == thresholded_before(src, dst, threshold, x as int, 0),
        decreases w - x,
    {
        let mut y: u32 = 0;
        while y < h
            invariant
                x < w,
                y <= h,
                w == image_width(*img),
                h == image_height(*img),
                src == img@,
                covers(dst, w as int, h as int),
                grid(*canvas) == thresholded_before(src, dst, threshold, x as int, y as int),
            decreases h - y,
        {
            let pixel: Color = img.pixel(x, y);
            let gray_level: u8 = pixel.gray_level();
            let mut new_pixel: Color = Color::black();
            if gray_level > threshold {
                new_pixel = Color::white();
            }
            assert(in_grid(dst, x as int, y as int));
            set_cell(canvas, x as usize, y as usize, new_pixel);
            assert(grid(*canvas) =~~= thresholded_before(src, dst, threshold, x as int, y + 1));
            y = y + 1;
        }
        assert(grid(*canvas) =~~= thresholded_before(src, dst, threshold, x + 1, 0));
        x = x + 1;
    }
    assert(grid(*canvas) =~~= thresholded(src, dst, threshold));
    assert forall|x: int, y: int| in_grid(img@, x, y) implies is_black_or_white(
        #[trigger] grid(*canvas)[x][y],
    ) by {
        assert(in_grid(dst, x, y));
    }
}

/// Whether every cell of the grid holds `c`.
pub open spec fn is_uniform(g: Seq<Seq<Color>>, c: Color) -> bool {
    forall|x: int, y: int| in_grid(g, x, y) ==> #[trigger] g[x][y] == c
}

/// Whether the filter gives, at every interior coordinate of the grid, the
/// sample that is already there.
pub open spec fn fixes_interior(g: Seq<Seq<Color>>, f: WindowFilter) -> bool {
    forall|x: int, y: int|
        is_interior(g.len() as int, rows(g), x, y) ==> f.output(#[trigger] window_at(g, x, y))
            == g[x][y]
}

/// An in-place filter that fixes every interior coordinate of a rectangular
/// grid leaves the first `n` rows of a column as they are.
pub proof fn lemma_sweep_column_fixed(g: Seq<Seq<Color>>, f: WindowFilter, x: int, n: int)
    requires
        has_size(g, g.len() as int, rows(g)),
        fixes_interior(g, f),
        1 <= x < g.len() - 1,
        n <= rows(g) - 2,
    ensures
        sweep_column(g, f, x, n) == g,
    decreases n,
{
    if n > 0 {
        lemma_sweep_column_fixed(g, f, x, n - 1);
        assert(is_interior(g.len() as int, rows(g), x, n));
        assert(f.output(window_at(g, x, n)) == g[x][n]);
        assert(sweep_cell(g, f, x, n) =~~= g);
    }
}

/// An in-place filter that fixes every interior coordinate of a rectangular
/// grid leaves the first `n` columns as they are.
pub proof fn lemma_sweep_columns_fixed(g: Seq<Seq<Color>>, f: WindowFilter, n: int)
    requires
        has_size(g, g.len() as int, rows(g)),
        fixes_interior(g, f),
        n <= g.len() - 2,
    ensures
        sweep_columns(g, f, n, rows(g) - 2) == g,
    decreases n,
{
    if n > 0 {
        lemma_sweep_columns_fixed(g, f, n - 1);
        lemma_sweep_column_fixed(g, f, n, rows(g) - 2);
    }
}

/// An in-place filter keeps the size of a rectangular grid and changes, in
/// the first `n` rows of a column, the interior cells of that column only.
pub proof fn lemma_sweep_column_frame(g: Seq<Seq<Color>>, f: WindowFilter, x: int, n: int)
    requires
        has_size(g, g.len() as int, rows(g)),
        1 <= x < g.len() - 1,
        n <= rows(g) - 2,
    ensures
        has_size(sweep_column(g, f, x, n), g.len() as int, rows(g)),
        rows(sweep_column(g, f, x, n)) == rows(g),
        forall|i: int, j: int|
            in_grid(g, i, j) && !(i == x && 1 <= j <= n) ==> #[trigger] sweep_column(
                g,
                f,
                x,
                n,
            )[i][j] == g[i][j],
    decreases n,
{
    if n > 0 {
        lemma_sweep_column_frame(g, f, x, n - 1);
    }
}

/// An in-place filter keeps the size of a rectangular grid and changes, in
/// the first `n` columns, interior cells only.
pub proof fn lemma_sweep_columns_frame(g: Seq<Seq<Color>>, f: WindowFilter, n: int)
    requires
        has_size(g, g.len() as int, rows(g)),
        n <= g.len() - 2,
    ensures
        has_size(sweep_columns(g, f, n, rows(g) - 2), g.len() as int, rows(g)),
        rows(sweep_columns(g, f, n, rows(g) - 2)) == rows(g),
        forall|i: int, j: int|
            in_grid(g, i, j) && !(is_interior(g.len() as int, rows(g), i, j) && i <= n)
                ==> #[trigger] sweep_columns(g, f, n, rows(g) - 2)[i][j] == g[i][j],
    decreases n,
{
    if n > 0 {
        lemma_sweep_columns_frame(g, f, n - 1);
        let before = sweep_columns(g, f, n - 1, rows(g) - 2);
        lemma_sweep_column_frame(before, f, n, rows(g) - 2);
    }
}

/// An in-place filter keeps the size of a rectangular image and leaves its
/// one-pixel border as it is.
pub proof fn lemma_swept_keeps_border(g: Seq<Seq<Color>>, f: WindowFilter)
    requires
        has_size(g, g.len() as int, rows(g)),
    ensures
        has_size(swept(g, f), g.len() as int, rows(g)),
        forall|x: int, y: int|
            in_grid(g, x, y) && !is_interior(g.len() as int, rows(g), x, y) ==> #[trigger] swept(
                g,
                f,
            )[x][y] == g[x][y],
{
    lemma_sweep_columns_frame(g, f, g.len() - 2);
}

/// The averaging filter gives, at every interior coordinate of an image of
/// one colour, that colour.
pub proof fn lemma_average_of_uniform(
    src: Seq<Seq<Color>>,
    dst: Seq<Seq<Color>>,
    c: Color,
    x: int,
    y: int,
)
    requires
        has_size(src, src.len() as int, rows(src)),
        is_uniform(src, c),
        is_interior(src.len() as int, rows(src), x, y),
        in_grid(dst, x, y),
    ensures
        filtered(src, dst, averaging())[x][y] == c,
{
    let win = window_at(src, x, y);
    assert forall|k: int| 0 <= k < 9 implies #[trigger] win[k] == c by {
        assert(in_grid(src, x + k / 3 - 1, y + k % 3 - 1));
    }
    assert(weight_total(weights(box_kernel()), 9) == 9) by {
        reveal_with_fuel(weight_total, 10);
    }
    lemma_convolved_uniform(win, box_kernel(), c);
}

/// The Gaussian filter leaves an image of one colour as it is.
pub proof fn lemma_gaussian_keeps_uniform(g: Seq<Seq<Color>>, c: Color)
    requires
        has_size(g, g.len() as int, rows(g)),
        is_uniform(g, c),
    ensures
        swept(g, gaussian()) == g,
{
    let f = gaussian();
    assert(weight_total(weights(gaussian_kernel()), 9) == 16) by {
        reveal_with_fuel(weight_total, 10);
    }
    assert forall|x: int, y: int| is_interior(g.len() as int, rows(g), x, y) implies f.output(
        #[trigger] window_at(g, x, y),
    ) == g[x][y] by {
        let win = window_at(g, x, y);
        assert forall|k: int| 0 <= k < 9 implies #[trigger] win[k] == c by {
            assert(in_grid(g, x + k / 3 - 1, y + k % 3 - 1));
        }
        assert(in_grid(g, x, y));
        lemma_convolved_uniform(win, gaussian_kernel(), c);
    }
    lemma_sweep_columns_fixed(g, f, g.len() - 2);
}

/// The median filter leaves an image of one colour as it is.
pub proof fn lemma_median_keeps_uniform(g: Seq<Seq<Color>>, c: Color)
    requires
        has_size(g, g.len() as int, rows(g)),
        is_uniform(g, c),
    ensures
        swept(g, WindowFilter::Median) == g,
{
    assert forall|x: int, y: int| is_interior(g.len() as int, rows(g), x, y) implies median_sample(
        #[trigger] window_at(g, x, y),
    ) == g[x][y] by {
        let win = window_at(g, x, y);
        assert forall|k: int| 0 <= k < 9 implies win[k] == c by {
            assert(in_grid(g, x + k / 3 - 1, y + k % 3 - 1));
        }
        assert(in_grid(g, x, y));
        crate::rank::lemma_median_of_uniform(win, c);
    }
    lemma_sweep_columns_fixed(g, WindowFilter::Median, g.len() - 2);
}

/// With the threshold zero, border detection gives pure white at an interior
/// coordinate exactly where the sample to its right and the sample below it
/// differ in every channel.
pub proof fn lemma_border_at_zero(src: Seq<Seq<Color>>, dst: Seq<Seq<Color>>, x: int, y: int)
    requires
        is_interior(src.len() as int, rows(src), x, y),
        in_grid(dst, x, y),
    ensures
        filtered(src, dst, edges_above(0))[x][y] == white() <==> ({
            &&& src[x + 1][y].r != src[x][y + 1].r
            &&& src[x + 1][y].g != src[x][y + 1].g
            &&& src[x + 1][y].b != src[x][y + 1].b
        }),
{
    let win = window_at(src, x, y);
    assert(win[7] == src[x + 1][y]);
    assert(win[5] == src[x][y + 1]);
    lemma_edge_at_zero(win, 0);
    lemma_edge_at_zero(win, 1);
    lemma_edge_at_zero(win, 2);
}

/// At every interior coordinate, dilation gives at least what erosion gives
/// when the kernel has no negative weight.
pub proof fn lemma_dilation_above_erosion(
    src: Seq<Seq<Color>>,
    first: Seq<Seq<Color>>,
    second: Seq<Seq<Color>>,
    mask: FilterMatrix,
    x: int,
    y: int,
)
    requires
        crate::morphology::is_non_negative(mask),
        is_interior(src.len() as int, rows(src), x, y),
        in_grid(first, x, y),
        in_grid(second, x, y),
    ensures
        filtered(src, first, dilation_by(mask))[x][y].r >= filtered(
            src,
            second,
            erosion_by(mask),
        )[x][y].r,
{
    crate::morphology::lemma_dilated_above_eroded(window_at(src, x, y), mask);
}

/// Dilation and then erosion, both with the zero kernel, give back a gray
/// image of one colour at an interior coordinate: when the dilation of `src`
/// into `first` is read back as the grid `mid` of the same size and eroded
/// into `second`, the cell at `(x, y)` holds the colour of `src`, provided
/// that no cell that `first` keeps within the window is darker than it.
pub proof fn lemma_dilation_then_erosion(
    src: Seq<Seq<Color>>,
    first: Seq<Seq<Color>>,
    mid: Seq<Seq<Color>>,
    second: Seq<Seq<Color>>,
    c: Color,
    x: int,
    y: int,
)
    requires
        has_size(src, src.len() as int, rows(src)),
        is_uniform(src, c),
        c.r == c.g && c.g == c.b,
        has_size(mid, src.len() as int, rows(src)),
        is_interior(src.len() as int, rows(src), x, y),
        forall|i: int, j: int|
            x - 1 <= i <= x + 1 && y - 1 <= j <= y + 1 ==> ({
                &&& #[trigger] in_grid(first, i, j)
                &&& mid[i][j] == filtered(src, first, dilation_by(zero_kernel()))[i][j]
                &&& !is_interior(src.len() as int, rows(src), i, j) ==> first[i][j].level()
                    >= c.level()
            }),
        in_grid(second, x, y),
    ensures
        filtered(mid, second, erosion_by(zero_kernel()))[x][y] == c,
{
    let w = src.len() as int;
    let h = rows(src);
    let dil = WindowFilter::Dilation { mask: zero_kernel() };
    let win = window_at(mid, x, y);
    assert(rows(mid) == h);
    assert(c.level() == c.r);
    assert forall|k: int| 0 <= k < 9 implies (#[trigger] win[k]).level() >= c.level() && (k == 4
        ==> win[k] == c) by {
        let i = x + k / 3 - 1;
        let j = y + k % 3 - 1;
        assert(in_grid(first, i, j));
        if is_interior(w, h, i, j) {
            let around = window_at(src, i, j);
            assert forall|n: int| 0 <= n < 9 implies around[n].level() == c.level() by {
                assert(in_grid(src, i + n / 3 - 1, j + n % 3 - 1));
            }
            crate::morphology::lemma_dilated_uniform(around, c.level());
            assert(mid[i][j] == gray(c.level()));
        }
    }
    crate::morphology::lemma_eroded_to_centre(win);
}

} // verus!

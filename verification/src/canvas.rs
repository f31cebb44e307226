//! The pixel grid that the operations write to, and its conversions from and
//! to an image buffer.

use crate::buffer::{fits_in_memory, image_height, image_width, Image};
use crate::color::{white, Color};
use vstd::prelude::*;

verus! {

/// A grid of samples stored column by column: `m[x][y]` is the sample at
/// column `x`, row `y`.
pub type PixelMatrix = Vec<Vec<Color>>;

/// A pixel matrix as a sequence of columns.
pub open spec fn grid(m: PixelMatrix) -> Seq<Seq<Color>> {
    Seq::new(m@.len(), |x: int| m@[x]@)
}

/// Whether `(x, y)` is a coordinate of the grid.
pub open spec fn in_grid(g: Seq<Seq<Color>>, x: int, y: int) -> bool {
    0 <= x < g.len() && 0 <= y < g[x].len()
}

/// The number of rows of a rectangular grid: the length of its first column.
pub open spec fn rows(g: Seq<Seq<Color>>) -> int {
    if g.len() == 0 {
        0
    } else {
        g[0].len() as int
    }
}

/// Whether the grid has exactly `w` columns of `h` samples each.
pub open spec fn has_size(g: Seq<Seq<Color>>, w: int, h: int) -> bool {
    g.len() == w && forall|x: int| 0 <= x < w ==> (#[trigger] g[x]).len() == h
}

/// Whether the grid has a cell for every coordinate of a `w` by `h` rectangle.
pub open spec fn covers(g: Seq<Seq<Color>>, w: int, h: int) -> bool {
    forall|x: int, y: int| 0 <= x < w && 0 <= y < h ==> #[trigger] in_grid(g, x, y)
}

/// The grid `g` with the cell at `(x, y)` replaced by `c`.
pub open spec fn with_cell(g: Seq<Seq<Color>>, x: int, y: int, c: Color) -> Seq<Seq<Color>> {
    g.update(x, g[x].update(y, c))
}

/// The all-white grid of `w` columns and `h` rows.
pub open spec fn blank(w: int, h: int) -> Seq<Seq<Color>> {
    Seq::new(w as nat, |x: int| Seq::new(h as nat, |y: int| white()))
}

/// Reads one cell of the matrix.
pub fn get_cell(m: &PixelMatrix, x: usize, y: usize) -> (c: Color)
    requires
        in_grid(grid(*m), x as int, y as int),
    ensures
        c == grid(*m)[x as int][y as int],
{
    m[x][y]
}

/// Overwrites one cell of the matrix.
pub fn set_cell(m: &mut PixelMatrix, x: usize, y: usize, c: Color)
    requires
        in_grid(grid(*old(m)), x as int, y as int),
    ensures
        grid(*final(m)) == with_cell(grid(*old(m)), x as int, y as int, c),
{
    m[x][y] = c;
    assert(grid(*m) =~~= with_cell(grid(*old(m)), x as int, y as int, c));
}

/// A canvas of `x` columns and `y` rows, every cell white.
pub fn new_canvas(x: u32, y: u32) -> (canvas: PixelMatrix)
    ensures
        grid(canvas) == blank(x as int, y as int),
{
    let mut canvas: PixelMatrix = Vec::new();
    let mut i: u32 = 0;
    while i < x
        invariant
            i <= x,
            canvas@.len() == i,
            forall|k: int|
                0 <= k < i ==> (#[trigger] canvas@[k])@ == Seq::new(y as nat, |j: int| white()),
        decreases x - i,
    {
        let mut column: Vec<Color> = Vec::new();
        let mut j: u32 = 0;
        while j < y
            invariant
                j <= y,
                column@.len() == j,
                forall|k: int| 0 <= k < j ==> #[trigger] column@[k] == white(),
            decreases y - j,
        {
            column.push(Color::white());
            j = j + 1;
        }
        assert(column@ =~= Seq::new(y as nat, |j: int| white()));
        canvas.push(column);
        i = i + 1;
    }
    assert(grid(canvas) =~~= blank(x as int, y as int));
    canvas
}

/// Copies an image into a pixel matrix of the same dimensions.
pub fn image_to_pixel_matrix(img: &Image) -> (matrix: PixelMatrix)
    ensures
        grid(matrix) == img@,
{
    let w: u32 = img.width();
    let h: u32 = img.height();
    let mut matrix: PixelMatrix = Vec::new();
    let mut i: u32 = 0;
    while i < w
        invariant
            i <= w,
            w == image_width(*img),
            h == image_height(*img),
            matrix@.len() == i,
            forall|k: int| 0 <= k < i ==> (#[trigger] matrix@[k])@ == img@[k],
        decreases w - i,
    {
        let mut column: Vec<Color> = Vec::new();
        let mut j: u32 = 0;
        while j < h
            invariant
                j <= h,
                i < w,
                w == image_width(*img),
                h == image_height(*img),
                column@.len() == j,
                forall|k: int| 0 <= k < j ==> #[trigger] column@[k] == img@[i as int][k],
            decreases h - j,
        {
            column.push(img.pixel(i, j));
            j = j + 1;
        }
        assert(column@ =~= img@[i as int]);
        matrix.push(column);
        i = i + 1;
    }
    assert(grid(matrix) =~~= img@);
    matrix
}

/// Copies the top-left `width` by `height` rectangle of a pixel matrix into a
/// new image.
pub fn pixel_matrix_to_image(pixel_matrix: &PixelMatrix, width: u32, height: u32) -> (img: Image)
    requires
        covers(grid(*pixel_matrix), width as int, height as int),
        fits_in_memory(width as int, height as int),
    ensures
        has_size(img@, width as int, height as int),
        forall|x: int, y: int|
            0 <= x < width && 0 <= y < height ==> #[trigger] img@[x][y] == grid(
                *pixel_matrix,
            )[x][y],
{
    let made: Option<Image> = Image::new(width, height);
    let mut img: Image = made.unwrap();
    let mut i: u32 = 0;
    while i < width
        invariant
            i <= width,
            covers(grid(*pixel_matrix), width as int, height as int),
            image_width(img) == width,
            image_height(img) == height,
            forall|x: int, y: int|
                0 <= x < i && 0 <= y < height ==> #[trigger] img@[x][y] == grid(
                    *pixel_matrix,
                )[x][y],
        decreases width - i,
    {
        let mut j: u32 = 0;
        while j < height
            invariant
                j <= height,
                i < width,
                covers(grid(*pixel_matrix), width as int, height as int),
                image_width(img) == width,
                image_height(img) == height,
                forall|x: int, y: int|
                    0 <= x < i && 0 <= y < height ==> #[trigger] img@[x][y] == grid(
                        *pixel_matrix,
                    )[x][y],
                forall|y: int|
                    0 <= y < j ==> #[trigger] img@[i as int][y] == grid(*pixel_matrix)[i as int][y],
            decreases height - j,
        {
            assert(in_grid(grid(*pixel_matrix), i as int, j as int));
            let c: Color = pixel_matrix[i as usize][j as usize];
            img.put(i, j, c);
            j = j + 1;
        }
        i = i + 1;
    }
    img
}

} // verus!

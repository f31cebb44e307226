//! The affine forward map: every source sample is written to the cell that
//! its coordinate is mapped to.

use crate::arith::floor_div;
use crate::buffer::Image;
use crate::canvas::{grid, image_to_pixel_matrix, in_grid, rows, set_cell, PixelMatrix};
use crate::color::Color;
use vstd::prelude::*;

verus! {

/// The axis that a flip reverses.
#[derive(Clone, Copy, Debug, PartialEq, Eq, Structural)]
pub enum Direction {
    /// Rows are reversed: row `j` goes to row `height - j`.
    Vertical,
    /// Columns are reversed: column `i` goes to column `width - i`.
    Horizontal,
}

/// An affine map with fixed-point entries, each in units of `1 / unit`:
/// the coordinate `(i, j)` goes to
/// `((a * i + c * j + tx) / unit, (b * i + d * j + ty) / unit)`.
#[derive(Clone, Copy, Debug, PartialEq, Eq, Structural)]
pub struct AffineMatrix {
    pub a: i32,
    pub b: i32,
    pub c: i32,
    pub d: i32,
    pub tx: i32,
    pub ty: i32,
    pub unit: u32,
}

impl AffineMatrix {
    /// The unit of the entries is positive.
    pub open spec fn wf(self) -> bool {
        self.unit > 0
    }

    /// The first coordinate of the image of `(i, j)`, rounded down.
    pub open spec fn x_of(self, i: int, j: int) -> int {
        (i * self.a + j * self.c + self.tx) / (self.unit as int)
    }

    /// The second coordinate of the image of `(i, j)`, rounded down.
    pub open spec fn y_of(self, i: int, j: int) -> int {
        (i * self.b + j * self.d + self.ty) / (self.unit as int)
    }
}

/// Whether the source coordinate `(i, j)` is mapped, and then shifted by the
/// offset `(ox, oy)`, onto the destination coordinate `(x, y)`.
pub open spec fn lands(m: AffineMatrix, ox: int, oy: int, i: int, j: int, x: int, y: int) -> bool {
    m.x_of(i, j) + ox == x && m.y_of(i, j) + oy == y
}

/// The last of the first `n` rows of source column `i` that lands on `(x, y)`.
pub open spec fn last_in_column(
    m: AffineMatrix,
    ox: int,
    oy: int,
    i: int,
    x: int,
    y: int,
    n: int,
) -> Option<int>
    decreases n,
{
    if n <= 0 {
        None
    } else if lands(m, ox, oy, i, n - 1, x, y) {
        Some(n - 1)
    } else {
        last_in_column(m, ox, oy, i, x, y, n - 1)
    }
}

/// The last coordinate of the first `n` source columns, in the order column
/// by column and top to bottom within a column, that lands on `(x, y)`.
pub open spec fn last_source(
    m: AffineMatrix,
    ox: int,
    oy: int,
    src: Seq<Seq<Color>>,
    x: int,
    y: int,
    n: int,
) -> Option<(int, int)>
    decreases n,
{
    if n <= 0 {
        None
    } else {
        match last_in_column(m, ox, oy, n - 1, x, y, src[n - 1].len() as int) {
            Some(j) => Some((n - 1, j)),
            None => last_source(m, ox, oy, src, x, y, n - 1),
        }
    }
}

/// The destination after the forward map: a cell on which source coordinates
/// land holds the sample of the last of them; every other cell is as it was.
pub open spec fn scattered(
    m: AffineMatrix,
    ox: int,
    oy: int,
    src: Seq<Seq<Color>>,
    dst: Seq<Seq<Color>>,
) -> Seq<Seq<Color>> {
    Seq::new(
        dst.len(),
        |x: int|
            Seq::new(
                dst[x].len(),
                |y: int|
                    match last_source(m, ox, oy, src, x, y, src.len() as int) {
                        Some(s) => src[s.0][s.1],
                        None => dst[x][y],
                    },
            ),
    )
}

/// The destination after the source coordinates that come before `(ci, cj)`
/// have been mapped.
pub open spec fn scattered_before(
    m: AffineMatrix,
    ox: int,
    oy: int,
    src: Seq<Seq<Color>>,
    dst: Seq<Seq<Color>>,
    ci: int,
    cj: int,
) -> Seq<Seq<Color>> {
    Seq::new(
        dst.len(),
        |x: int|
            Seq::new(
                dst[x].len(),
                |y: int|
                    match last_in_column(m, ox, oy, ci, x, y, cj) {
                        Some(j) => src[ci][j],
                        None => match last_source(m, ox, oy, src, x, y, ci) {
                            Some(s) => src[s.0][s.1],
                            None => dst[x][y],
                        },
                    },
            ),
    )
}

/// One coordinate of the image of `(i, j)`, offset included.
fn mapped(i: usize, j: usize, p: i32, q: i32, t: i32, unit: u32, offset: usize) -> (v: i128)
    requires
        unit > 0,
    ensures
        v == (i * p + j * q + t) / (unit as int) + offset,
{
    assert(-0x8000_0000_0000_0000_0000_0000 <= i * p <= 0x8000_0000_0000_0000_0000_0000
        && -0x8000_0000_0000_0000_0000_0000 <= j * q <= 0x8000_0000_0000_0000_0000_0000)
        by (nonlinear_arith)
        requires
            0 <= i <= 0xFFFF_FFFF_FFFF_FFFF,
            0 <= j <= 0xFFFF_FFFF_FFFF_FFFF,
            -0x8000_0000 <= p <= 0x8000_0000,
            -0x8000_0000 <= q <= 0x8000_0000,
    ;
    let n: i128 = (i as i128) * (p as i128) + (j as i128) * (q as i128) + (t as i128);
    floor_div(n, unit) + offset as i128
}

/// Maps every sample of `image` into `destination`. Source coordinates are
/// visited column by column and top to bottom within a column; a sample whose
/// image lies outside the destination is dropped, and where several samples
/// land on one cell the last one stays.
pub fn transform(
    transformation: &AffineMatrix,
    image: &PixelMatrix,
    destination: &mut PixelMatrix,
    offset: (usize, usize),
)
    requires
        transformation.wf(),
    ensures
        grid(*final(destination)) == scattered(
            *transformation,
            offset.0 as int,
            offset.1 as int,
            grid(*image),
            grid(*old(destination)),
        ),
{
    let ghost m = *transformation;
    let ghost ox = offset.0 as int;
    let ghost oy = offset.1 as int;
    let ghost src = grid(*image);
    let ghost dst = grid(*destination);
    assert(grid(*destination) =~~= scattered_before(m, ox, oy, src, dst, 0, 0));
    let width: usize = image.len();
    let mut i: usize = 0;
    while i < width
        invariant
            i <= width,
            width == src.len(),
            m == *transformation,
            m.wf(),
            ox == offset.0,
            oy == offset.1,
            src == grid(*image),
            grid(*destination) == scattered_before(m, ox, oy, src, dst, i as int, 0),
        decreases width - i,
    {
        let height: usize = image[i].len();
        let mut j: usize = 0;
        while j < height
            invariant
                i < width,
                j <= height,
                width == src.len(),
                height == src[i as int].len(),
                m == *transformation,
                m.wf(),
                ox == offset.0,
                oy == offset.1,
                src == grid(*image),
                grid(*destination) == scattered_before(m, ox, oy, src, dst, i as int, j as int),
            decreases height - j,
        {
            let pixel: Color = image[i][j];
            let x0: i128 = mapped(
                i,
                j,
                transformation.a,
                transformation.c,
                transformation.tx,
                transformation.unit,
                offset.0,
            );
            let y0: i128 = mapped(
                i,
                j,
                transformation.b,
                transformation.d,
                transformation.ty,
                transformation.unit,
                offset.1,
            );
            assert(x0 == m.x_of(i as int, j as int) + ox);
            assert(y0 == m.y_of(i as int, j as int) + oy);
            assert(forall|x: int, y: int|
                lands(m, ox, oy, i as int, j as int, x, y) <==> x == x0 && y == y0);
            if 0 <= x0 && x0 < destination.len() as i128 {
                let x: usize = x0 as usize;
                if 0 <= y0 && y0 < destination[x].len() as i128 {
                    let y: usize = y0 as usize;
                    set_cell(destination, x, y, pixel);
                }
            }
            assert(grid(*destination) =~~= scattered_before(m, ox, oy, src, dst, i as int, j + 1));
            j = j + 1;
        }
        assert(grid(*destination) =~~= scattered_before(m, ox, oy, src, dst, i + 1, 0));
        i = i + 1;
    }
    assert(grid(*destination) =~~= scattered(m, ox, oy, src, dst));
}

/// The identity map followed by a shift by `(x, y)`.
pub open spec fn translation(x: i32, y: i32) -> AffineMatrix {
    AffineMatrix { a: 1, b: 0, c: 0, d: 1, tx: x, ty: y, unit: 1 }
}

/// The map that multiplies the first coordinate by `x / unit` and the second
/// by `y / unit`.
pub open spec fn scaling(x: i32, y: i32, unit: u32) -> AffineMatrix {
    AffineMatrix { a: x, b: 0, c: 0, d: y, tx: 0, ty: 0, unit }
}

/// The rotation matrix whose cosine and sine have been rounded to integers.
pub open spec fn rotation(cos: i8, sin: i8) -> AffineMatrix {
    AffineMatrix {
        a: cos as i32,
        b: sin as i32,
        c: (-sin) as i32,
        d: cos as i32,
        tx: 0,
        ty: 0,
        unit: 1,
    }
}

/// The map that negates the coordinate along the flipped axis.
pub open spec fn mirror(direction: Direction) -> AffineMatrix {
    match direction {
        Direction::Vertical => AffineMatrix { a: 1, b: 0, c: 0, d: -1i32, tx: 0, ty: 0, unit: 1 },
        Direction::Horizontal => AffineMatrix {
            a: -1i32,
            b: 0,
            c: 0,
            d: 1,
            tx: 0,
            ty: 0,
            unit: 1,
        },
    }
}

/// The larger of the two dimensions of a grid.
pub open spec fn larger_side(g: Seq<Seq<Color>>) -> int {
    if g.len() >= rows(g) {
        g.len() as int
    } else {
        rows(g)
    }
}

/// The destination after the source has been shifted into it.
pub open spec fn translated(src: Seq<Seq<Color>>, dst: Seq<Seq<Color>>, x: i32, y: i32) -> Seq<
    Seq<Color>,
> {
    scattered(translation(x, y), 0, 0, src, dst)
}

/// The destination after the source has been scaled into it.
pub open spec fn scaled(
    src: Seq<Seq<Color>>,
    dst: Seq<Seq<Color>>,
    x: i32,
    y: i32,
    unit: u32,
) -> Seq<Seq<Color>> {
    scattered(scaling(x, y, unit), 0, 0, src, dst)
}

/// The destination after the source has been rotated into it: the rotated
/// coordinates are shifted by the larger side of the source along both axes.
pub open spec fn rotated(src: Seq<Seq<Color>>, dst: Seq<Seq<Color>>, cos: i8, sin: i8) -> Seq<
    Seq<Color>,
> {
    scattered(rotation(cos, sin), larger_side(src), larger_side(src), src, dst)
}

/// The destination after the source has been flipped into it: the mirrored
/// coordinates are shifted by the source's extent along the flipped axis.
pub open spec fn flipped(src: Seq<Seq<Color>>, dst: Seq<Seq<Color>>, direction: Direction) -> Seq<
    Seq<Color>,
> {
    match direction {
        Direction::Vertical => scattered(mirror(direction), 0, rows(src), src, dst),
        Direction::Horizontal => scattered(mirror(direction), src.len() as int, 0, src, dst),
    }
}

/// Shifts an image by `(x, y)` into a canvas.
pub fn translate(img: &Image, canvas: &mut PixelMatrix, x: i32, y: i32)
    ensures
        grid(*final(canvas)) == translated(img@, grid(*old(canvas)), x, y),
{
    let transform_matrix = AffineMatrix { a: 1, b: 0, c: 0, d: 1, tx: x, ty: y, unit: 1 };
    let image_matrix: PixelMatrix = image_to_pixel_matrix(img);
    transform(&transform_matrix, &image_matrix, canvas, (0, 0));
}

/// Scales an image by the factors `x / unit` and `y / unit` into a canvas.
pub fn scale(img: &Image, canvas: &mut PixelMatrix, x: i32, y: i32, unit: u32)
    requires
        unit > 0,
    ensures
        grid(*final(canvas)) == scaled(img@, grid(*old(canvas)), x, y, unit),
{
    let transform_matrix = AffineMatrix { a: x, b: 0, c: 0, d: y, tx: 0, ty: 0, unit };
    let image_matrix: PixelMatrix = image_to_pixel_matrix(img);
    transform(&transform_matrix, &image_matrix, canvas, (0, 0));
}

/// Rotates an image into a canvas by the rotation matrix whose entries are
/// the rounded cosine `cos` and the rounded sine `sin` of the angle.
pub fn rotate(img: &Image, canvas: &mut PixelMatrix, cos: i8, sin: i8)
    ensures
        grid(*final(canvas)) == rotated(img@, grid(*old(canvas)), cos, sin),
{
    let width: u32 = img.width();
    let height: u32 = img.height();
    let offset: usize = if width >= height {
        width as usize
    } else {
        height as usize
    };
    let transform_matrix = AffineMatrix {
        a: cos as i32,
        b: sin as i32,
        c: -(sin as i32),
        d: cos as i32,
        tx: 0,
        ty: 0,
        unit: 1,
    };
    let image_matrix: PixelMatrix = image_to_pixel_matrix(img);
    transform(&transform_matrix, &image_matrix, canvas, (offset, offset));
    assert(grid(*canvas) =~~= rotated(img@, grid(*old(canvas)), cos, sin));
}

/// Mirrors an image into a canvas.
pub fn flip(img: &Image, canvas: &mut PixelMatrix, direction: Direction)
    ensures
        grid(*final(canvas)) == flipped(img@, grid(*old(canvas)), direction),
{
    let width: u32 = img.width();
    let height: u32 = img.height();
    let image_matrix: PixelMatrix = image_to_pixel_matrix(img);
    match direction {
        Direction::Vertical => {
            let transform_matrix = AffineMatrix { a: 1, b: 0, c: 0, d: -1, tx: 0, ty: 0, unit: 1 };
            transform(&transform_matrix, &image_matrix, canvas, (0, height as usize));
        },
        Direction::Horizontal => {
            let transform_matrix = AffineMatrix { a: -1, b: 0, c: 0, d: 1, tx: 0, ty: 0, unit: 1 };
            transform(&transform_matrix, &image_matrix, canvas, (width as usize, 0));
        },
    }
    assert(grid(*canvas) =~~= flipped(img@, grid(*old(canvas)), direction));
}

/// What `last_in_column` finds lands on the cell, and no later row among the
/// first `n` does; where it finds nothing, none of them lands there.
pub proof fn lemma_last_in_column(
    m: AffineMatrix,
    ox: int,
    oy: int,
    i: int,
    x: int,
    y: int,
    n: int,
)
    ensures
        (match last_in_column(m, ox, oy, i, x, y, n) {
            Some(j) => 0 <= j < n && lands(m, ox, oy, i, j, x, y) && forall|k: int|
                j < k < n ==> !#[trigger] lands(m, ox, oy, i, k, x, y),
            None => forall|k: int| 0 <= k < n ==> !#[trigger] lands(m, ox, oy, i, k, x, y),
        }),
    decreases n,
{
    if n > 0 {
        lemma_last_in_column(m, ox, oy, i, x, y, n - 1);
    }
}

/// Whether `(i, j)` comes after `(p, q)` in the order of the forward map.
pub open spec fn comes_after(i: int, j: int, p: int, q: int) -> bool {
    i > p || (i == p && j > q)
}

/// What `last_source` finds is a coordinate of the source that lands on the
/// cell, and no later coordinate of the first `n` columns does; where it
/// finds nothing, no coordinate of those columns lands there.
pub proof fn lemma_last_source(
    m: AffineMatrix,
    ox: int,
    oy: int,
    src: Seq<Seq<Color>>,
    x: int,
    y: int,
    n: int,
)
    requires
        0 <= n <= src.len(),
    ensures
        (match last_source(m, ox, oy, src, x, y, n) {
            Some(s) => {
                &&& 0 <= s.0 < n
                &&& in_grid(src, s.0, s.1)
                &&& lands(m, ox, oy, s.0, s.1, x, y)
                &&& forall|i: int, j: int|
                    0 <= i < n && in_grid(src, i, j) && comes_after(i, j, s.0, s.1)
                        ==> !#[trigger] lands(m, ox, oy, i, j, x, y)
            },
            None => forall|i: int, j: int|
                0 <= i < n && in_grid(src, i, j) ==> !#[trigger] lands(m, ox, oy, i, j, x, y),
        }),
    decreases n,
{
    if n > 0 {
        lemma_last_source(m, ox, oy, src, x, y, n - 1);
        lemma_last_in_column(m, ox, oy, n - 1, x, y, src[n - 1].len() as int);
    }
}

/// Last wins: a destination cell on which source coordinates land holds the
/// sample of the one that comes last.
pub proof fn lemma_last_wins(
    m: AffineMatrix,
    ox: int,
    oy: int,
    src: Seq<Seq<Color>>,
    dst: Seq<Seq<Color>>,
    i: int,
    j: int,
    x: int,
    y: int,
)
    requires
        in_grid(src, i, j),
        in_grid(dst, x, y),
        lands(m, ox, oy, i, j, x, y),
        forall|p: int, q: int|
            in_grid(src, p, q) && comes_after(p, q, i, j) ==> !#[trigger] lands(
                m,
                ox,
                oy,
                p,
                q,
                x,
                y,
            ),
    ensures
        scattered(m, ox, oy, src, dst)[x][y] == src[i][j],
{
    lemma_last_source(m, ox, oy, src, x, y, src.len() as int);
}

/// Holes stay: a destination cell on which no source coordinate lands keeps
/// its value.
pub proof fn lemma_hole_keeps(
    m: AffineMatrix,
    ox: int,
    oy: int,
    src: Seq<Seq<Color>>,
    dst: Seq<Seq<Color>>,
    x: int,
    y: int,
)
    requires
        in_grid(dst, x, y),
        forall|p: int, q: int| in_grid(src, p, q) ==> !#[trigger] lands(m, ox, oy, p, q, x, y),
    ensures
        scattered(m, ox, oy, src, dst)[x][y] == dst[x][y],
{
    lemma_last_source(m, ox, oy, src, x, y, src.len() as int);
}

/// The forward map keeps the shape of the destination.
pub proof fn lemma_scattered_shape(
    m: AffineMatrix,
    ox: int,
    oy: int,
    src: Seq<Seq<Color>>,
    dst: Seq<Seq<Color>>,
)
    ensures
        scattered(m, ox, oy, src, dst).len() == dst.len(),
        forall|x: int, y: int|
            in_grid(scattered(m, ox, oy, src, dst), x, y) <==> #[trigger] in_grid(dst, x, y),
{
}

/// A translated sample is found where the shift puts it: the cell at
/// `(x + dx, y + dy)` holds the source sample at `(x, y)`.
pub proof fn lemma_translate_moves(
    src: Seq<Seq<Color>>,
    dst: Seq<Seq<Color>>,
    dx: i32,
    dy: i32,
    x: int,
    y: int,
)
    requires
        in_grid(src, x, y),
        in_grid(dst, x + dx, y + dy),
    ensures
        translated(src, dst, dx, dy)[x + dx][y + dy] == src[x][y],
{
    let m = translation(dx, dy);
    assert forall|p: int, q: int| #[trigger]
        lands(m, 0, 0, p, q, x + dx, y + dy) <==> p == x && q == y by {
        assert(m.x_of(p, q) == p + dx);
        assert(m.y_of(p, q) == q + dy);
    }
    lemma_last_wins(m, 0, 0, src, dst, x, y, x + dx, y + dy);
}

/// A translation leaves every cell that no source sample is shifted onto as
/// it was.
pub proof fn lemma_translate_keeps(
    src: Seq<Seq<Color>>,
    dst: Seq<Seq<Color>>,
    dx: i32,
    dy: i32,
    x: int,
    y: int,
)
    requires
        in_grid(dst, x, y),
        !in_grid(src, x - dx, y - dy),
    ensures
        translated(src, dst, dx, dy)[x][y] == dst[x][y],
{
    let m = translation(dx, dy);
    assert forall|p: int, q: int| in_grid(src, p, q) implies !#[trigger] lands(
        m,
        0,
        0,
        p,
        q,
        x,
        y,
    ) by {
        assert(m.x_of(p, q) == p + dx);
        assert(m.y_of(p, q) == q + dy);
    }
    lemma_hole_keeps(m, 0, 0, src, dst, x, y);
}

/// Scaling by one is the identity: with both factors equal to the unit, every
/// cell at a source coordinate holds the source sample of that coordinate.
pub proof fn lemma_scale_by_one(
    src: Seq<Seq<Color>>,
    dst: Seq<Seq<Color>>,
    unit: u32,
    x: int,
    y: int,
)
    requires
        0 < unit <= i32::MAX,
        in_grid(src, x, y),
        in_grid(dst, x, y),
    ensures
        scaled(src, dst, unit as i32, unit as i32, unit)[x][y] == src[x][y],
{
    let m = scaling(unit as i32, unit as i32, unit);
    assert forall|p: int, q: int| #[trigger] lands(m, 0, 0, p, q, x, y) <==> p == x && q == y by {
        vstd::arithmetic::div_mod::lemma_div_multiples_vanish(p, unit as int);
        vstd::arithmetic::div_mod::lemma_div_multiples_vanish(q, unit as int);
        assert(p * (unit as int) == (unit as int) * p) by (nonlinear_arith);
        assert(q * (unit as int) == (unit as int) * q) by (nonlinear_arith);
        assert(m.x_of(p, q) == p);
        assert(m.y_of(p, q) == q);
    }
    lemma_last_wins(m, 0, 0, src, dst, x, y, x, y);
}

/// A quarter turn, with the cosine rounded to 0 and the sine rounded to 1,
/// sends the source sample at `(x, y)` to the cell at `(side - y, side + x)`,
/// where `side` is the larger side of the source.
pub proof fn lemma_rotate_quarter_turn(src: Seq<Seq<Color>>, dst: Seq<Seq<Color>>, x: int, y: int)
    requires
        in_grid(src, x, y),
        in_grid(dst, larger_side(src) - y, larger_side(src) + x),
    ensures
        rotated(src, dst, 0, 1)[larger_side(src) - y][larger_side(src) + x] == src[x][y],
{
    let m = rotation(0, 1);
    let side = larger_side(src);
    assert(m.a == 0 && m.b == 1 && m.c == -1 && m.d == 0 && m.tx == 0 && m.ty == 0 && m.unit == 1);
    assert forall|p: int, q: int| #[trigger]
        lands(m, side, side, p, q, side - y, side + x) <==> p == x && q == y by {
        assert(m.x_of(p, q) == -q);
        assert(m.y_of(p, q) == p);
    }
    lemma_last_wins(m, side, side, src, dst, x, y, side - y, side + x);
}

/// The column that a flip sends column `x` of a source of `w` columns to.
pub open spec fn flip_x(direction: Direction, w: int, x: int) -> int {
    match direction {
        Direction::Vertical => x,
        Direction::Horizontal => w - x,
    }
}

/// The row that a flip sends row `y` of a source of `h` rows to.
pub open spec fn flip_y(direction: Direction, h: int, y: int) -> int {
    match direction {
        Direction::Vertical => h - y,
        Direction::Horizontal => y,
    }
}

/// A flipped sample is found at its mirror coordinate.
pub proof fn lemma_flip_moves(
    src: Seq<Seq<Color>>,
    dst: Seq<Seq<Color>>,
    direction: Direction,
    x: int,
    y: int,
)
    requires
        in_grid(src, x, y),
        in_grid(dst, flip_x(direction, src.len() as int, x), flip_y(direction, rows(src), y)),
    ensures
        flipped(src, dst, direction)[flip_x(direction, src.len() as int, x)][flip_y(
            direction,
            rows(src),
            y,
        )] == src[x][y],
{
    let m = mirror(direction);
    let tx = flip_x(direction, src.len() as int, x);
    let ty = flip_y(direction, rows(src), y);
    match direction {
        Direction::Vertical => {
            assert forall|p: int, q: int| #[trigger]
                lands(m, 0, rows(src), p, q, tx, ty) <==> p == x && q == y by {
                assert(m.x_of(p, q) == p);
                assert(m.y_of(p, q) == -q);
            }
            lemma_last_wins(m, 0, rows(src), src, dst, x, y, tx, ty);
        },
        Direction::Horizontal => {
            assert forall|p: int, q: int| #[trigger]
                lands(m, src.len() as int, 0, p, q, tx, ty) <==> p == x && q == y by {
                assert(m.x_of(p, q) == -p);
                assert(m.y_of(p, q) == q);
            }
            lemma_last_wins(m, src.len() as int, 0, src, dst, x, y, tx, ty);
        },
    }
}

/// Flipping twice along one axis restores the sample: when the flip of `src`
/// into `first` is read back as the grid `mid` of the same size and flipped
/// again into `second`, the cell at `(x, y)` holds the source sample of
/// `(x, y)`, for every coordinate that both flips keep inside the grids.
pub proof fn lemma_flip_twice(
    src: Seq<Seq<Color>>,
    first: Seq<Seq<Color>>,
    mid: Seq<Seq<Color>>,
    second: Seq<Seq<Color>>,
    direction: Direction,
    x: int,
    y: int,
)
    requires
        in_grid(src, x, y),
        mid.len() == src.len(),
        rows(mid) == rows(src),
        in_grid(first, flip_x(direction, src.len() as int, x), flip_y(direction, rows(src), y)),
        in_grid(mid, flip_x(direction, src.len() as int, x), flip_y(direction, rows(src), y)),
        mid[flip_x(direction, src.len() as int, x)][flip_y(direction, rows(src), y)] == flipped(
            src,
            first,
            direction,
        )[flip_x(direction, src.len() as int, x)][flip_y(direction, rows(src), y)],
        in_grid(second, x, y),
    ensures
        flipped(mid, second, direction)[x][y] == src[x][y],
{
    let tx = flip_x(direction, src.len() as int, x);
    let ty = flip_y(direction, rows(src), y);
    lemma_flip_moves(src, first, direction, x, y);
    assert(flip_x(direction, mid.len() as int, tx) == x);
    assert(flip_y(direction, rows(mid), ty) == y);
    lemma_flip_moves(mid, second, direction, tx, ty);
}

} // verus!

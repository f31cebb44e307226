//! Remaps of single samples, applied in place to every pixel of an image.

use crate::arith::floor_div;
use crate::buffer::{image_height, image_width, Image};
use crate::canvas::with_cell;
use crate::color::{clamp_channel, clamp_to_channel, gray, Color};
use vstd::prelude::*;

verus! {

/// What a point operation does to one sample.
#[derive(Clone, Copy, Debug, PartialEq, Eq, Structural)]
pub enum PointOp {
    /// Every channel becomes the gray level of the sample.
    Grayscale,
    /// Every channel is multiplied by `contrast / unit`, raised by
    /// `brightness` and limited to the channel range.
    Light { contrast: i32, unit: u32, brightness: i32 },
    /// Every channel is replaced by its distance from 255.
    Negative,
}

/// A channel after a contrast factor of `contrast / unit` and a brightness
/// shift: the product is rounded down, shifted, and limited to 0..=255.
pub open spec fn lit(contrast: i32, unit: u32, subpixel: u8, brightness: i32) -> u8 {
    clamp_channel((contrast * subpixel) / (unit as int) + brightness) as u8
}

impl PointOp {
    /// A contrast factor needs a unit other than zero.
    pub open spec fn wf(self) -> bool {
        self matches PointOp::Light { unit, .. } ==> unit > 0
    }

    /// The sample that the operation gives for a sample.
    pub open spec fn output(self, c: Color) -> Color {
        match self {
            PointOp::Grayscale => gray(c.level()),
            PointOp::Light { contrast, unit, brightness } => Color {
                r: lit(contrast, unit, c.r, brightness),
                g: lit(contrast, unit, c.g, brightness),
                b: lit(contrast, unit, c.b, brightness),
            },
            PointOp::Negative => Color {
                r: (255 - c.r) as u8,
                g: (255 - c.g) as u8,
                b: (255 - c.b) as u8,
            },
        }
    }

    /// Applies the operation to a sample.
    pub fn apply(&self, c: Color) -> (out: Color)
        requires
            self.wf(),
        ensures
            out == self.output(c),
    {
        match self {
            PointOp::Grayscale => Color::gray(c.gray_level()),
            PointOp::Light { contrast, unit, brightness } => Color {
                r: transform_light(*contrast, *unit, c.r, *brightness),
                g: transform_light(*contrast, *unit, c.g, *brightness),
                b: transform_light(*contrast, *unit, c.b, *brightness),
            },
            PointOp::Negative => Color { r: 255 - c.r, g: 255 - c.g, b: 255 - c.b },
        }
    }
}

/// One channel under a contrast factor of `contrast / unit` and a brightness
/// shift.
pub fn transform_light(contrast: i32, unit: u32, subpixel: u8, brightness: i32) -> (out: u8)
    requires
        unit > 0,
    ensures
        out == lit(contrast, unit, subpixel, brightness),
{
    assert(-0x80_0000_0000 <= contrast * subpixel <= 0x80_0000_0000) by (nonlinear_arith)
        requires
            -0x8000_0000 <= contrast <= 0x8000_0000,
            0 <= subpixel <= 255,
    ;
    let product: i128 = (contrast as i128) * (subpixel as i128);
    let scaled: i128 = floor_div(product, unit);
    assert(-0x80_0000_0000 <= scaled <= 0x80_0000_0000) by (nonlinear_arith)
        requires
            scaled as int == (product as int) / (unit as int),
            -0x80_0000_0000 <= product <= 0x80_0000_0000,
            unit >= 1,
    ;
    clamp_to_channel((scaled + brightness as i128) as i64)
}

/// A contrast factor of `contrast / unit`.
pub open spec fn contrast_by(contrast: i32, unit: u32) -> PointOp {
    PointOp::Light { contrast, unit, brightness: 0 }
}

/// A brightness shift.
pub open spec fn brightness_by(brightness: i32) -> PointOp {
    PointOp::Light { contrast: 1, unit: 1, brightness }
}

/// The image after a point operation: every sample is replaced by the
/// operation's output for it.
pub open spec fn remapped(g: Seq<Seq<Color>>, op: PointOp) -> Seq<Seq<Color>> {
    Seq::new(g.len(), |x: int| Seq::new(g[x].len(), |y: int| op.output(g[x][y])))
}

/// The image after the samples that come before `(cx, cy)`, column by
/// column, have been remapped.
pub open spec fn remapped_before(g: Seq<Seq<Color>>, op: PointOp, cx: int, cy: int) -> Seq<
    Seq<Color>,
> {
    Seq::new(
        g.len(),
        |x: int|
            Seq::new(
                g[x].len(),
                |y: int|
                    if x < cx || (x == cx && y < cy) {
                        op.output(g[x][y])
                    } else {
                        g[x][y]
                    },
            ),
    )
}

/// Applies a point operation to every pixel of the image.
pub fn remap(img: &mut Image, op: &PointOp)
    requires
        op.wf(),
    ensures
        image_width(*final(img)) == image_width(*old(img)),
        image_height(*final(img)) == image_height(*old(img)),
        final(img)@ == remapped(old(img)@, *op),
{
    let width: u32 = img.width();
    let height: u32 = img.height();
    let ghost g = img@;
    assert(img@ =~~= remapped_before(g, *op, 0, 0));
    let mut i: u32 = 0;
    while i < width
        invariant
            i <= width,
            width == image_width(*img),
            height == image_height(*img),
            width == image_width(*old(img)),
            height == image_height(*old(img)),
            g == old(img)@,
            op.wf(),
            img@ == remapped_before(g, *op, i as int, 0),
        decreases width - i,
    {
        let mut j: u32 = 0;
        while j < height
            invariant
                i < width,
                j <= height,
                width == image_width(*img),
                height == image_height(*img),
                width == image_width(*old(img)),
                height == image_height(*old(img)),
                g == old(img)@,
                op.wf(),
                img@ == remapped_before(g, *op, i as int, j as int),
            decreases height - j,
        {
            let pixel: Color = img.pixel(i, j);
            let new_pixel: Color = op.apply(pixel);
            let ghost before = img@;
            img.put(i, j, new_pixel);
            assert(img@ == with_cell(before, i as int, j as int, new_pixel));
            assert(img@ =~~= remapped_before(g, *op, i as int, j + 1));
            j = j + 1;
        }
        assert(img@ =~~= remapped_before(g, *op, i + 1, 0));
        i = i + 1;
    }
    assert(img@ =~~= remapped(g, *op));
}

/// Replaces every pixel by the gray sample of its gray level.
pub fn grayscale(img: &mut Image)
    ensures
        image_width(*final(img)) == image_width(*old(img)),
        image_height(*final(img)) == image_height(*old(img)),
        final(img)@ == remapped(old(img)@, PointOp::Grayscale),
{
    remap(img, &PointOp::Grayscale);
}

/// Multiplies every channel by `value / unit`.
pub fn contrast(img: &mut Image, value: i32, unit: u32)
    requires
        unit > 0,
    ensures
        image_width(*final(img)) == image_width(*old(img)),
        image_height(*final(img)) == image_height(*old(img)),
        final(img)@ == remapped(old(img)@, contrast_by(value, unit)),
{
    remap(img, &PointOp::Light { contrast: value, unit, brightness: 0 });
}

/// Raises every channel by `value`.
pub fn brightness(img: &mut Image, value: i32)
    ensures
        image_width(*final(img)) == image_width(*old(img)),
        image_height(*final(img)) == image_height(*old(img)),
        final(img)@ == remapped(old(img)@, brightness_by(value)),
{
    remap(img, &PointOp::Light { contrast: 1, unit: 1, brightness: value });
}

/// Inverts every channel.
pub fn negative(img: &mut Image)
    ensures
        image_width(*final(img)) == image_width(*old(img)),
        image_height(*final(img)) == image_height(*old(img)),
        final(img)@ == remapped(old(img)@, PointOp::Negative),
{
    remap(img, &PointOp::Negative);
}

} // verus!

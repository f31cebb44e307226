//! The image buffer of the `image` crate, as the library sees it.
//!
//! Everything that the verifier takes on trust about the `image` crate is in
//! this file: the buffer type, the three names for what a buffer holds, and
//! one private wrapper per method that the library calls.

use crate::color::{black, Color};
use vstd::prelude::*;

verus! {

/// An 8-bit RGB image buffer (`image::RgbImage`). Opaque to the verifier.
#[verifier::external_body]
pub struct Image {
    buffer: image::RgbImage,
}

/// The width that the buffer reports.
pub uninterp spec fn image_width(img: Image) -> u32;

/// The height that the buffer reports.
pub uninterp spec fn image_height(img: Image) -> u32;

/// The channels (red, green, blue) of the pixel at each coordinate `(x, y)`.
pub uninterp spec fn image_samples(img: Image) -> Map<(int, int), (u8, u8, u8)>;

/// The sample made of a triple of channels.
pub open spec fn color_of(t: (u8, u8, u8)) -> Color {
    Color { r: t.0, g: t.1, b: t.2 }
}

impl View for Image {
    type V = Seq<Seq<Color>>;

    /// The image as a grid: `self@[x][y]` is the sample at column `x`, row `y`.
    open spec fn view(&self) -> Seq<Seq<Color>> {
        Seq::new(
            image_width(*self) as nat,
            |x: int|
                Seq::new(
                    image_height(*self) as nat,
                    |y: int| color_of(image_samples(*self)[(x, y)]),
                ),
        )
    }
}

/// `ImageBuffer::dimensions`: the width and height that the buffer was made
/// with.
#[verifier::external_body]
fn buffer_dimensions(img: &Image) -> (d: (u32, u32))
    ensures
        d.0 == image_width(*img),
        d.1 == image_height(*img),
{
    img.buffer.dimensions()
}

/// `ImageBuffer::get_pixel`: the pixel stored at `(x, y)`. The method panics
/// outside the buffer's bounds, so those coordinates are left out.
#[verifier::external_body]
fn buffer_get(img: &Image, x: u32, y: u32) -> (c: Color)
    requires
        x < image_width(*img),
        y < image_height(*img),
    ensures
        c == color_of(image_samples(*img)[(x as int, y as int)]),
{
    let image::Rgb(channels) = *img.buffer.get_pixel(x, y);
    Color { r: channels[0], g: channels[1], b: channels[2] }
}

/// `ImageBuffer::put_pixel`: overwrites the pixel at `(x, y)` and nothing
/// else; the dimensions stay. The method panics outside the buffer's bounds,
/// so those coordinates are left out.
#[verifier::external_body]
fn buffer_put(img: &mut Image, x: u32, y: u32, c: Color)
    requires
        x < image_width(*old(img)),
        y < image_height(*old(img)),
    ensures
        image_width(*final(img)) == image_width(*old(img)),
        image_height(*final(img)) == image_height(*old(img)),
        image_samples(*final(img)) == image_samples(*old(img)).insert(
            (x as int, y as int),
            (c.r, c.g, c.b),
        ),
{
    img.buffer.put_pixel(x, y, image::Rgb([c.r, c.g, c.b]));
}

/// `ImageBuffer::new`: a buffer of the given dimensions whose every channel
/// is zero. The method panics when the three channels of all pixels do not
/// fit a vector, so those dimensions are left out.
#[verifier::external_body]
fn buffer_new(width: u32, height: u32) -> (img: Image)
    requires
        3 * (width * height) <= isize::MAX,
    ensures
        image_width(img) == width,
        image_height(img) == height,
        forall|x: int, y: int|
            0 <= x < width && 0 <= y < height ==> #[trigger] image_samples(img)[(x, y)] == (
                0u8,
                0u8,
                0u8,
            ),
{
    Image { buffer: image::RgbImage::new(width, height) }
}

/// Whether the channels of an image of these dimensions fit in one vector.
pub open spec fn fits_in_memory(width: int, height: int) -> bool {
    3 * (width * height) <= isize::MAX
}

impl Image {
    /// An all-black image, or `None` when the dimensions do not fit in memory.
    pub fn new(width: u32, height: u32) -> (r: Option<Image>)
        ensures
            r.is_some() <==> fits_in_memory(width as int, height as int),
            r matches Some(img) ==> ({
                &&& image_width(img) == width
                &&& image_height(img) == height
                &&& forall|x: int, y: int|
                    0 <= x < width && 0 <= y < height ==> #[trigger] img@[x][y] == black()
            }),
    {
        assert(width * height <= 0xFFFF_FFFF * 0xFFFF_FFFF) by (nonlinear_arith)
            requires
                width <= 0xFFFF_FFFF,
                height <= 0xFFFF_FFFF,
        ;
        let area: u128 = (width as u128) * (height as u128);
        let size: u128 = 3 * area;
        if size <= isize::MAX as u128 {
            let img = buffer_new(width, height);
            Some(img)
        } else {
            None
        }
    }

    /// The number of columns.
    pub fn width(&self) -> (w: u32)
        ensures
            w == self@.len(),
            w == image_width(*self),
    {
        let d: (u32, u32) = buffer_dimensions(self);
        d.0
    }

    /// The number of rows.
    pub fn height(&self) -> (h: u32)
        ensures
            h == image_height(*self),
            forall|x: int| 0 <= x < self@.len() ==> (#[trigger] self@[x]).len() == h,
    {
        let d: (u32, u32) = buffer_dimensions(self);
        d.1
    }

    /// The sample at `(x, y)`, or `None` outside the image.
    pub fn get(&self, x: u32, y: u32) -> (r: Option<Color>)
        ensures
            r == (if x < image_width(*self) && y < image_height(*self) {
                Some(self@[x as int][y as int])
            } else {
                None
            }),
    {
        let d: (u32, u32) = buffer_dimensions(self);
        if x < d.0 && y < d.1 {
            Some(buffer_get(self, x, y))
        } else {
            None
        }
    }

    /// Overwrites the sample at `(x, y)` and says so, or leaves the image as
    /// it is where the coordinate is outside.
    pub fn set(&mut self, x: u32, y: u32, c: Color) -> (done: bool)
        ensures
            done == (x < image_width(*old(self)) && y < image_height(*old(self))),
            image_width(*final(self)) == image_width(*old(self)),
            image_height(*final(self)) == image_height(*old(self)),
            final(self)@ == (if done {
                old(self)@.update(x as int, old(self)@[x as int].update(y as int, c))
            } else {
                old(self)@
            }),
            !done ==> *final(self) == *old(self),
    {
        let d: (u32, u32) = buffer_dimensions(self);
        if x < d.0 && y < d.1 {
            self.put(x, y, c);
            true
        } else {
            false
        }
    }

    /// The sample at a coordinate inside the image.
    pub(crate) fn pixel(&self, x: u32, y: u32) -> (c: Color)
        requires
            x < image_width(*self),
            y < image_height(*self),
        ensures
            c == self@[x as int][y as int],
    {
        buffer_get(self, x, y)
    }

    /// Overwrites the sample at a coordinate inside the image.
    pub(crate) fn put(&mut self, x: u32, y: u32, c: Color)
        requires
            x < image_width(*old(self)),
            y < image_height(*old(self)),
        ensures
            image_width(*final(self)) == image_width(*old(self)),
            image_height(*final(self)) == image_height(*old(self)),
            final(self)@ == old(self)@.update(x as int, old(self)@[x as int].update(y as int, c)),
    {
        buffer_put(self, x, y, c);
        assert(self@ =~~= old(self)@.update(x as int, old(self)@[x as int].update(y as int, c)));
    }
}

} // verus!

//! The image type that pixels are written to and sampled from.
//!
//! A [`Canvas`] keeps its pixels in an `image::RgbaImage`. Verus cannot look
//! inside that type, so this module names what such an image holds and
//! states, without proof, what each method used by the rasterizer does to it.
//! Everything else in the crate is proved on top of these statements.

use vstd::prelude::*;
use image::{Rgba, RgbaImage};
use crate::color::Color;

verus! {

/// An RGBA image: a grid of `width * height` colours, addressed by column
/// `x` and row `y`.
///
/// The pixels live in an `image::RgbaImage`; the verifier treats the whole
/// value as opaque and knows it only through [`width_of`], [`height_of`] and
/// [`pixels_of`].
#[verifier::external_body]
pub struct Canvas {
    image: RgbaImage,
}

/// The number of pixel columns of an image, as `ImageBuffer::width` reports it.
pub uninterp spec fn width_of(img: Canvas) -> nat;

/// The number of pixel rows of an image, as `ImageBuffer::height` reports it.
pub uninterp spec fn height_of(img: Canvas) -> nat;

/// The colours an image holds: the map from each coordinate `(x, y)` with
/// `x < width_of(img)` and `y < height_of(img)` to the pixel stored there.
pub uninterp spec fn pixels_of(img: Canvas) -> Map<(int, int), Color>;

/// `ImageBuffer::from_pixel`: a new image of the given size in which every
/// pixel has the four channels of `c`. The call panics when the byte length
/// `4 * width * height` does not fit in `usize`, which the precondition
/// rules out.
#[verifier::external_body]
pub(crate) fn image_from_pixel(width: u32, height: u32, c: Color) -> (img: Canvas)
    requires
        4 * width * height <= usize::MAX,
    ensures
        width_of(img) == width,
        height_of(img) == height,
        forall|x: int, y: int|
            0 <= x < width && 0 <= y < height ==> #[trigger] pixels_of(img)[(x, y)] == c,
{
    Canvas { image: RgbaImage::from_pixel(width, height, Rgba([c.r, c.g, c.b, c.a])) }
}

/// `ImageBuffer::width`: the width the image was made with.
#[verifier::external_body]
pub(crate) fn image_width(img: &Canvas) -> (w: u32)
    ensures
        w == width_of(*img),
{
    img.image.width()
}

/// `ImageBuffer::height`: the height the image was made with.
#[verifier::external_body]
pub(crate) fn image_height(img: &Canvas) -> (h: u32)
    ensures
        h == height_of(*img),
{
    img.image.height()
}

/// `ImageBuffer::get_pixel`: the four channels stored at `(x, y)`. The call
/// panics outside the image, which the precondition rules out.
#[verifier::external_body]
pub(crate) fn get_pixel(img: &Canvas, x: u32, y: u32) -> (c: Color)
    requires
        x < width_of(*img),
        y < height_of(*img),
    ensures
        c == pixels_of(*img)[(x as int, y as int)],
{
    let p = img.image.get_pixel(x, y);
    Color { r: p.0[0], g: p.0[1], b: p.0[2], a: p.0[3] }
}

/// `ImageBuffer::put_pixel`: stores the four channels at `(x, y)` and leaves
/// the size and every other pixel as they were. The call panics outside the
/// image, which the precondition rules out.
#[verifier::external_body]
pub(crate) fn put_pixel(img: &mut Canvas, x: u32, y: u32, c: Color)
    requires
        x < width_of(*old(img)),
        y < height_of(*old(img)),
    ensures
        width_of(*final(img)) == width_of(*old(img)),
        height_of(*final(img)) == height_of(*old(img)),
        pixels_of(*final(img)) == pixels_of(*old(img)).insert((x as int, y as int), c),
{
    img.image.put_pixel(x, y, Rgba([c.r, c.g, c.b, c.a]));
}

/// `imageops::flip_vertical_in_place`: swaps row `y` with row
/// `height - 1 - y` for every row, keeping the size.
#[verifier::external_body]
pub(crate) fn flip_vertical_in_place(img: &mut Canvas)
    ensures
        width_of(*final(img)) == width_of(*old(img)),
        height_of(*final(img)) == height_of(*old(img)),
        forall|x: int, y: int|
            0 <= x < width_of(*old(img)) && 0 <= y < height_of(*old(img)) ==> #[trigger] pixels_of(
                *final(img),
            )[(x, y)] == pixels_of(*old(img))[(x, height_of(*old(img)) - 1 - y)],
{
    image::imageops::flip_vertical_in_place(&mut img.image);
}

/// What a [`Canvas`] is to the specifications: its size and its pixels.
pub struct Picture {
    pub width: nat,
    pub height: nat,
    pub pixels: Map<(int, int), Color>,
}

impl Picture {
    /// Whether `(x, y)` addresses a pixel of the picture.
    pub open spec fn contains(self, x: int, y: int) -> bool {
        0 <= x < self.width && 0 <= y < self.height
    }

    /// The colour at `(x, y)`.
    pub open spec fn at(self, x: int, y: int) -> Color {
        self.pixels[(x, y)]
    }

    /// The picture with the pixel at `(x, y)` replaced by `c`.
    pub open spec fn with_pixel(self, x: int, y: int, c: Color) -> Picture {
        Picture { pixels: self.pixels.insert((x, y), c), ..self }
    }
}

impl View for Canvas {
    type V = Picture;

    open spec fn view(&self) -> Picture {
        Picture { width: width_of(*self), height: height_of(*self), pixels: pixels_of(*self) }
    }
}

impl Canvas {
    /// A canvas of the given size with every pixel set to `color`, or `None`
    /// when its `4 * width * height` bytes cannot be addressed on this
    /// machine.
    pub fn filled(width: u32, height: u32, color: Color) -> (out: Option<Canvas>)
        ensures
            out is Some <==> 4 * width * height <= usize::MAX,
            out matches Some(c) ==> {
                &&& c@.width == width
                &&& c@.height == height
                &&& forall|x: int, y: int| c@.contains(x, y) ==> #[trigger] c@.at(x, y) == color
            },
    {
        assert(0 <= width * height <= 0xffff_ffff * 0xffff_ffff) by (nonlinear_arith)
            requires
                0 <= width <= 0xffff_ffff,
                0 <= height <= 0xffff_ffff,
        ;
        let area: u64 = (width as u64) * (height as u64);
        let bytes: u128 = 4 * (area as u128);
        assert(bytes == 4 * width * height) by (nonlinear_arith)
            requires
                bytes == 4 * (width * height),
        ;
        if bytes <= usize::MAX as u128 {
            Some(image_from_pixel(width, height, color))
        } else {
            None
        }
    }

    /// The number of pixel columns.
    pub fn width(&self) -> (w: u32)
        ensures
            w == self@.width,
    {
        image_width(self)
    }

    /// The number of pixel rows.
    pub fn height(&self) -> (h: u32)
        ensures
            h == self@.height,
    {
        image_height(self)
    }

    /// The colour at `(x, y)`, or `None` outside the canvas.
    pub fn get(&self, x: u32, y: u32) -> (out: Option<Color>)
        ensures
            out == if self@.contains(x as int, y as int) {
                Some(self@.at(x as int, y as int))
            } else {
                None
            },
    {
        if x < image_width(self) && y < image_height(self) {
            Some(get_pixel(self, x, y))
        } else {
            None
        }
    }

    /// Stores `color` at `(x, y)`. Outside the canvas nothing is stored and
    /// `false` is returned.
    pub fn set(&mut self, x: u32, y: u32, color: Color) -> (stored: bool)
        ensures
            stored == old(self)@.contains(x as int, y as int),
            final(self)@ == if stored {
                old(self)@.with_pixel(x as int, y as int, color)
            } else {
                old(self)@
            },
    {
        if x < image_width(self) && y < image_height(self) {
            put_pixel(self, x, y, color);
            true
        } else {
            false
        }
    }

    /// Turns the canvas upside down: afterwards row `y` holds what row
    /// `height - 1 - y` held before.
    pub fn flip_vertical(&mut self)
        ensures
            final(self)@.width == old(self)@.width,
            final(self)@.height == old(self)@.height,
            forall|x: int, y: int|
                old(self)@.contains(x, y) ==> #[trigger] final(self)@.at(x, y) == old(self)@.at(
                    x,
                    old(self)@.height - 1 - y,
                ),
    {
        flip_vertical_in_place(self);
    }
}

} // verus!

//! The picture that a scene is drawn on: an RGB image buffer of the `image`
//! crate.

use crate::blocks::Rgb8;
use vstd::prelude::*;

verus! {

/// A picture of eight bits per channel, held in an `image::RgbImage`.
#[verifier::external_body]
pub struct Canvas {
    buffer: image::RgbImage,
}

/// The colour at each position `(x, y)` of a picture, as red, green and blue.
pub uninterp spec fn canvas_pixels(canvas: Canvas) -> Map<(int, int), (u8, u8, u8)>;

/// The width and the height of a picture.
pub uninterp spec fn canvas_size(canvas: Canvas) -> (int, int);

/// `image::ImageBuffer::new`: a picture of the given size in which every
/// position is black. The outside function panics where the number of bytes,
/// three for each position, exceeds what a vector can hold.
#[verifier::external_body]
pub(crate) fn blank_canvas(width: u32, height: u32) -> (canvas: Canvas)
    requires
        3 * width * height <= isize::MAX,
    ensures
        canvas_size(canvas) == (width as int, height as int),
        forall|x: int, y: int|
            0 <= x < width && 0 <= y < height ==> #[trigger] canvas_pixels(canvas)[(x, y)] == (
                0u8,
                0u8,
                0u8,
            ),
{
    Canvas { buffer: image::ImageBuffer::new(width, height) }
}

/// `image::ImageBuffer::put_pixel`: the colour at `(x, y)` is replaced and
/// every other position stays as it was. The outside function panics where
/// the position lies outside the picture.
#[verifier::external_body]
pub(crate) fn put_pixel(canvas: &mut Canvas, x: u32, y: u32, pixel: Rgb8)
    requires
        x < canvas_size(*old(canvas)).0,
        y < canvas_size(*old(canvas)).1,
    ensures
        canvas_size(*final(canvas)) == canvas_size(*old(canvas)),
        canvas_pixels(*final(canvas)) == canvas_pixels(*old(canvas)).insert(
            (x as int, y as int),
            (pixel.r, pixel.g, pixel.b),
        ),
{
    canvas.buffer.put_pixel(x, y, image::Rgb([pixel.r, pixel.g, pixel.b]))
}

/// `image::ImageBuffer::get_pixel`: the colour at `(x, y)`. The outside
/// function panics where the position lies outside the picture.
#[verifier::external_body]
fn get_pixel(canvas: &Canvas, x: u32, y: u32) -> (pixel: Rgb8)
    requires
        x < canvas_size(*canvas).0,
        y < canvas_size(*canvas).1,
    ensures
        (pixel.r, pixel.g, pixel.b) == canvas_pixels(*canvas)[(x as int, y as int)],
{
    let p = canvas.buffer.get_pixel(x, y);
    Rgb8 { r: p.0[0], g: p.0[1], b: p.0[2] }
}

/// `image::ImageBuffer::dimensions`: the width and the height.
#[verifier::external_body]
fn dimensions(canvas: &Canvas) -> (size: (u32, u32))
    ensures
        (size.0 as int, size.1 as int) == canvas_size(*canvas),
{
    canvas.buffer.dimensions()
}

impl Canvas {
    /// The number of columns.
    pub fn width(&self) -> (w: u32)
        ensures
            w == canvas_size(*self).0,
    {
        dimensions(self).0
    }

    /// The number of rows.
    pub fn height(&self) -> (h: u32)
        ensures
            h == canvas_size(*self).1,
    {
        dimensions(self).1
    }

    /// The colour at column `x` of row `y`; `None` outside the picture.
    pub fn pixel_at(&self, x: u32, y: u32) -> (pixel: Option<Rgb8>)
        ensures
            pixel is Some <==> x < canvas_size(*self).0 && y < canvas_size(*self).1,
            pixel matches Some(p) ==> (p.r, p.g, p.b) == canvas_pixels(*self)[(x as int, y as int)],
    {
        let (w, h) = dimensions(self);
        if x < w && y < h {
            Some(get_pixel(self, x, y))
        } else {
            None
        }
    }
}

} // verus!

//! Grids of RGBA pixels, kept in the buffer type of the `image` crate.
//!
//! The verifier does not look inside that buffer. What it knows of a grid
//! are three values, its width, its height and its samples, and what the
//! functions at the top of this file state of the buffer's methods in terms
//! of those three. Every other function here is proved from them.

use crate::colour_delta::Pixel;
use vstd::prelude::*;

verus! {

/// An image of 8-bit RGBA pixels, held as an `image::RgbaImage`. Its samples
/// lie row by row, four to a pixel, in the order red, green, blue, alpha.
#[verifier::external_body]
#[derive(Debug)]
pub struct PixelGrid {
    buffer: image::RgbaImage,
}

/// The number of pixels in a row of the grid.
pub uninterp spec fn grid_width(grid: PixelGrid) -> u32;

/// The number of rows of the grid.
pub uninterp spec fn grid_height(grid: PixelGrid) -> u32;

/// The samples that the grid's buffer holds, in storage order.
pub uninterp spec fn grid_samples(grid: PixelGrid) -> Seq<u8>;

/// Where the first sample of the pixel `(x, y)` lies in a grid `width`
/// pixels wide.
pub open spec fn sample_offset(width: int, x: int, y: int) -> int {
    4 * (y * width + x)
}

/// The pixel made of the four samples that start at `offset`.
pub open spec fn pixel_from(samples: Seq<u8>, offset: int) -> Pixel {
    Pixel {
        r: samples[offset],
        g: samples[offset + 1],
        b: samples[offset + 2],
        a: samples[offset + 3],
    }
}

/// The samples with the four that start at `offset` replaced by `pixel`.
pub open spec fn with_pixel(samples: Seq<u8>, offset: int, pixel: Pixel) -> Seq<u8> {
    samples.update(offset, pixel.r).update(offset + 1, pixel.g).update(
        offset + 2,
        pixel.b,
    ).update(offset + 3, pixel.a)
}

/// The pixel of the grid at column `x` and row `y`.
pub open spec fn pixel_at(grid: PixelGrid, x: int, y: int) -> Pixel {
    pixel_from(grid_samples(grid), sample_offset(grid_width(grid) as int, x, y))
}

/// Calls `image::ImageBuffer::from_raw`. The buffer is made exactly when the
/// sample count of a `width` by `height` image fits the machine and
/// `samples` holds at least that many; it then keeps the given width,
/// height and samples.
#[verifier::external_body]
fn buffer_from_raw(width: u32, height: u32, samples: Vec<u8>) -> (made: Option<PixelGrid>)
    ensures
        made.is_some() <==> (4 * width <= usize::MAX && 4 * width * height <= samples@.len()),
        made matches Some(grid) ==> {
            &&& grid_width(grid) == width
            &&& grid_height(grid) == height
            &&& grid_samples(grid) == samples@
        },
{
    match image::RgbaImage::from_raw(width, height, samples) {
        Some(buffer) => Some(PixelGrid { buffer }),
        None => None,
    }
}

/// Calls `image::ImageBuffer::dimensions`. Every image was made with a
/// sample count that fits the machine, its buffer holds the samples of all
/// its pixels, and a vector never holds more than `isize::MAX` bytes.
#[verifier::external_body]
fn buffer_dimensions(grid: &PixelGrid) -> (size: (u32, u32))
    ensures
        size.0 == grid_width(*grid),
        size.1 == grid_height(*grid),
        4 * size.0 <= usize::MAX,
        4 * size.0 * size.1 <= grid_samples(*grid).len() <= isize::MAX,
{
    grid.buffer.dimensions()
}

/// Calls `image::ImageBuffer::new`, which makes an image whose samples are
/// all zero. It gives up where the sample count is more than a vector can
/// hold, which the precondition rules out.
#[verifier::external_body]
pub(crate) fn buffer_new(width: u32, height: u32) -> (grid: PixelGrid)
    requires
        4 * width <= usize::MAX,
        4 * width * height <= isize::MAX,
    ensures
        grid_width(grid) == width,
        grid_height(grid) == height,
        grid_samples(grid) == Seq::new((4 * width * height) as nat, |i: int| 0u8),
{
    PixelGrid { buffer: image::RgbaImage::new(width, height) }
}

/// Calls `image::ImageBuffer::get_pixel`, which reads the four samples of
/// the pixel `(x, y)` and stops the program for a coordinate outside the
/// image.
#[verifier::external_body]
pub(crate) fn buffer_get(grid: &PixelGrid, x: u32, y: u32) -> (pixel: Pixel)
    requires
        x < grid_width(*grid),
        y < grid_height(*grid),
    ensures
        pixel == pixel_at(*grid, x as int, y as int),
{
    let samples = grid.buffer.get_pixel(x, y).0;
    Pixel { r: samples[0], g: samples[1], b: samples[2], a: samples[3] }
}

/// Calls `image::ImageBuffer::put_pixel`, which overwrites the four samples
/// of the pixel `(x, y)`, leaves every other sample and the size as they
/// were, and stops the program for a coordinate outside the image.
#[verifier::external_body]
pub(crate) fn buffer_put(grid: &mut PixelGrid, x: u32, y: u32, pixel: Pixel)
    requires
        x < grid_width(*old(grid)),
        y < grid_height(*old(grid)),
    ensures
        grid_width(*final(grid)) == grid_width(*old(grid)),
        grid_height(*final(grid)) == grid_height(*old(grid)),
        grid_samples(*final(grid)) == with_pixel(
            grid_samples(*old(grid)),
            sample_offset(grid_width(*old(grid)) as int, x as int, y as int),
            pixel,
        ),
{
    grid.buffer.put_pixel(x, y, image::Rgba([pixel.r, pixel.g, pixel.b, pixel.a]));
}

/// Calls `image::ImageBuffer::into_raw`, which hands out the samples of the
/// buffer.
#[verifier::external_body]
fn buffer_into_raw(grid: PixelGrid) -> (samples: Vec<u8>)
    ensures
        samples@ == grid_samples(grid),
{
    grid.buffer.into_raw()
}

impl PixelGrid {
    /// Makes a grid of the given size over `samples`. There is none when
    /// `samples` holds fewer than `4 * width * height` values.
    pub fn from_raw(width: u32, height: u32, samples: Vec<u8>) -> (made: Option<PixelGrid>)
        ensures
            made.is_some() <==> (4 * width <= usize::MAX && 4 * width * height <= samples@.len()),
            made matches Some(grid) ==> {
                &&& grid_width(grid) == width
                &&& grid_height(grid) == height
                &&& grid_samples(grid) == samples@
            },
    {
        buffer_from_raw(width, height, samples)
    }

    /// The width and the height of the grid, in pixels.
    pub fn dimensions(&self) -> (size: (u32, u32))
        ensures
            size.0 == grid_width(*self),
            size.1 == grid_height(*self),
            4 * size.0 <= usize::MAX,
            4 * size.0 * size.1 <= grid_samples(*self).len() <= isize::MAX,
    {
        buffer_dimensions(self)
    }

    /// The pixel at column `x` and row `y`, if the grid has one there.
    pub fn get_pixel(&self, x: u32, y: u32) -> (found: Option<Pixel>)
        ensures
            found == if x < grid_width(*self) && y < grid_height(*self) {
                Some(pixel_at(*self, x as int, y as int))
            } else {
                None
            },
    {
        let (width, height) = buffer_dimensions(self);
        if x < width && y < height {
            Some(buffer_get(self, x, y))
        } else {
            None
        }
    }

    /// The samples of the grid, in storage order.
    pub fn into_raw(self) -> (samples: Vec<u8>)
        ensures
            samples@ == grid_samples(self),
    {
        buffer_into_raw(self)
    }
}

/// The two coordinates of a pixel can be read off the place of its samples:
/// inside a grid, distinct pixels have sample runs that do not meet, and
/// each run lies inside the samples of the grid.
pub proof fn lemma_sample_offsets(width: int, height: int, x1: int, y1: int, x2: int, y2: int)
    requires
        0 <= x1 < width,
        0 <= y1 < height,
        0 <= x2 < width,
        0 <= y2 < height,
    ensures
        0 <= sample_offset(width, x1, y1),
        sample_offset(width, x1, y1) + 4 <= 4 * width * height,
        (x1, y1) != (x2, y2) ==> sample_offset(width, x1, y1) + 4 <= sample_offset(width, x2, y2)
            || sample_offset(width, x2, y2) + 4 <= sample_offset(width, x1, y1),
{
    assert(0 <= y1 * width && (y1 + 1) * width <= height * width) by (nonlinear_arith)
        requires
            0 <= y1 < height,
            0 <= width,
    ;
    assert((y1 + 1) * width == y1 * width + width) by (nonlinear_arith);
    assert(4 * width * height == 4 * (height * width)) by (nonlinear_arith);
    if y1 < y2 {
        assert((y1 + 1) * width <= y2 * width) by (nonlinear_arith)
            requires
                y1 + 1 <= y2,
                0 <= width,
        ;
    }
    if y2 < y1 {
        assert((y2 + 1) * width <= y1 * width) by (nonlinear_arith)
            requires
                y2 + 1 <= y1,
                0 <= width,
        ;
        assert((y2 + 1) * width == y2 * width + width) by (nonlinear_arith);
    }
}

/// Each of the first `4 * width * height` samples of a grid belongs to one
/// of its pixels: the sample at `index` is one of the four of the pixel in
/// column `(index / 4) % width` and row `(index / 4) / width`.
pub proof fn lemma_sample_belongs_to_pixel(width: int, height: int, index: int)
    requires
        0 <= width,
        0 <= height,
        0 <= index < 4 * width * height,
    ensures
        0 <= (index / 4) % width < width,
        0 <= (index / 4) / width < height,
        sample_offset(width, (index / 4) % width, (index / 4) / width) == 4 * (index / 4),
        4 * (index / 4) <= index < 4 * (index / 4) + 4,
{
    let pixel = index / 4;
    assert(4 * width * height == 4 * (width * height)) by (nonlinear_arith);
    assert(width > 0) by (nonlinear_arith)
        requires
            0 <= width,
            0 < 4 * (width * height),
    ;
    vstd::arithmetic::div_mod::lemma_fundamental_div_mod(pixel, width);
    vstd::arithmetic::div_mod::lemma_mod_pos_bound(pixel, width);
    vstd::arithmetic::div_mod::lemma_div_pos_is_pos(pixel, width);
    vstd::arithmetic::div_mod::lemma_multiply_divide_lt(pixel, width, height);
    assert((pixel / width) * width == width * (pixel / width)) by (nonlinear_arith);
}

/// Writing one pixel of a grid changes that pixel and no other.
pub proof fn lemma_with_pixel(
    samples: Seq<u8>,
    width: int,
    height: int,
    x: int,
    y: int,
    pixel: Pixel,
)
    requires
        0 <= x < width,
        0 <= y < height,
        4 * width * height <= samples.len(),
    ensures
        with_pixel(samples, sample_offset(width, x, y), pixel).len() == samples.len(),
        pixel_from(
            with_pixel(samples, sample_offset(width, x, y), pixel),
            sample_offset(width, x, y),
        ) == pixel,
        forall|x2: int, y2: int|
            0 <= x2 < width && 0 <= y2 < height && (x2, y2) != (x, y) ==> #[trigger] pixel_from(
                with_pixel(samples, sample_offset(width, x, y), pixel),
                sample_offset(width, x2, y2),
            ) == pixel_from(samples, sample_offset(width, x2, y2)),
{
    lemma_sample_offsets(width, height, x, y, x, y);
    assert forall|x2: int, y2: int|
        0 <= x2 < width && 0 <= y2 < height && (x2, y2) != (x, y) implies #[trigger] pixel_from(
        with_pixel(samples, sample_offset(width, x, y), pixel),
        sample_offset(width, x2, y2),
    ) == pixel_from(samples, sample_offset(width, x2, y2)) by {
        lemma_sample_offsets(width, height, x, y, x2, y2);
        lemma_sample_offsets(width, height, x2, y2, x, y);
    }
}

} // verus!

//! The compositor: scans two images and paints the pixels that differ.
//!
//! The threshold and the fade factor of a comparison are fractions, counted
//! in units of 10^-8: a threshold of 0.1 is written 10 000 000.

use crate::colour_delta::{calculate_pixel_colour_delta, delta_between, luma, rgb2y, Pixel};
use crate::grid::{
    buffer_get, buffer_new, buffer_put, grid_height, grid_samples, grid_width,
    lemma_sample_belongs_to_pixel, lemma_sample_offsets, lemma_with_pixel, pixel_at, pixel_from,
    sample_offset, with_pixel, PixelGrid,
};
use crate::viewport::{
    in_region, is_past_viewport, is_within_viewport, lemma_bounds_select_region,
    lemma_nothing_within_once_past, normalise_viewport, past_bounds, scanned_from, viewport_valid,
    within_bounds,
};
use vstd::prelude::*;

verus! {

/// What a comparison is to do.
#[derive(Clone, Copy, Debug)]
pub struct CompareOptions {
    /// How far apart two colours may be before they count as different, as a
    /// fraction of the widest distance, in units of 10^-8. Smaller is
    /// stricter; it is meant to lie between 0 and 100 000 000, which stands
    /// for one.
    pub threshold: u32,
    /// How strongly an unchanged pixel shows in the output, in units of
    /// 10^-8 and meant to lie between 0 and 100 000 000. With 0 unchanged
    /// pixels stay transparent.
    pub alpha: u32,
    /// The colour that marks a pixel that differs.
    pub diff_colour: Pixel,
    /// The rectangle `[x, y, width, height]` of the base image to compare,
    /// or none for the whole image.
    pub view_port: Option<[u32; 4]>,
}

/// Why a comparison could not be made.
#[derive(Clone, Copy, Debug, PartialEq, Eq, Structural)]
pub enum CompareError {
    /// The viewport has no width or no height, or reaches outside the base
    /// image.
    InvalidViewport,
    /// A coordinate of the compared region lies outside the second image.
    DiffBufferTooSmall,
}

/// The pixel of an output that nothing was written to.
pub open spec fn transparent() -> Pixel {
    Pixel { r: 0, g: 0, b: 0, a: 0 }
}

/// The opaque grey of the given level.
pub open spec fn grey(level: int) -> Pixel {
    Pixel { r: level as u8, g: level as u8, b: level as u8, a: 255 }
}

/// The largest distance, in units of 10^-20, that two colours may have and
/// still count as the same: `35215 * threshold^2`.
pub open spec fn max_delta(threshold: u32) -> int {
    35215 * 10000 * (threshold * threshold)
}

/// The grey level that shows an unchanged pixel: its luminance `Y` moved
/// towards white, `255 + (Y - 255) * (alpha * a / 255)`, cut down to a whole
/// number and kept between 0 and 255.
pub open spec fn faded(pixel: Pixel, alpha: u32) -> int {
    let y = luma(pixel.r as int, pixel.g as int, pixel.b as int);
    let numerator = 255 * 2_550_000_000_000_000_000 + (y - 25_500_000_000) * (alpha * pixel.a);
    if numerator <= 0 {
        0
    } else if numerator / 2_550_000_000_000_000_000 >= 255 {
        255
    } else {
        numerator / 2_550_000_000_000_000_000
    }
}

/// What the output shows at a coordinate of the compared region where the
/// base image has `base` and the second image has `other`.
pub open spec fn compared(base: Pixel, other: Pixel, options: CompareOptions) -> Pixel {
    if base == other {
        if options.alpha > 0 {
            grey(faded(base, options.alpha))
        } else {
            transparent()
        }
    } else if delta_between(base, other) > max_delta(options.threshold) {
        options.diff_colour
    } else {
        transparent()
    }
}

/// The grey level that shows an unchanged pixel.
pub fn fade(pixel: &Pixel, alpha: u32) -> (level: u8)
    ensures
        level == faded(*pixel, alpha),
{
    let y: i128 = rgb2y(pixel.r as i64, pixel.g as i64, pixel.b as i64);
    assert(0 <= alpha * pixel.a <= 0xffff_ffff * 255) by (nonlinear_arith)
        requires
            0 <= alpha <= 0xffff_ffff,
            0 <= pixel.a <= 255,
    ;
    let strength: i128 = (alpha as i128) * (pixel.a as i128);
    let shift: i128 = y - 25_500_000_000;
    assert(-25_500_000_000 * (0xffff_ffff * 255) <= shift * strength <= 255 * (0xffff_ffff * 255))
        by (nonlinear_arith)
        requires
            -25_500_000_000 <= shift <= 255,
            0 <= strength <= 0xffff_ffff * 255,
    ;
    let numerator: i128 = 255 * 2_550_000_000_000_000_000 + shift * strength;
    if numerator <= 0 {
        0
    } else {
        let level: i128 = numerator / 2_550_000_000_000_000_000;
        if level >= 255 {
            255
        } else {
            level as u8
        }
    }
}

/// Whether two colours at the given distance count as different under the
/// given threshold.
pub fn exceeds(delta: u128, threshold: u32) -> (over: bool)
    ensures
        over == (delta > max_delta(threshold)),
{
    assert(0 <= threshold * threshold <= 0xffff_ffff * 0xffff_ffff) by (nonlinear_arith)
        requires
            0 <= threshold <= 0xffff_ffff,
    ;
    let square: u128 = (threshold as u128) * (threshold as u128);
    delta > 352_150_000 * square
}

/// What the output shows at a coordinate of the compared region where the
/// base image has `base` and the second image has `other`.
pub fn compare_pixels(base: &Pixel, other: &Pixel, options: &CompareOptions) -> (shown: Pixel)
    ensures
        shown == compared(*base, *other, *options),
{
    if base.r != other.r || base.g != other.g || base.b != other.b || base.a != other.a {
        let delta = calculate_pixel_colour_delta(base, other);
        if exceeds(delta, options.threshold) {
            options.diff_colour
        } else {
            Pixel { r: 0, g: 0, b: 0, a: 0 }
        }
    } else if options.alpha > 0 {
        let level = fade(base, options.alpha);
        Pixel { r: level, g: level, b: level, a: 255 }
    } else {
        Pixel { r: 0, g: 0, b: 0, a: 0 }
    }
}

/// What the output of a comparison shows at the coordinate `(x, y)`:
/// nothing outside the compared region, and inside it what the two pixels
/// at that coordinate give.
pub open spec fn expected_pixel(
    base: PixelGrid,
    diff: PixelGrid,
    options: CompareOptions,
    x: int,
    y: int,
) -> Pixel {
    if in_region(options.view_port, x, y) {
        compared(pixel_at(base, x, y), pixel_at(diff, x, y), options)
    } else {
        transparent()
    }
}

/// Whether some coordinate of the base image that belongs to the compared
/// region lies outside the second image.
pub open spec fn diff_too_small(base: PixelGrid, diff: PixelGrid, view_port: Option<[u32; 4]>) -> bool {
    exists|x: int, y: int|
        0 <= x < grid_width(base) && 0 <= y < grid_height(base) && #[trigger] in_region(
            view_port,
            x,
            y,
        ) && !(x < grid_width(diff) && y < grid_height(diff))
}

/// Whether `result` is what the comparison of `diff` with `base` under
/// `options` gives.
///
/// It is an image exactly when the viewport is valid for `base` and `diff`
/// has every coordinate of the compared region. The image then has the size
/// of `base`, no sample beyond those of its pixels, and at each coordinate
/// the pixel that `expected_pixel` names. An invalid viewport is reported
/// before a missing coordinate is.
pub open spec fn is_comparison(
    base: PixelGrid,
    diff: PixelGrid,
    options: CompareOptions,
    result: Result<PixelGrid, CompareError>,
) -> bool {
    match result {
        Ok(out) => {
            &&& viewport_valid(options.view_port, grid_width(base) as int, grid_height(base) as int)
            &&& !diff_too_small(base, diff, options.view_port)
            &&& grid_width(out) == grid_width(base)
            &&& grid_height(out) == grid_height(base)
            &&& grid_samples(out).len() == 4 * grid_width(base) * grid_height(base)
            &&& forall|x: int, y: int|
                0 <= x < grid_width(base) && 0 <= y < grid_height(base) ==> #[trigger] pixel_at(
                    out,
                    x,
                    y,
                ) == expected_pixel(base, diff, options, x, y)
        },
        Err(CompareError::InvalidViewport) => !viewport_valid(
            options.view_port,
            grid_width(base) as int,
            grid_height(base) as int,
        ),
        Err(CompareError::DiffBufferTooSmall) => {
            &&& viewport_valid(options.view_port, grid_width(base) as int, grid_height(base) as int)
            &&& diff_too_small(base, diff, options.view_port)
        },
    }
}

/// Compares `diff` with `base` over the region that the options select and
/// gives an image of the size of `base`. A pixel of the region is painted
/// in the marking colour where the two images differ by more than the
/// threshold allows, shown as a faded grey where they agree and a fade
/// factor is set, and left transparent otherwise, as is every pixel outside
/// the region.
pub fn compare(base: &PixelGrid, diff: &PixelGrid, options: CompareOptions) -> (result: Result<
    PixelGrid,
    CompareError,
>)
    ensures
        is_comparison(*base, *diff, options, result),
{
    let (width, height) = base.dimensions();
    let bounds = match normalise_viewport(options.view_port, width, height) {
        Some(bounds) => bounds,
        None => {
            if options.view_port.is_some() {
                return Err(CompareError::InvalidViewport);
            }
            return Ok(buffer_new(width, height));
        },
    };
    let mut out = buffer_new(width, height);
    assert forall|x: int, y: int| 0 <= x < width && 0 <= y < height implies in_region(
        options.view_port,
        x,
        y,
    ) == #[trigger] within_bounds(x, y, bounds@) by {
        lemma_bounds_select_region(options.view_port, width as int, height as int, x, y);
    }
    assert forall|x: int, y: int| 0 <= x < width && 0 <= y < height implies #[trigger] pixel_at(
        out,
        x,
        y,
    ) == transparent() by {
        lemma_sample_offsets(width as int, height as int, x, y, x, y);
    }
    let mut y: u32 = 0;
    while y < height
        invariant
            y <= height,
            viewport_valid(options.view_port, width as int, height as int),
            width == grid_width(*base),
            height == grid_height(*base),
            4 * width * height <= grid_samples(*base).len(),
            grid_width(out) == width,
            grid_height(out) == height,
            grid_samples(out).len() == 4 * width * height,
            forall|x: int, y: int|
                0 <= x < width && 0 <= y < height ==> in_region(options.view_port, x, y)
                    == #[trigger] within_bounds(x, y, bounds@),
            forall|x2: int, y2: int|
                0 <= x2 < width && 0 <= y2 < height ==> #[trigger] pixel_at(out, x2, y2) == if y2
                    < y {
                    expected_pixel(*base, *diff, options, x2, y2)
                } else {
                    transparent()
                },
            forall|x2: int, y2: int|
                0 <= x2 < width && 0 <= y2 < y && #[trigger] in_region(options.view_port, x2, y2)
                    ==> x2 < grid_width(*diff) && y2 < grid_height(*diff),
        ensures
            y == height || past_bounds(y as int, bounds@),
        decreases height - y,
    {
        if is_past_viewport(0, y, bounds) {
            break;
        }
        let mut x: u32 = 0;
        while x < width
            invariant
                x <= width,
                y < height,
                viewport_valid(options.view_port, width as int, height as int),
                width == grid_width(*base),
                height == grid_height(*base),
                4 * width * height <= grid_samples(*base).len(),
                grid_width(out) == width,
                grid_height(out) == height,
                grid_samples(out).len() == 4 * width * height,
                forall|x: int, y: int|
                    0 <= x < width && 0 <= y < height ==> in_region(options.view_port, x, y)
                        == #[trigger] within_bounds(x, y, bounds@),
                forall|x2: int, y2: int|
                    0 <= x2 < width && 0 <= y2 < height ==> #[trigger] pixel_at(out, x2, y2)
                        == if !scanned_from(x as int, y as int, x2, y2) {
                        expected_pixel(*base, *diff, options, x2, y2)
                    } else {
                        transparent()
                    },
                forall|x2: int, y2: int|
                    0 <= x2 < width && 0 <= y2 < height && !scanned_from(x as int, y as int, x2, y2)
                        && #[trigger] in_region(options.view_port, x2, y2) ==> x2 < grid_width(
                        *diff,
                    ) && y2 < grid_height(*diff),
            decreases width - x,
        {
            if is_within_viewport(x, y, bounds) {
                let base_pixel = buffer_get(base, x, y);
                let diff_pixel = match diff.get_pixel(x, y) {
                    Some(pixel) => pixel,
                    None => {
                        assert(in_region(options.view_port, x as int, y as int));
                        return Err(CompareError::DiffBufferTooSmall);
                    },
                };
                let shown = compare_pixels(&base_pixel, &diff_pixel, &options);
                let ghost before = out;
                buffer_put(&mut out, x, y, shown);
                proof {
                    lemma_with_pixel(
                        grid_samples(before),
                        width as int,
                        height as int,
                        x as int,
                        y as int,
                        shown,
                    );
                    assert(pixel_at(out, x as int, y as int) == shown);
                    assert forall|x2: int, y2: int|
                        0 <= x2 < width && 0 <= y2 < height && (x2, y2) != (
                            x as int,
                            y as int,
                        ) implies #[trigger] pixel_at(out, x2, y2) == pixel_at(before, x2, y2) by {
                        assert(pixel_from(
                            with_pixel(
                                grid_samples(before),
                                sample_offset(width as int, x as int, y as int),
                                shown,
                            ),
                            sample_offset(width as int, x2, y2),
                        ) == pixel_from(grid_samples(before), sample_offset(width as int, x2, y2)));
                    }
                }
            }
            x += 1;
        }
        y += 1;
    }
    proof {
        assert forall|x2: int, y2: int|
            0 <= x2 < width && 0 <= y2 < height implies #[trigger] pixel_at(out, x2, y2)
            == expected_pixel(*base, *diff, options, x2, y2) by {
            if y2 >= y {
                lemma_nothing_within_once_past(0, y as int, x2, y2, bounds@);
            }
        }
    }
    Ok(out)
}

/// Two equal pixels are never marked as different, whatever the
/// threshold: to test two pixels for equality before their distance is
/// worked out changes nothing in what a comparison shows.
pub proof fn lemma_equal_pixels_never_marked(pixel: Pixel, threshold: u32)
    ensures
        !(delta_between(pixel, pixel) > max_delta(threshold)),
{
    assert(threshold * threshold >= 0) by (nonlinear_arith);
}

/// An unchanged pixel that is fully transparent shows as opaque white once
/// a fade factor is set.
pub proof fn lemma_transparent_pixel_fades_to_white(pixel: Pixel, options: CompareOptions)
    requires
        pixel.a == 0,
        options.alpha > 0,
    ensures
        compared(pixel, pixel, options) == (Pixel { r: 255, g: 255, b: 255, a: 255 }),
{
    assert(options.alpha * pixel.a == 0) by (nonlinear_arith)
        requires
            pixel.a == 0,
    ;
}

/// An image compared with itself and without a fade factor gives an output
/// that is transparent everywhere, whatever the threshold: the comparison
/// succeeds under every valid viewport, and no pixel is marked or faded.
pub proof fn lemma_compared_with_itself(
    image: PixelGrid,
    options: CompareOptions,
    result: Result<PixelGrid, CompareError>,
)
    requires
        options.alpha == 0,
        viewport_valid(options.view_port, grid_width(image) as int, grid_height(image) as int),
        is_comparison(image, image, options, result),
    ensures
        result is Ok,
        grid_width(result.unwrap()) == grid_width(image),
        grid_height(result.unwrap()) == grid_height(image),
        grid_samples(result.unwrap()) == Seq::new(
            (4 * grid_width(image) * grid_height(image)) as nat,
            |i: int| 0u8,
        ),
{
    let out = result.unwrap();
    let (width, height) = (grid_width(image) as int, grid_height(image) as int);
    assert forall|i: int| 0 <= i < 4 * width * height implies grid_samples(out)[i] == 0 by {
        lemma_sample_belongs_to_pixel(width, height, i);
        let (x, y) = ((i / 4) % width, (i / 4) / width);
        assert(pixel_at(out, x, y) == transparent());
    }
    assert(grid_samples(out) =~= Seq::new((4 * width * height) as nat, |i: int| 0u8));
}

impl Default for CompareOptions {
    /// A threshold of 0.1, no fade, goldenrod as the marking colour and the
    /// whole image as the region.
    fn default() -> (options: CompareOptions)
        ensures
            options.threshold == 10_000_000,
            options.alpha == 0,
            options.diff_colour == (Pixel { r: 218, g: 165, b: 32, a: 255 }),
            options.view_port is None,
    {
        CompareOptions {
            threshold: 10_000_000,
            alpha: 0,
            diff_colour: Pixel { r: 218, g: 165, b: 32, a: 255 },
            view_port: None,
        }
    }
}

} // verus!

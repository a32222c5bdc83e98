//! The perceptual colour model and the distance between two pixels.
//!
//! All arithmetic is exact. Channel values are whole numbers in the 0–255
//! range; the luminance and chrominance components are counted in units of
//! 10^-8, and a colour distance in units of 10^-20.
//!
//! A pixel that is not fully opaque is composited against white before it is
//! converted, with the raw 0–255 alpha value as the blend factor.

use vstd::prelude::*;

verus! {

/// Four 8-bit channels: red, green, blue and alpha.
#[derive(Clone, Copy, Debug, PartialEq, Eq, Structural)]
pub struct Pixel {
    pub r: u8,
    pub g: u8,
    pub b: u8,
    pub a: u8,
}

/// `colour` moved towards white: `255 + (colour - 255) * alpha`.
pub open spec fn blended(colour: int, alpha: int) -> int {
    255 + (colour - 255) * alpha
}

/// Luminance of a colour, in units of 10^-8.
pub open spec fn luma(r: int, g: int, b: int) -> int {
    29889531 * r + 58662247 * g + 11448223 * b
}

/// In-phase chrominance of a colour, in units of 10^-8.
pub open spec fn in_phase(r: int, g: int, b: int) -> int {
    59597799 * r - 27417610 * g - 32180189 * b
}

/// Quadrature chrominance of a colour, in units of 10^-8.
pub open spec fn quadrature(r: int, g: int, b: int) -> int {
    21147017 * r - 52261711 * g + 31114694 * b
}

/// Blends `colour` towards white by the factor `alpha`.
pub fn blend(colour: i32, alpha: i32) -> (out: i64)
    ensures
        out == blended(colour as int, alpha as int),
{
    let c: i64 = colour as i64 - 255;
    let a: i64 = alpha as i64;
    assert(-0x6000_0000_0000_0000 < c * a < 0x6000_0000_0000_0000) by (nonlinear_arith)
        requires
            -0x8000_00ff <= c < 0x8000_0000,
            -0x8000_0000 <= a < 0x8000_0000,
    ;
    255 + c * a
}

/// The luminance component of the colour `(r, g, b)`, in units of 10^-8.
pub fn rgb2y(r: i64, g: i64, b: i64) -> (y: i128)
    ensures
        y == luma(r as int, g as int, b as int),
{
    29889531 * (r as i128) + 58662247 * (g as i128) + 11448223 * (b as i128)
}

/// The in-phase component of the colour `(r, g, b)`, in units of 10^-8.
pub fn rgb2i(r: i64, g: i64, b: i64) -> (i: i128)
    ensures
        i == in_phase(r as int, g as int, b as int),
{
    59597799 * (r as i128) - 27417610 * (g as i128) - 32180189 * (b as i128)
}

/// The quadrature component of the colour `(r, g, b)`, in units of 10^-8.
pub fn rgb2q(r: i64, g: i64, b: i64) -> (q: i128)
    ensures
        q == quadrature(r as int, g as int, b as int),
{
    21147017 * (r as i128) - 52261711 * (g as i128) + 31114694 * (b as i128)
}

/// The four channels of a pixel, widened for arithmetic.
pub fn rgba_to_f64(r: u8, g: u8, b: u8, a: u8) -> (wide: [i32; 4])
    ensures
        wide[0] == r,
        wide[1] == g,
        wide[2] == b,
        wide[3] == a,
{
    [r as i32, g as i32, b as i32, a as i32]
}

/// A colour channel of a pixel with alpha `a`, composited against white
/// when the pixel is not fully opaque.
pub open spec fn over_white(channel: int, a: int) -> int {
    if a < 255 {
        blended(channel, a)
    } else {
        channel
    }
}

/// The perceptual distance between two pixels, in units of 10^-20: the
/// weighted sum of the squared differences of their luminance and
/// chrominance components, each pixel composited against white first.
pub open spec fn delta_between(p: Pixel, q: Pixel) -> int {
    let (pr, pg, pb) = (
        over_white(p.r as int, p.a as int),
        over_white(p.g as int, p.a as int),
        over_white(p.b as int, p.a as int),
    );
    let (qr, qg, qb) = (
        over_white(q.r as int, q.a as int),
        over_white(q.g as int, q.a as int),
        over_white(q.b as int, q.a as int),
    );
    let y = luma(pr, pg, pb) - luma(qr, qg, qb);
    let i = in_phase(pr, pg, pb) - in_phase(qr, qg, qb);
    let q = quadrature(pr, pg, pb) - quadrature(qr, qg, qb);
    5053 * (y * y) + 2990 * (i * i) + 1957 * (q * q)
}

/// Composites the colour `(r, g, b)` against white when the alpha `a` is
/// below 255, and passes it through otherwise. The alpha is handed back as
/// it came.
pub fn blend_semi_transparent_colour(r: i32, g: i32, b: i32, a: i32) -> (out: [i64; 4])
    ensures
        out[0] == over_white(r as int, a as int),
        out[1] == over_white(g as int, a as int),
        out[2] == over_white(b as int, a as int),
        out[3] == a,
{
    if a < 255 {
        [blend(r, a), blend(g, a), blend(b, a), a as i64]
    } else {
        [r as i64, g as i64, b as i64, a as i64]
    }
}

/// A channel of an 8-bit pixel stays between -64515 and 255 when it is
/// composited against white.
proof fn lemma_over_white_range(channel: int, a: int)
    requires
        0 <= channel <= 255,
        0 <= a <= 255,
    ensures
        -64515 <= over_white(channel, a) <= 255,
{
    if a < 255 {
        assert(-64770 <= (channel - 255) * a <= 0) by (nonlinear_arith)
            requires
                -255 <= channel - 255 <= 0,
                0 <= a <= 254,
        ;
    }
}

/// The square of a number of magnitude at most `bound` is at most the
/// square of `bound`.
proof fn lemma_square_range(d: int, bound: int)
    requires
        -bound <= d <= bound,
    ensures
        0 <= d * d <= bound * bound,
{
    assert(0 <= d * d <= bound * bound) by (nonlinear_arith)
        requires
            -bound <= d <= bound,
    ;
}

/// The perceptual distance between two pixels, in units of 10^-20.
pub fn calculate_pixel_colour_delta(pixel_a: &Pixel, pixel_b: &Pixel) -> (delta: u128)
    ensures
        delta == delta_between(*pixel_a, *pixel_b),
{
    let wide_a = rgba_to_f64(pixel_a.r, pixel_a.g, pixel_a.b, pixel_a.a);
    let wide_b = rgba_to_f64(pixel_b.r, pixel_b.g, pixel_b.b, pixel_b.a);
    let blended_a = blend_semi_transparent_colour(wide_a[0], wide_a[1], wide_a[2], wide_a[3]);
    let blended_b = blend_semi_transparent_colour(wide_b[0], wide_b[1], wide_b[2], wide_b[3]);
    proof {
        lemma_over_white_range(pixel_a.r as int, pixel_a.a as int);
        lemma_over_white_range(pixel_a.g as int, pixel_a.a as int);
        lemma_over_white_range(pixel_a.b as int, pixel_a.a as int);
        lemma_over_white_range(pixel_b.r as int, pixel_b.a as int);
        lemma_over_white_range(pixel_b.g as int, pixel_b.a as int);
        lemma_over_white_range(pixel_b.b as int, pixel_b.a as int);
    }
    let y: i128 = rgb2y(blended_a[0], blended_a[1], blended_a[2]) - rgb2y(
        blended_b[0],
        blended_b[1],
        blended_b[2],
    );
    let i: i128 = rgb2i(blended_a[0], blended_a[1], blended_a[2]) - rgb2i(
        blended_b[0],
        blended_b[1],
        blended_b[2],
    );
    let q: i128 = rgb2q(blended_a[0], blended_a[1], blended_a[2]) - rgb2q(
        blended_b[0],
        blended_b[1],
        blended_b[2],
    );
    proof {
        lemma_square_range(y as int, 10_000_000_000_000);
        lemma_square_range(i as int, 10_000_000_000_000);
        lemma_square_range(q as int, 10_000_000_000_000);
    }
    let total: i128 = 5053 * (y * y) + 2990 * (i * i) + 1957 * (q * q);
    total as u128
}

/// A pixel is at distance zero from itself.
pub proof fn lemma_delta_of_equal_pixels(p: Pixel)
    ensures
        delta_between(p, p) == 0,
{
}

/// The distance between two pixels does not depend on their order.
pub proof fn lemma_delta_symmetric(p: Pixel, q: Pixel)
    ensures
        delta_between(p, q) == delta_between(q, p),
{
    let (pr, pg, pb) = (
        over_white(p.r as int, p.a as int),
        over_white(p.g as int, p.a as int),
        over_white(p.b as int, p.a as int),
    );
    let (qr, qg, qb) = (
        over_white(q.r as int, q.a as int),
        over_white(q.g as int, q.a as int),
        over_white(q.b as int, q.a as int),
    );
    lemma_square_of_opposite(luma(pr, pg, pb) - luma(qr, qg, qb));
    lemma_square_of_opposite(in_phase(pr, pg, pb) - in_phase(qr, qg, qb));
    lemma_square_of_opposite(quadrature(pr, pg, pb) - quadrature(qr, qg, qb));
}

/// The distance between two pixels is never negative.
pub proof fn lemma_delta_not_negative(p: Pixel, q: Pixel)
    ensures
        delta_between(p, q) >= 0,
{
    let (pr, pg, pb) = (
        over_white(p.r as int, p.a as int),
        over_white(p.g as int, p.a as int),
        over_white(p.b as int, p.a as int),
    );
    let (qr, qg, qb) = (
        over_white(q.r as int, q.a as int),
        over_white(q.g as int, q.a as int),
        over_white(q.b as int, q.a as int),
    );
    lemma_square_not_negative(luma(pr, pg, pb) - luma(qr, qg, qb));
    lemma_square_not_negative(in_phase(pr, pg, pb) - in_phase(qr, qg, qb));
    lemma_square_not_negative(quadrature(pr, pg, pb) - quadrature(qr, qg, qb));
}

/// A number and its opposite have the same square.
proof fn lemma_square_of_opposite(d: int)
    ensures
        d * d == (-d) * (-d),
{
    assert(d * d == (-d) * (-d)) by (nonlinear_arith);
}

/// A square is never negative.
proof fn lemma_square_not_negative(d: int)
    ensures
        d * d >= 0,
{
    assert(d * d >= 0) by (nonlinear_arith);
}

} // verus!

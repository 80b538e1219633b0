use vstd::prelude::*;

verus! {

use crate::color::{
    Color, color_sat_add, color_sat_sub, color_sat_mul, color_div, color_norm_mul,
};
use crate::math::{isqrt, isqrt_val, lemma_square_bound, lemma_mul_bound};

/// Perceived brightness of a sample.
pub trait Illuminator {
    type Output;

    /// The value that `brightness` returns.
    spec fn spec_brightness(&self) -> Self::Output;

    fn brightness(&self) -> (value: Self::Output)
        ensures
            value == self.spec_brightness(),
    ;
}

/// Squared magnitude of a sample seen as a vector of channels.
pub trait MagnitudeSquared {
    type Output;

    /// The value that `mag2` returns.
    spec fn spec_mag2(&self) -> Self::Output;

    fn mag2(&self) -> (value: Self::Output)
        ensures
            value == self.spec_mag2(),
    ;
}

/// Squared distance between two samples, summed over channels.
pub trait DistanceSquared {
    type Output;

    /// The value that `distance_squared` returns.
    spec fn spec_distance_squared(&self, other: &Self) -> Self::Output;

    fn distance_squared(&self, other: &Self) -> (value: Self::Output)
        ensures
            value == self.spec_distance_squared(other),
    ;
}

/// Saturating per-channel arithmetic: results below 0 clamp to 0 and results
/// above the channel maximum clamp to the maximum.
pub trait PixelArithmetic: Sized {
    /// The value that `clamping_add` returns.
    spec fn spec_clamping_add(&self, other: &Self) -> Self;

    /// The value that `clamping_mul` returns.
    spec fn spec_clamping_mul(&self, factor: u8) -> Self;

    /// The value that `clamping_sub` returns.
    spec fn spec_clamping_sub(&self, other: &Self) -> Self;

    /// The value that `clamping_div` returns.
    spec fn spec_clamping_div(&self, divisor: u8) -> Self;

    /// The value that `normalised_mul` returns.
    spec fn spec_normalised_mul(&self, other: &Self) -> Self;

    fn clamping_add(&self, other: &Self) -> (result: Self)
        ensures
            result == self.spec_clamping_add(other),
    ;

    fn clamping_mul(&self, factor: u8) -> (result: Self)
        ensures
            result == self.spec_clamping_mul(factor),
    ;

    fn clamping_sub(&self, other: &Self) -> (result: Self)
        ensures
            result == self.spec_clamping_sub(other),
    ;

    fn clamping_div(&self, divisor: u8) -> (result: Self)
        requires
            divisor != 0,
        ensures
            result == self.spec_clamping_div(divisor),
    ;

    fn normalised_mul(&self, other: &Self) -> (result: Self)
        ensures
            result == self.spec_normalised_mul(other),
    ;
}

/// Fixed-point perceived brightness: `0.299 r + 0.587 g + 0.114 b`, each term
/// computed with integer weights out of 1000 and truncated.
pub open spec fn brightness_of(c: Color) -> int {
    c.r as int * 299 / 1000 + c.g as int * 587 / 1000 + c.b as int * 114 / 1000
}

/// Sum of the squared channels.
pub open spec fn mag2_of(c: Color) -> int {
    c.r as int * c.r as int + c.g as int * c.g as int + c.b as int * c.b as int
}

/// Sum over channels of the squared channel difference.
pub open spec fn dist2_of(a: Color, b: Color) -> int {
    (a.r - b.r) * (a.r - b.r) + (a.g - b.g) * (a.g - b.g) + (a.b - b.b) * (a.b - b.b)
}

impl Illuminator for Color {
    type Output = u8;

    open spec fn spec_brightness(&self) -> u8 {
        brightness_of(*self) as u8
    }

    fn brightness(&self) -> (value: u8) {
        let mut value: u32 = 0;
        value += self.r as u32 * 299 / 1000;
        value += self.g as u32 * 587 / 1000;
        value += self.b as u32 * 114 / 1000;
        value as u8
    }
}

impl MagnitudeSquared for Color {
    type Output = u32;

    open spec fn spec_mag2(&self) -> u32 {
        mag2_of(*self) as u32
    }

    fn mag2(&self) -> (value: u32) {
        proof {
            lemma_mul_bound(self.r as int, 255, self.r as int, 255);
            lemma_mul_bound(self.g as int, 255, self.g as int, 255);
            lemma_mul_bound(self.b as int, 255, self.b as int, 255);
        }
        let r = self.r as u32;
        let g = self.g as u32;
        let b = self.b as u32;
        r * r + g * g + b * b
    }
}

impl DistanceSquared for Color {
    type Output = u32;

    open spec fn spec_distance_squared(&self, other: &Color) -> u32 {
        dist2_of(*self, *other) as u32
    }

    fn distance_squared(&self, other: &Color) -> (value: u32) {
        let r = self.r as i32 - other.r as i32;
        let g = self.g as i32 - other.g as i32;
        let b = self.b as i32 - other.b as i32;
        proof {
            lemma_square_bound(r as int, 255);
            lemma_square_bound(g as int, 255);
            lemma_square_bound(b as int, 255);
        }
        (r * r + g * g + b * b) as u32
    }
}

impl PixelArithmetic for Color {
    open spec fn spec_clamping_add(&self, other: &Color) -> Color {
        color_sat_add(*self, *other)
    }

    open spec fn spec_clamping_mul(&self, factor: u8) -> Color {
        color_sat_mul(*self, factor as int)
    }

    open spec fn spec_clamping_sub(&self, other: &Color) -> Color {
        color_sat_sub(*self, *other)
    }

    open spec fn spec_clamping_div(&self, divisor: u8) -> Color {
        color_div(*self, divisor as int)
    }

    open spec fn spec_normalised_mul(&self, other: &Color) -> Color {
        color_norm_mul(*self, *other)
    }

    fn clamping_add(&self, other: &Color) -> (result: Color) {
        let mut r = self.r as u16;
        let mut g = self.g as u16;
        let mut b = self.b as u16;
        r += other.r as u16;
        g += other.g as u16;
        b += other.b as u16;
        r = r.min(255);
        g = g.min(255);
        b = b.min(255);
        Color::new(r as u8, g as u8, b as u8)
    }

    fn clamping_mul(&self, factor: u8) -> (result: Color) {
        proof {
            lemma_mul_bound(self.r as int, 255, factor as int, 255);
            lemma_mul_bound(self.g as int, 255, factor as int, 255);
            lemma_mul_bound(self.b as int, 255, factor as int, 255);
        }
        let mut r = self.r as u16;
        let mut g = self.g as u16;
        let mut b = self.b as u16;
        r *= factor as u16;
        g *= factor as u16;
        b *= factor as u16;
        r = r.min(255);
        g = g.min(255);
        b = b.min(255);
        Color::new(r as u8, g as u8, b as u8)
    }

    fn clamping_sub(&self, other: &Color) -> (result: Color) {
        let mut r = self.r as i16;
        let mut g = self.g as i16;
        let mut b = self.b as i16;
        r -= other.r as i16;
        g -= other.g as i16;
        b -= other.b as i16;
        r = r.max(0);
        g = g.max(0);
        b = b.max(0);
        Color::new(r as u8, g as u8, b as u8)
    }

    fn clamping_div(&self, divisor: u8) -> (result: Color) {
        let mut r = self.r as u16;
        let mut g = self.g as u16;
        let mut b = self.b as u16;
        r /= divisor as u16;
        g /= divisor as u16;
        b /= divisor as u16;
        Color::new(r as u8, g as u8, b as u8)
    }

    fn normalised_mul(&self, other: &Color) -> (result: Color) {
        proof {
            lemma_mul_bound(self.r as int, 255, other.r as int, 255);
            lemma_mul_bound(self.g as int, 255, other.g as int, 255);
            lemma_mul_bound(self.b as int, 255, other.b as int, 255);
        }
        let mut r = self.r as u16;
        let mut g = self.g as u16;
        let mut b = self.b as u16;
        r *= other.r as u16;
        g *= other.g as u16;
        b *= other.b as u16;
        r /= 255;
        g /= 255;
        b /= 255;
        Color::new(r as u8, g as u8, b as u8)
    }
}

/// The fixed-point brightness of any color lies in `[0, 254]`.
pub proof fn lemma_brightness_range(c: Color)
    ensures
        0 <= brightness_of(c) <= 254,
{
}

/// The squared distance between two colors lies in `[0, 3 * 255 * 255]`.
pub proof fn lemma_dist2_bounds(a: Color, b: Color)
    ensures
        0 <= dist2_of(a, b) <= 195075,
{
    lemma_square_bound(a.r - b.r, 255);
    lemma_square_bound(a.g - b.g, 255);
    lemma_square_bound(a.b - b.b, 255);
}

/// Bounds needed by the blending helpers: a blend of two channel values with
/// weights `10 - f` and `f` stays within ten times the channel range.
proof fn lemma_blend_bounds(a: int, b: int, f: int)
    requires
        0 <= a <= 255,
        0 <= b <= 255,
        1 <= f <= 10,
    ensures
        a * f <= a * 10,
        0 <= a * 10 - a * f + b * f <= 2550,
{
    assert(a * f <= a * 10 && 0 <= a * 10 - a * f + b * f <= 2550) by (nonlinear_arith)
        requires
            0 <= a <= 255,
            0 <= b <= 255,
            1 <= f <= 10,
    ;
}

/// The fraction (out of 10) of the incoming sample that `temporal_denoising`
/// blends into its output when the two samples are close.
pub open spec fn denoise_fraction(d2: int) -> int {
    let quarter_root = isqrt_val(d2) / 4;
    (if quarter_root < 9 {
        quarter_root
    } else {
        9
    }) + 1
}

/// Blend of `a` and `b` that keeps `10 - f` parts of `a` and takes `f` parts
/// of `b`, with truncating division by 10.
pub open spec fn blend_of(a: Color, b: Color, f: int) -> Color {
    Color {
        r: ((a.r as int * 10 - a.r as int * f + b.r as int * f) / 10) as u8,
        g: ((a.g as int * 10 - a.g as int * f + b.g as int * f) / 10) as u8,
        b: ((a.b as int * 10 - a.b as int * f + b.b as int * f) / 10) as u8,
    }
}

/// The value that `temporal_denoising` returns: the incoming sample when the
/// two frames differ strongly at this pixel, otherwise a blend whose weight
/// grows with the distance between the samples.
pub open spec fn temporal_denoised(current: Color, next: Color) -> Color {
    if dist2_of(current, next) > 100000 {
        next
    } else {
        blend_of(current, next, denoise_fraction(dist2_of(current, next)))
    }
}

/// Suppress sensor noise between two frames of the same scene: keep most of
/// the current sample when the frames are close, follow the next frame
/// completely when they differ strongly.
pub fn temporal_denoising(current_pixel: Color, next_pixel: Color) -> (result: Color)
    ensures
        result == temporal_denoised(current_pixel, next_pixel),
{
    proof {
        lemma_dist2_bounds(current_pixel, next_pixel);
    }
    let dist2 = current_pixel.distance_squared(&next_pixel);
    if dist2 > 100000 {
        return next_pixel;
    }
    let quarter_root = isqrt(dist2) / 4;
    let f: u32 = quarter_root.min(9) + 1;
    let p = current_pixel;
    proof {
        lemma_blend_bounds(p.r as int, next_pixel.r as int, f as int);
        lemma_blend_bounds(p.g as int, next_pixel.g as int, f as int);
        lemma_blend_bounds(p.b as int, next_pixel.b as int, f as int);
    }
    let mut r = p.r as u32 * 10 - p.r as u32 * f + next_pixel.r as u32 * f;
    let mut g = p.g as u32 * 10 - p.g as u32 * f + next_pixel.g as u32 * f;
    let mut b = p.b as u32 * 10 - p.b as u32 * f + next_pixel.b as u32 * f;
    r /= 10;
    g /= 10;
    b /= 10;
    Color::new(r as u8, g as u8, b as u8)
}

/// The value that `time_blend` returns: eight parts of the current sample and
/// two parts of the next, with truncating division by 10.
pub open spec fn time_blended(current: Color, next: Color) -> Color {
    blend_of(current, next, 2)
}

/// Blend a fixed fifth of the next frame's sample into the current one,
/// leaving a slowly fading trail of past frames.
pub fn time_blend(current_pixel: Color, next_pixel: Color) -> (result: Color)
    ensures
        result == time_blended(current_pixel, next_pixel),
{
    let pa = current_pixel;
    let pb = next_pixel;
    let r = (pa.r as u32 * 8 + pb.r as u32 * 2) / 10;
    let g = (pa.g as u32 * 8 + pb.g as u32 * 2) / 10;
    let b = (pa.b as u32 * 8 + pb.b as u32 * 2) / 10;
    Color::new(r as u8, g as u8, b as u8)
}

} // verus!

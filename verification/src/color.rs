use vstd::prelude::*;

verus! {

/// One pixel sample: three 8-bit channels (red, green, blue).
///
/// All channel arithmetic on colors is saturating: results below 0 clamp to 0
/// and results above 255 clamp to 255.
#[derive(Clone, Copy, PartialEq, Eq, Structural, Debug)]
pub struct Color {
    pub r: u8,
    pub g: u8,
    pub b: u8,
}

/// Clamp an unbounded channel value into the representable range `[0, 255]`.
pub open spec fn clamp255(v: int) -> int {
    if v < 0 {
        0
    } else if v > 255 {
        255
    } else {
        v
    }
}

/// Saturating channel addition.
pub open spec fn sat_add_ch(a: int, b: int) -> int {
    if a + b > 255 {
        255
    } else {
        a + b
    }
}

/// Saturating channel subtraction (clamps at 0).
pub open spec fn sat_sub_ch(a: int, b: int) -> int {
    if a - b < 0 {
        0
    } else {
        a - b
    }
}

/// Saturating channel multiplication by a factor.
pub open spec fn sat_mul_ch(a: int, f: int) -> int {
    if a * f > 255 {
        255
    } else {
        a * f
    }
}

/// Truncating channel division (both operands are nonnegative).
pub open spec fn div_ch(a: int, d: int) -> int {
    a / d
}

/// Channel product rescaled from the range `[0, 255*255]` back to `[0, 255]`.
pub open spec fn norm_mul_ch(a: int, b: int) -> int {
    a * b / 255
}

/// Saturating multiplication of a channel by the fraction `n / d`.
pub open spec fn frac_mul_ch(a: int, n: int, d: int) -> int {
    if a * n / d > 255 {
        255
    } else {
        a * n / d
    }
}

/// `sat_add_ch` applied to every channel of a pair of colors.
pub open spec fn color_sat_add(a: Color, b: Color) -> Color {
    Color {
        r: sat_add_ch(a.r as int, b.r as int) as u8,
        g: sat_add_ch(a.g as int, b.g as int) as u8,
        b: sat_add_ch(a.b as int, b.b as int) as u8,
    }
}

/// `sat_sub_ch` applied to every channel of a pair of colors.
pub open spec fn color_sat_sub(a: Color, b: Color) -> Color {
    Color {
        r: sat_sub_ch(a.r as int, b.r as int) as u8,
        g: sat_sub_ch(a.g as int, b.g as int) as u8,
        b: sat_sub_ch(a.b as int, b.b as int) as u8,
    }
}

/// `sat_mul_ch` applied to every channel of a color.
pub open spec fn color_sat_mul(a: Color, f: int) -> Color {
    Color {
        r: sat_mul_ch(a.r as int, f) as u8,
        g: sat_mul_ch(a.g as int, f) as u8,
        b: sat_mul_ch(a.b as int, f) as u8,
    }
}

/// `div_ch` applied to every channel of a color.
pub open spec fn color_div(a: Color, d: int) -> Color {
    Color {
        r: div_ch(a.r as int, d) as u8,
        g: div_ch(a.g as int, d) as u8,
        b: div_ch(a.b as int, d) as u8,
    }
}

/// `norm_mul_ch` applied to every channel of a pair of colors.
pub open spec fn color_norm_mul(a: Color, b: Color) -> Color {
    Color {
        r: norm_mul_ch(a.r as int, b.r as int) as u8,
        g: norm_mul_ch(a.g as int, b.g as int) as u8,
        b: norm_mul_ch(a.b as int, b.b as int) as u8,
    }
}

/// `frac_mul_ch` applied to every channel of a color.
pub open spec fn color_frac_mul(a: Color, n: int, d: int) -> Color {
    Color {
        r: frac_mul_ch(a.r as int, n, d) as u8,
        g: frac_mul_ch(a.g as int, n, d) as u8,
        b: frac_mul_ch(a.b as int, n, d) as u8,
    }
}

impl Color {
    /// Build a color from its three channels.
    pub fn new(r: u8, g: u8, b: u8) -> (c: Color)
        ensures
            c == (Color { r, g, b }),
    {
        Color { r, g, b }
    }

    /// Multiply every channel by the fraction `numerator / denominator`,
    /// saturating at 255.
    pub fn clamping_fraction_mul(&self, fraction: (u8, u8)) -> (c: Color)
        requires
            fraction.1 != 0,
        ensures
            c == color_frac_mul(*self, fraction.0 as int, fraction.1 as int),
    {
        let (n, d) = fraction;
        proof {
            crate::math::lemma_mul_bound(self.r as int, 255, n as int, 255);
            crate::math::lemma_mul_bound(self.g as int, 255, n as int, 255);
            crate::math::lemma_mul_bound(self.b as int, 255, n as int, 255);
        }
        let r = ((self.r as u32 * n as u32) / d as u32).min(255) as u8;
        let g = ((self.g as u32 * n as u32) / d as u32).min(255) as u8;
        let b = ((self.b as u32 * n as u32) / d as u32).min(255) as u8;
        Color { r, g, b }
    }
}

} // verus!

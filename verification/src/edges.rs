use vstd::prelude::*;

verus! {

use crate::color::{Color, clamp255};
use crate::convolve::interior;
use crate::image::Image;
use crate::math::{isqrt, isqrt_val, lemma_row_major_distinct, lemma_row_major_index};
use crate::pixel_traits::{Illuminator, brightness_of, lemma_brightness_range};

/// Brightness of the sample at `(x, y)`.
pub open spec fn pix_brightness(img: Image, x: int, y: int) -> int {
    brightness_of(img.pix(x, y))
}

/// The grey color whose three channels all hold `v`.
pub open spec fn grey_level(v: int) -> Color {
    Color { r: v as u8, g: v as u8, b: v as u8 }
}

/// The sharpening response at `(x, y)`: five times the center brightness
/// minus the four direct neighbors.
pub open spec fn sharpen_value(img: Image, x: int, y: int) -> int {
    5 * pix_brightness(img, x, y) - pix_brightness(img, x - 1, y) - pix_brightness(img, x + 1, y)
        - pix_brightness(img, x, y - 1) - pix_brightness(img, x, y + 1)
}

/// The grey sample that `sharpen` writes at an interior position.
pub open spec fn sharpened(img: Image, x: int, y: int) -> Color {
    grey_level(clamp255(sharpen_value(img, x, y)))
}

/// The horizontal derivative of `f` at `(x, y)`: columns left minus right,
/// center row counted twice.
pub open spec fn sobel_gx(img: Image, x: int, y: int, f: spec_fn(Image, int, int) -> int) -> int {
    f(img, x - 1, y - 1) + 2 * f(img, x - 1, y) + f(img, x - 1, y + 1) - f(img, x + 1, y - 1) - 2
        * f(img, x + 1, y) - f(img, x + 1, y + 1)
}

/// The vertical derivative of `f` at `(x, y)`: rows above minus below,
/// center column counted twice.
pub open spec fn sobel_gy(img: Image, x: int, y: int, f: spec_fn(Image, int, int) -> int) -> int {
    f(img, x - 1, y - 1) + 2 * f(img, x, y - 1) + f(img, x + 1, y - 1) - f(img, x - 1, y + 1) - 2
        * f(img, x, y + 1) - f(img, x + 1, y + 1)
}

/// The length of the gradient vector `(gx, gy)`, rounded down and saturated
/// to a channel value.
pub open spec fn gradient_magnitude(gx: int, gy: int) -> int {
    let m = isqrt_val(gx * gx + gy * gy);
    if m > 255 {
        255
    } else {
        m
    }
}

/// The grey sample that `sobel_edge_detection_3x3` writes at an interior
/// position: the gradient magnitude of the brightness.
pub open spec fn sobel_pixel(img: Image, x: int, y: int) -> Color {
    let f = |im: Image, xx: int, yy: int| pix_brightness(im, xx, yy);
    grey_level(gradient_magnitude(sobel_gx(img, x, y, f), sobel_gy(img, x, y, f)))
}

/// Channel `ch` of the sample at `(x, y)`.
pub open spec fn pix_channel(img: Image, x: int, y: int, ch: int) -> int {
    crate::convolve::channel_of(img.pix(x, y), ch)
}

/// One channel of the colored gradient map: the gradient magnitude of that
/// channel alone.
pub open spec fn sobel_channel_magnitude(img: Image, x: int, y: int, ch: int) -> int {
    let f = |im: Image, xx: int, yy: int| pix_channel(im, xx, yy, ch);
    gradient_magnitude(sobel_gx(img, x, y, f), sobel_gy(img, x, y, f))
}

/// The sample that `sobel_edge_detection_3x3_colour` writes at an interior
/// position: each channel's own gradient magnitude.
pub open spec fn sobel_colour_pixel(img: Image, x: int, y: int) -> Color {
    Color {
        r: sobel_channel_magnitude(img, x, y, 0) as u8,
        g: sobel_channel_magnitude(img, x, y, 1) as u8,
        b: sobel_channel_magnitude(img, x, y, 2) as u8,
    }
}

/// The checkerboard derivative of the brightness at `(x, y)` under the
/// `cross_blur` kernel whose corners weigh `-1`, edges `+1`, center 0.
pub open spec fn cross_gy(img: Image, x: int, y: int) -> int {
    -pix_brightness(img, x - 1, y - 1) + pix_brightness(img, x, y - 1) - pix_brightness(
        img,
        x + 1,
        y - 1,
    ) + pix_brightness(img, x - 1, y) + pix_brightness(img, x + 1, y) - pix_brightness(
        img,
        x - 1,
        y + 1,
    ) + pix_brightness(img, x, y + 1) - pix_brightness(img, x + 1, y + 1)
}

/// The checkerboard sum of the brightness at `(x, y)` under the `cross_blur`
/// kernel that alternates `+1` and `-1` starting from the corners.
pub open spec fn cross_gx(img: Image, x: int, y: int) -> int {
    pix_brightness(img, x - 1, y - 1) - pix_brightness(img, x, y - 1) + pix_brightness(
        img,
        x + 1,
        y - 1,
    ) - pix_brightness(img, x - 1, y) + pix_brightness(img, x, y) - pix_brightness(img, x + 1, y)
        + pix_brightness(img, x - 1, y + 1) - pix_brightness(img, x, y + 1) + pix_brightness(
        img,
        x + 1,
        y + 1,
    )
}

/// The grey sample that `cross_blur` writes at an interior position.
pub open spec fn cross_pixel(img: Image, x: int, y: int) -> Color {
    grey_level(gradient_magnitude(cross_gx(img, x, y), cross_gy(img, x, y)))
}

impl Image {
    /// Sharpen the brightness channel with a fixed 3-by-3 kernel, writing a
    /// grey image; pixels on the one-pixel border ring become black.
    pub fn sharpen(&self, target: &mut Image)
        requires
            self.wf(),
            old(target).wf(),
            self.same_dims(*old(target)),
        ensures
            final(target).wf(),
            final(target).width == old(target).width,
            final(target).height == old(target).height,
            forall|x: int, y: int|
                0 <= x < self.width && 0 <= y < self.height ==> #[trigger] final(target).pix(x, y)
                    == if interior(3, self.width as int, self.height as int, x, y) {
                    sharpened(*self, x, y)
                } else {
                    Color { r: 0, g: 0, b: 0 }
                },
    {
        let w = self.width;
        let h = self.height;
        let mut y: usize = 0;
        while y < h
            invariant
                y <= h,
                w == self.width,
                h == self.height,
                self.wf(),
                target.wf(),
                target.width == w,
                target.height == h,
                forall|xx: int, yy: int|
                    0 <= xx < w && 0 <= yy < y ==> #[trigger] target.pix(xx, yy) == if interior(
                        3,
                        w as int,
                        h as int,
                        xx,
                        yy,
                    ) {
                        sharpened(*self, xx, yy)
                    } else {
                        Color { r: 0, g: 0, b: 0 }
                    },
            decreases h - y,
        {
            let mut x: usize = 0;
            while x < w
                invariant
                    x <= w,
                    y < h,
                    w == self.width,
                    h == self.height,
                    self.wf(),
                    target.wf(),
                    target.width == w,
                    target.height == h,
                    forall|xx: int, yy: int|
                        0 <= xx < w && 0 <= yy < y ==> #[trigger] target.pix(xx, yy) == if interior(
                            3,
                            w as int,
                            h as int,
                            xx,
                            yy,
                        ) {
                            sharpened(*self, xx, yy)
                        } else {
                            Color { r: 0, g: 0, b: 0 }
                        },
                    forall|xx: int|
                        0 <= xx < x ==> #[trigger] target.pix(xx, y as int) == if interior(
                            3,
                            w as int,
                            h as int,
                            xx,
                            y as int,
                        ) {
                            sharpened(*self, xx, y as int)
                        } else {
                            Color { r: 0, g: 0, b: 0 }
                        },
                decreases w - x,
            {
                let ghost before = *target;
                if x >= 1 && x < w - 1 && y >= 1 && y < h - 1 {
                    let p_c = self.get(x, y);
                    let p_l = self.get(x - 1, y);
                    let p_r = self.get(x + 1, y);
                    let p_u = self.get(x, y - 1);
                    let p_d = self.get(x, y + 1);
                    proof {
                        lemma_brightness_range(p_c);
                        lemma_brightness_range(p_l);
                        lemma_brightness_range(p_r);
                        lemma_brightness_range(p_u);
                        lemma_brightness_range(p_d);
                    }
                    let v: i32 = 5 * p_c.brightness() as i32 - p_l.brightness() as i32
                        - p_r.brightness() as i32 - p_u.brightness() as i32
                        - p_d.brightness() as i32;
                    let v: i32 = if v < 0 {
                        0
                    } else if v > 255 {
                        255
                    } else {
                        v
                    };
                    let level = v as u8;
                    target.set(x, y, Color::new(level, level, level));
                } else {
                    target.set(x, y, Color::new(0, 0, 0));
                }
                proof {
                    lemma_row_major_index(x as int, y as int, w as int, h as int);
                    assert forall|xx: int, yy: int|
                        0 <= xx < w && 0 <= yy < h && (xx != x || yy != y) implies #[trigger]
                        target.pix(xx, yy) == before.pix(xx, yy) by {
                        lemma_row_major_index(xx, yy, w as int, h as int);
                        lemma_row_major_distinct(xx, yy, x as int, y as int, w as int);
                    }
                }
                x += 1;
            }
            y += 1;
        }
    }

    /// Edge detection: write the gradient magnitude of the brightness as a
    /// grey image; pixels on the one-pixel border ring become black.
    pub fn sobel_edge_detection_3x3(&self, target: &mut Image)
        requires
            self.wf(),
            old(target).wf(),
            self.same_dims(*old(target)),
        ensures
            final(target).wf(),
            final(target).width == old(target).width,
            final(target).height == old(target).height,
            forall|x: int, y: int|
                0 <= x < self.width && 0 <= y < self.height ==> #[trigger] final(target).pix(x, y)
                    == if interior(3, self.width as int, self.height as int, x, y) {
                    sobel_pixel(*self, x, y)
                } else {
                    Color { r: 0, g: 0, b: 0 }
                },
    {
        let w = self.width;
        let h = self.height;
        let mut y: usize = 0;
        while y < h
            invariant
                y <= h,
                w == self.width,
                h == self.height,
                self.wf(),
                target.wf(),
                target.width == w,
                target.height == h,
                forall|xx: int, yy: int|
                    0 <= xx < w && 0 <= yy < y ==> #[trigger] target.pix(xx, yy) == if interior(
                        3,
                        w as int,
                        h as int,
                        xx,
                        yy,
                    ) {
                        sobel_pixel(*self, xx, yy)
                    } else {
                        Color { r: 0, g: 0, b: 0 }
                    },
            decreases h - y,
        {
            let mut x: usize = 0;
            while x < w
                invariant
                    x <= w,
                    y < h,
                    w == self.width,
                    h == self.height,
                    self.wf(),
                    target.wf(),
                    target.width == w,
                    target.height == h,
                    forall|xx: int, yy: int|
                        0 <= xx < w && 0 <= yy < y ==> #[trigger] target.pix(xx, yy) == if interior(
                            3,
                            w as int,
                            h as int,
                            xx,
                            yy,
                        ) {
                            sobel_pixel(*self, xx, yy)
                        } else {
                            Color { r: 0, g: 0, b: 0 }
                        },
                    forall|xx: int|
                        0 <= xx < x ==> #[trigger] target.pix(xx, y as int) == if interior(
                            3,
                            w as int,
                            h as int,
                            xx,
                            y as int,
                        ) {
                            sobel_pixel(*self, xx, y as int)
                        } else {
                            Color { r: 0, g: 0, b: 0 }
                        },
                decreases w - x,
            {
                let ghost before = *target;
                if x >= 1 && x < w - 1 && y >= 1 && y < h - 1 {
                    let p00 = self.get(x - 1, y - 1);
                    let p10 = self.get(x, y - 1);
                    let p20 = self.get(x + 1, y - 1);
                    let p01 = self.get(x - 1, y);
                    let p21 = self.get(x + 1, y);
                    let p02 = self.get(x - 1, y + 1);
                    let p12 = self.get(x, y + 1);
                    let p22 = self.get(x + 1, y + 1);
                    proof {
                        lemma_brightness_range(p00);
                        lemma_brightness_range(p10);
                        lemma_brightness_range(p20);
                        lemma_brightness_range(p01);
                        lemma_brightness_range(p21);
                        lemma_brightness_range(p02);
                        lemma_brightness_range(p12);
                        lemma_brightness_range(p22);
                    }
                    let b00 = p00.brightness() as i32;
                    let b10 = p10.brightness() as i32;
                    let b20 = p20.brightness() as i32;
                    let b01 = p01.brightness() as i32;
                    let b21 = p21.brightness() as i32;
                    let b02 = p02.brightness() as i32;
                    let b12 = p12.brightness() as i32;
                    let b22 = p22.brightness() as i32;
                    let gx = b00 + 2 * b01 + b02 - b20 - 2 * b21 - b22;
                    let gy = b00 + 2 * b10 + b20 - b02 - 2 * b12 - b22;
                    proof {
                        crate::math::lemma_square_bound(gx as int, 1016);
                        crate::math::lemma_square_bound(gy as int, 1016);
                    }
                    let m = isqrt((gx * gx + gy * gy) as u32);
                    let level: u8 = if m > 255 {
                        255
                    } else {
                        m as u8
                    };
                    target.set(x, y, Color::new(level, level, level));
                } else {
                    target.set(x, y, Color::new(0, 0, 0));
                }
                proof {
                    lemma_row_major_index(x as int, y as int, w as int, h as int);
                    assert forall|xx: int, yy: int|
                        0 <= xx < w && 0 <= yy < h && (xx != x || yy != y) implies #[trigger]
                        target.pix(xx, yy) == before.pix(xx, yy) by {
                        lemma_row_major_index(xx, yy, w as int, h as int);
                        lemma_row_major_distinct(xx, yy, x as int, y as int, w as int);
                    }
                }
                x += 1;
            }
            y += 1;
        }
    }

    /// Edge detection applied to each channel independently, producing a
    /// colored gradient map; pixels on the one-pixel border ring become black.
    pub fn sobel_edge_detection_3x3_colour(&mut self, target: &mut Image)
        requires
            old(self).wf(),
            old(target).wf(),
            old(self).same_dims(*old(target)),
        ensures
            *final(self) == *old(self),
            final(target).wf(),
            final(target).width == old(target).width,
            final(target).height == old(target).height,
            forall|x: int, y: int|
                0 <= x < old(self).width && 0 <= y < old(self).height
                    ==> #[trigger] final(target).pix(x, y) == if interior(
                    3,
                    old(self).width as int,
                    old(self).height as int,
                    x,
                    y,
                ) {
                    sobel_colour_pixel(*old(self), x, y)
                } else {
                    Color { r: 0, g: 0, b: 0 }
                },
    {
        let ghost src = *self;
        let w = self.width;
        let h = self.height;
        let mut y: usize = 0;
        while y < h
            invariant
                y <= h,
                *self == src,
                w == src.width,
                h == src.height,
                src.wf(),
                target.wf(),
                target.width == w,
                target.height == h,
                forall|xx: int, yy: int|
                    0 <= xx < w && 0 <= yy < y ==> #[trigger] target.pix(xx, yy) == if interior(
                        3,
                        w as int,
                        h as int,
                        xx,
                        yy,
                    ) {
                        sobel_colour_pixel(src, xx, yy)
                    } else {
                        Color { r: 0, g: 0, b: 0 }
                    },
            decreases h - y,
        {
            let mut x: usize = 0;
            while x < w
                invariant
                    x <= w,
                    y < h,
                    *self == src,
                    w == src.width,
                    h == src.height,
                    src.wf(),
                    target.wf(),
                    target.width == w,
                    target.height == h,
                    forall|xx: int, yy: int|
                        0 <= xx < w && 0 <= yy < y ==> #[trigger] target.pix(xx, yy) == if interior(
                            3,
                            w as int,
                            h as int,
                            xx,
                            yy,
                        ) {
                            sobel_colour_pixel(src, xx, yy)
                        } else {
                            Color { r: 0, g: 0, b: 0 }
                        },
                    forall|xx: int|
                        0 <= xx < x ==> #[trigger] target.pix(xx, y as int) == if interior(
                            3,
                            w as int,
                            h as int,
                            xx,
                            y as int,
                        ) {
                            sobel_colour_pixel(src, xx, y as int)
                        } else {
                            Color { r: 0, g: 0, b: 0 }
                        },
                decreases w - x,
            {
                let ghost before = *target;
                if x >= 1 && x < w - 1 && y >= 1 && y < h - 1 {
                    let p00 = self.get(x - 1, y - 1);
                    let p10 = self.get(x, y - 1);
                    let p20 = self.get(x + 1, y - 1);
                    let p01 = self.get(x - 1, y);
                    let p21 = self.get(x + 1, y);
                    let p02 = self.get(x - 1, y + 1);
                    let p12 = self.get(x, y + 1);
                    let p22 = self.get(x + 1, y + 1);
                    let rx = p00.r as i32 + 2 * p01.r as i32 + p02.r as i32 - p20.r as i32 - 2
                        * p21.r as i32 - p22.r as i32;
                    let gx = p00.g as i32 + 2 * p01.g as i32 + p02.g as i32 - p20.g as i32 - 2
                        * p21.g as i32 - p22.g as i32;
                    let bx = p00.b as i32 + 2 * p01.b as i32 + p02.b as i32 - p20.b as i32 - 2
                        * p21.b as i32 - p22.b as i32;
                    let ry = p00.r as i32 + 2 * p10.r as i32 + p20.r as i32 - p02.r as i32 - 2
                        * p12.r as i32 - p22.r as i32;
                    let gy = p00.g as i32 + 2 * p10.g as i32 + p20.g as i32 - p02.g as i32 - 2
                        * p12.g as i32 - p22.g as i32;
                    let by = p00.b as i32 + 2 * p10.b as i32 + p20.b as i32 - p02.b as i32 - 2
                        * p12.b as i32 - p22.b as i32;
                    proof {
                        crate::math::lemma_square_bound(rx as int, 1020);
                        crate::math::lemma_square_bound(ry as int, 1020);
                        crate::math::lemma_square_bound(gx as int, 1020);
                        crate::math::lemma_square_bound(gy as int, 1020);
                        crate::math::lemma_square_bound(bx as int, 1020);
                        crate::math::lemma_square_bound(by as int, 1020);
                    }
                    let mr = isqrt((rx * rx + ry * ry) as u32);
                    let mg = isqrt((gx * gx + gy * gy) as u32);
                    let mb = isqrt((bx * bx + by * by) as u32);
                    let cr: u8 = if mr > 255 {
                        255
                    } else {
                        mr as u8
                    };
                    let cg: u8 = if mg > 255 {
                        255
                    } else {
                        mg as u8
                    };
                    let cb: u8 = if mb > 255 {
                        255
                    } else {
                        mb as u8
                    };
                    target.set(x, y, Color::new(cr, cg, cb));
                } else {
                    target.set(x, y, Color::new(0, 0, 0));
                }
                proof {
                    lemma_row_major_index(x as int, y as int, w as int, h as int);
                    assert forall|xx: int, yy: int|
                        0 <= xx < w && 0 <= yy < h && (xx != x || yy != y) implies #[trigger]
                        target.pix(xx, yy) == before.pix(xx, yy) by {
                        lemma_row_major_index(xx, yy, w as int, h as int);
                        lemma_row_major_distinct(xx, yy, x as int, y as int, w as int);
                    }
                }
                x += 1;
            }
            y += 1;
        }
    }

    /// A playful variant of edge detection with checkerboard kernels: write
    /// the combined magnitude as a grey image on interior pixels, leaving the
    /// one-pixel border ring of the destination untouched.
    pub fn cross_blur(&mut self, target: &mut Image)
        requires
            old(self).wf(),
            old(target).wf(),
            old(self).same_dims(*old(target)),
            old(self).width >= 1,
            old(self).height >= 1,
        ensures
            *final(self) == *old(self),
            final(target).wf(),
            final(target).width == old(target).width,
            final(target).height == old(target).height,
            forall|x: int, y: int|
                interior(3, old(self).width as int, old(self).height as int, x, y)
                    ==> #[trigger] final(target).pix(x, y) == cross_pixel(*old(self), x, y),
            forall|x: int, y: int|
                0 <= x < old(self).width && 0 <= y < old(self).height && !interior(
                    3,
                    old(self).width as int,
                    old(self).height as int,
                    x,
                    y,
                ) ==> #[trigger] final(target).pix(x, y) == old(target).pix(x, y),
    {
        let ghost src = *self;
        let ghost t0 = *target;
        let w = self.width;
        let h = self.height;
        let mut y: usize = 1;
        while y < h - 1
            invariant
                1 <= y <= h,
                *self == src,
                w == src.width,
                h == src.height,
                w >= 1,
                h >= 1,
                src.wf(),
                target.wf(),
                target.width == w,
                target.height == h,
                forall|xx: int, yy: int|
                    interior(3, w as int, h as int, xx, yy) && yy < y ==> #[trigger] target.pix(
                        xx,
                        yy,
                    ) == cross_pixel(src, xx, yy),
                forall|xx: int, yy: int|
                    0 <= xx < w && 0 <= yy < h && !(interior(3, w as int, h as int, xx, yy) && yy
                        < y) ==> #[trigger] target.pix(xx, yy) == t0.pix(xx, yy),
            decreases h - y,
        {
            let mut x: usize = 1;
            while x < w - 1
                invariant
                    1 <= x <= w,
                    1 <= y < h - 1,
                    *self == src,
                    w == src.width,
                    h == src.height,
                    w >= 1,
                    h >= 1,
                    src.wf(),
                    target.wf(),
                    target.width == w,
                    target.height == h,
                    forall|xx: int, yy: int|
                        interior(3, w as int, h as int, xx, yy) && yy < y ==> #[trigger] target.pix(
                            xx,
                            yy,
                        ) == cross_pixel(src, xx, yy),
                    forall|xx: int|
                        interior(3, w as int, h as int, xx, y as int) && xx < x
                            ==> #[trigger] target.pix(xx, y as int) == cross_pixel(src, xx, y as int),
                    forall|xx: int, yy: int|
                        0 <= xx < w && 0 <= yy < h && !(interior(3, w as int, h as int, xx, yy) && (
                        yy < y || (yy == y && xx < x))) ==> #[trigger] target.pix(xx, yy) == t0.pix(
                            xx,
                            yy,
                        ),
                decreases w - x,
            {
                let ghost before = *target;
                let p00 = self.get(x - 1, y - 1);
                let p10 = self.get(x, y - 1);
                let p20 = self.get(x + 1, y - 1);
                let p01 = self.get(x - 1, y);
                let p11 = self.get(x, y);
                let p21 = self.get(x + 1, y);
                let p02 = self.get(x - 1, y + 1);
                let p12 = self.get(x, y + 1);
                let p22 = self.get(x + 1, y + 1);
                proof {
                    lemma_brightness_range(p00);
                    lemma_brightness_range(p10);
                    lemma_brightness_range(p20);
                    lemma_brightness_range(p01);
                    lemma_brightness_range(p11);
                    lemma_brightness_range(p21);
                    lemma_brightness_range(p02);
                    lemma_brightness_range(p12);
                    lemma_brightness_range(p22);
                }
                let b00 = p00.brightness() as i32;
                let b10 = p10.brightness() as i32;
                let b20 = p20.brightness() as i32;
                let b01 = p01.brightness() as i32;
                let b11 = p11.brightness() as i32;
                let b21 = p21.brightness() as i32;
                let b02 = p02.brightness() as i32;
                let b12 = p12.brightness() as i32;
                let b22 = p22.brightness() as i32;
                let val_x = b00 - b10 + b20 - b01 + b11 - b21 + b02 - b12 + b22;
                let val_y = -b00 + b10 - b20 + b01 + b21 - b02 + b12 - b22;
                proof {
                    crate::math::lemma_square_bound(val_x as int, 2286);
                    crate::math::lemma_square_bound(val_y as int, 2286);
                }
                let m = isqrt((val_x * val_x + val_y * val_y) as u32);
                let level: u8 = if m > 255 {
                    255
                } else {
                    m as u8
                };
                target.set(x, y, Color::new(level, level, level));
                proof {
                    lemma_row_major_index(x as int, y as int, w as int, h as int);
                    assert forall|xx: int, yy: int|
                        0 <= xx < w && 0 <= yy < h && (xx != x || yy != y) implies #[trigger]
                        target.pix(xx, yy) == before.pix(xx, yy) by {
                        lemma_row_major_index(xx, yy, w as int, h as int);
                        lemma_row_major_distinct(xx, yy, x as int, y as int, w as int);
                    }
                }
                x += 1;
            }
            y += 1;
        }
    }
}

} // verus!

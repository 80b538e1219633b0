use vstd::prelude::*;

verus! {

use crate::color::Color;
use crate::convolve::interior;
use crate::image::{Image, average_of, lemma_channel_sum_bounds, sum_r, sum_g, sum_b};
use crate::math::{lemma_row_major_distinct, lemma_row_major_index, lemma_square_bound};
use vstd::arithmetic::div_mod::lemma_fundamental_div_mod_converse;

/// The samples of the axis-aligned block of the given width and height whose
/// top-left corner is `(x0, y0)`, row by row.
pub open spec fn block_of(img: Image, x0: int, y0: int, wdt: int, hgt: int) -> Seq<Color> {
    Seq::new((wdt * hgt) as nat, |i: int| img.pix(x0 + i % wdt, y0 + i / wdt))
}

/// The squared deviation of one sample from a mean color, averaged over the
/// three channels with truncation.
pub open spec fn deviation_term(p: Color, mean: Color) -> int {
    ((p.r - mean.r) * (p.r - mean.r) + (p.g - mean.g) * (p.g - mean.g) + (p.b - mean.b) * (p.b
        - mean.b)) / 3
}

/// The sum of the squared deviations of a sequence of samples from a mean.
pub open spec fn dev_sum(s: Seq<Color>, mean: Color) -> int
    decreases s.len(),
{
    if s.len() == 0 {
        0
    } else {
        dev_sum(s.drop_last(), mean) + deviation_term(s.last(), mean)
    }
}

/// Each deviation term lies in `[0, 255 * 255]`, so the sum lies in
/// `[0, 255 * 255 * len]`.
pub proof fn lemma_dev_sum_bounds(s: Seq<Color>, mean: Color)
    ensures
        0 <= dev_sum(s, mean) <= 65025 * s.len(),
    decreases s.len(),
{
    if s.len() > 0 {
        lemma_dev_sum_bounds(s.drop_last(), mean);
        lemma_square_bound(s.last().r - mean.r, 255);
        lemma_square_bound(s.last().g - mean.g, 255);
        lemma_square_bound(s.last().b - mean.b, 255);
    }
}

/// The variance of a block: the mean squared deviation of its samples from
/// the block's own mean color, averaged across channels. A flat block has
/// variance 0; high contrast within the block raises it.
pub open spec fn block_variance(img: Image, x0: int, y0: int, wdt: int, hgt: int) -> int {
    dev_sum(block_of(img, x0, y0, wdt, hgt), average_of(block_of(img, x0, y0, wdt, hgt))) / (wdt
        * hgt)
}

/// The mean color of a block.
pub open spec fn block_mean(img: Image, x0: int, y0: int, wdt: int, hgt: int) -> Color {
    average_of(block_of(img, x0, y0, wdt, hgt))
}

/// A kernel size normalized for the quadrant filter: an even size falls to
/// the nearest smaller odd size, with 0 rising to 1.
pub open spec fn kuwahara_size(k: int) -> int {
    if k % 2 == 0 {
        (if k < 2 {
            2int
        } else {
            k
        }) - 1
    } else {
        k
    }
}

/// The top-left corner of quadrant `qi` (0 top-left, 1 top-right, 2
/// bottom-left, 3 bottom-right) of the `ks`-window centered on `(x, y)`. The
/// four quadrants measure `ks - ks/2` on each side, so they share the center
/// row and column.
pub open spec fn quadrant_corner(ks: int, x: int, y: int, qi: int) -> (int, int) {
    (
        x - ks / 2 + (if qi % 2 == 1 {
            ks / 2
        } else {
            0int
        }),
        y - ks / 2 + (if qi >= 2 {
            ks / 2
        } else {
            0int
        }),
    )
}

/// The mean color of one quadrant of the window centered on `(x, y)`.
pub open spec fn quadrant_mean(img: Image, ks: int, x: int, y: int, qi: int) -> Color {
    let c = quadrant_corner(ks, x, y, qi);
    block_mean(img, c.0, c.1, ks - ks / 2, ks - ks / 2)
}

/// The variance of one quadrant of the window centered on `(x, y)`.
pub open spec fn quadrant_variance(img: Image, ks: int, x: int, y: int, qi: int) -> int {
    let c = quadrant_corner(ks, x, y, qi);
    block_variance(img, c.0, c.1, ks - ks / 2, ks - ks / 2)
}

/// An even blend of two colors: per channel the mean of the pair, truncated.
/// Blending a color with itself returns it unchanged.
pub open spec fn blend_half(a: Color, b: Color) -> Color {
    Color {
        r: ((a.r + b.r) / 2) as u8,
        g: ((a.g + b.g) / 2) as u8,
        b: ((a.b + b.b) / 2) as u8,
    }
}

/// The channel-wise mean of two colors.
fn blend_mean(a: Color, b: Color) -> (c: Color)
    ensures
        c == blend_half(a, b),
{
    Color::new(
        ((a.r as u16 + b.r as u16) / 2) as u8,
        ((a.g as u16 + b.g as u16) / 2) as u8,
        ((a.b as u16 + b.b as u16) / 2) as u8,
    )
}

/// The sample the basic quadrant filter writes at an interior position: the
/// mean of the quadrant with the lowest variance, the earliest such quadrant
/// winning ties. Flat quadrants are preferred over high-contrast ones, which
/// smooths regions while preserving their boundaries.
pub open spec fn kuwahara_basic_pixel(img: Image, ks: int, x: int, y: int) -> Color {
    let m0 = quadrant_mean(img, ks, x, y, 0);
    let v0 = quadrant_variance(img, ks, x, y, 0);
    let m1 = quadrant_mean(img, ks, x, y, 1);
    let v1 = quadrant_variance(img, ks, x, y, 1);
    let m2 = quadrant_mean(img, ks, x, y, 2);
    let v2 = quadrant_variance(img, ks, x, y, 2);
    let m3 = quadrant_mean(img, ks, x, y, 3);
    let v3 = quadrant_variance(img, ks, x, y, 3);
    let o1 = if v1 < v0 {
        m1
    } else {
        m0
    };
    let b1 = if v1 < v0 {
        v1
    } else {
        v0
    };
    let o2 = if v2 < b1 {
        m2
    } else {
        o1
    };
    let b2 = if v2 < b1 {
        v2
    } else {
        b1
    };
    if v3 < b2 {
        m3
    } else {
        o2
    }
}

/// The sample the tie-aware quadrant filter writes at an interior position:
/// as in the basic filter, but a later quadrant whose variance equals the
/// current minimum blends its mean half-and-half into the running output
/// instead of being discarded.
pub open spec fn kuwahara_improved_pixel(img: Image, ks: int, x: int, y: int) -> Color {
    let m0 = quadrant_mean(img, ks, x, y, 0);
    let v0 = quadrant_variance(img, ks, x, y, 0);
    let m1 = quadrant_mean(img, ks, x, y, 1);
    let v1 = quadrant_variance(img, ks, x, y, 1);
    let m2 = quadrant_mean(img, ks, x, y, 2);
    let v2 = quadrant_variance(img, ks, x, y, 2);
    let m3 = quadrant_mean(img, ks, x, y, 3);
    let v3 = quadrant_variance(img, ks, x, y, 3);
    let o1 = if v1 < v0 {
        m1
    } else if v1 == v0 {
        blend_half(m1, m0)
    } else {
        m0
    };
    let b1 = if v1 < v0 {
        v1
    } else {
        v0
    };
    let o2 = if v2 < b1 {
        m2
    } else if v2 == b1 {
        blend_half(m2, o1)
    } else {
        o1
    };
    let b2 = if v2 < b1 {
        v2
    } else {
        b1
    };
    if v3 < b2 {
        m3
    } else if v3 == b2 {
        blend_half(m3, o2)
    } else {
        o2
    }
}

impl Image {
    /// The mean color of the block `[x0, x1) x [y0, y1)` and its variance:
    /// the channel-averaged squared deviation of the block's samples from
    /// that mean, averaged over the block.
    fn get_average_colour_and_variance_of_block(
        &self,
        x0: usize,
        x1: usize,
        y0: usize,
        y1: usize,
    ) -> (result: (Color, u32))
        requires
            self.wf(),
            x0 < x1 <= self.width,
            y0 < y1 <= self.height,
            (x1 - x0) * (y1 - y0) <= u32::MAX,
        ensures
            result.0 == block_mean(*self, x0 as int, y0 as int, (x1 - x0) as int, (y1 - y0) as int),
            result.1 == block_variance(
                *self,
                x0 as int,
                y0 as int,
                (x1 - x0) as int,
                (y1 - y0) as int,
            ),
            result.1 <= 65025,
    {
        let wdt = x1 - x0;
        let hgt = y1 - y0;
        let ghost block = block_of(*self, x0 as int, y0 as int, wdt as int, hgt as int);
        proof {
            assert(wdt * hgt > 0) by (nonlinear_arith)
                requires
                    wdt >= 1,
                    hgt >= 1,
            ;
        }
        let count = wdt * hgt;
        let mut r: u64 = 0;
        let mut g: u64 = 0;
        let mut b: u64 = 0;
        let mut y: usize = y0;
        while y < y1
            invariant
                y0 <= y <= y1,
                self.wf(),
                x0 < x1 <= self.width,
                y0 < y1 <= self.height,
                wdt == x1 - x0,
                hgt == y1 - y0,
                count == wdt * hgt <= u32::MAX,
                block == block_of(*self, x0 as int, y0 as int, wdt as int, hgt as int),
                r == sum_r(block.subrange(0, (y - y0) * wdt)),
                g == sum_g(block.subrange(0, (y - y0) * wdt)),
                b == sum_b(block.subrange(0, (y - y0) * wdt)),
            decreases y1 - y,
        {
            let mut x: usize = x0;
            while x < x1
                invariant
                    x0 <= x <= x1,
                    y0 <= y < y1,
                    self.wf(),
                    x0 < x1 <= self.width,
                    y0 < y1 <= self.height,
                    wdt == x1 - x0,
                    hgt == y1 - y0,
                    count == wdt * hgt <= u32::MAX,
                    block == block_of(*self, x0 as int, y0 as int, wdt as int, hgt as int),
                    r == sum_r(block.subrange(0, (y - y0) * wdt + (x - x0))),
                    g == sum_g(block.subrange(0, (y - y0) * wdt + (x - x0))),
                    b == sum_b(block.subrange(0, (y - y0) * wdt + (x - x0))),
                decreases x1 - x,
            {
                let ghost n = (y - y0) as int * wdt + (x - x0);
                proof {
                    lemma_row_major_index((x - x0) as int, (y - y0) as int, wdt as int, hgt as int);
                    lemma_fundamental_div_mod_converse(
                        n,
                        wdt as int,
                        (y - y0) as int,
                        (x - x0) as int,
                    );
                    lemma_channel_sum_bounds(block.subrange(0, n));
                    assert(block.subrange(0, n + 1).drop_last() =~= block.subrange(0, n));
                }
                let p = self.get(x, y);
                r += p.r as u64;
                g += p.g as u64;
                b += p.b as u64;
                x += 1;
            }
            proof {
                assert((y - y0) as int * wdt + wdt == (y + 1 - y0) as int * wdt)
                    by (nonlinear_arith);
            }
            y += 1;
        }
        proof {
            assert(block.subrange(0, (hgt * wdt) as int) =~= block) by {
                assert(hgt as int * wdt as int == wdt as int * hgt as int);
            }
            crate::image::lemma_average_in_range(block);
        }
        let avg = Color::new(
            (r / count as u64) as u8,
            (g / count as u64) as u8,
            (b / count as u64) as u8,
        );

        let mut vsum: u64 = 0;
        let mut y: usize = y0;
        while y < y1
            invariant
                y0 <= y <= y1,
                self.wf(),
                x0 < x1 <= self.width,
                y0 < y1 <= self.height,
                wdt == x1 - x0,
                hgt == y1 - y0,
                count == wdt * hgt <= u32::MAX,
                block == block_of(*self, x0 as int, y0 as int, wdt as int, hgt as int),
                avg == average_of(block),
                vsum == dev_sum(block.subrange(0, (y - y0) * wdt), avg),
            decreases y1 - y,
        {
            let mut x: usize = x0;
            while x < x1
                invariant
                    x0 <= x <= x1,
                    y0 <= y < y1,
                    self.wf(),
                    x0 < x1 <= self.width,
                    y0 < y1 <= self.height,
                    wdt == x1 - x0,
                    hgt == y1 - y0,
                    count == wdt * hgt <= u32::MAX,
                    block == block_of(*self, x0 as int, y0 as int, wdt as int, hgt as int),
                    avg == average_of(block),
                    vsum == dev_sum(block.subrange(0, (y - y0) * wdt + (x - x0)), avg),
                decreases x1 - x,
            {
                let ghost n = (y - y0) as int * wdt + (x - x0);
                proof {
                    lemma_row_major_index((x - x0) as int, (y - y0) as int, wdt as int, hgt as int);
                    lemma_fundamental_div_mod_converse(
                        n,
                        wdt as int,
                        (y - y0) as int,
                        (x - x0) as int,
                    );
                    lemma_dev_sum_bounds(block.subrange(0, n), avg);
                    assert(block.subrange(0, n + 1).drop_last() =~= block.subrange(0, n));
                    assert(n < count) by (nonlinear_arith)
                        requires
                            0 <= (y - y0) < hgt,
                            0 <= (x - x0) < wdt,
                            n == (y - y0) * wdt + (x - x0),
                            count == wdt * hgt,
                            wdt >= 1,
                    ;
                    assert(65025 * n + 65025 <= 65025 * count) by (nonlinear_arith)
                        requires
                            n < count,
                    ;
                }
                let p = self.get(x, y);
                let dr = p.r as i64 - avg.r as i64;
                let dg = p.g as i64 - avg.g as i64;
                let db = p.b as i64 - avg.b as i64;
                proof {
                    lemma_square_bound(dr as int, 255);
                    lemma_square_bound(dg as int, 255);
                    lemma_square_bound(db as int, 255);
                }
                let term = (dr * dr + dg * dg + db * db) / 3;
                vsum += term as u64;
                x += 1;
            }
            proof {
                assert((y - y0) as int * wdt + wdt == (y + 1 - y0) as int * wdt)
                    by (nonlinear_arith);
            }
            y += 1;
        }
        proof {
            assert(block.subrange(0, (hgt * wdt) as int) =~= block) by {
                assert(hgt as int * wdt as int == wdt as int * hgt as int);
            }
            lemma_dev_sum_bounds(block, avg);
            assert(dev_sum(block, avg) / (count as int) <= 65025) by (nonlinear_arith)
                requires
                    1 <= count,
                    0 <= dev_sum(block, avg) <= 65025 * count,
            ;
        }
        let variance = (vsum / count as u64) as u32;
        (avg, variance)
    }

    /// Edge-preserving smoothing: each interior sample becomes the mean of
    /// the flattest of the four overlapping quadrants around it, the earliest
    /// quadrant winning ties. An even kernel size falls to the nearest
    /// smaller odd size; the border ring the window cannot cover becomes
    /// black.
    pub fn basic_kuwahara_filter(&self, target: &mut Image, kernel_size: usize)
        requires
            self.wf(),
            old(target).wf(),
            self.same_dims(*old(target)),
            kernel_size <= 0xffff,
            kuwahara_size(kernel_size as int) / 2 <= self.width,
            kuwahara_size(kernel_size as int) / 2 <= self.height,
        ensures
            final(target).wf(),
            final(target).width == old(target).width,
            final(target).height == old(target).height,
            forall|x: int, y: int|
                0 <= x < self.width && 0 <= y < self.height ==> #[trigger] final(target).pix(x, y)
                    == if interior(
                    kuwahara_size(kernel_size as int),
                    self.width as int,
                    self.height as int,
                    x,
                    y,
                ) {
                    kuwahara_basic_pixel(*self, kuwahara_size(kernel_size as int), x, y)
                } else {
                    Color { r: 0, g: 0, b: 0 }
                },
    {
        let ks = if kernel_size % 2 == 0 {
            (if kernel_size < 2 {
                2
            } else {
                kernel_size
            }) - 1
        } else {
            kernel_size
        };
        let w = self.width;
        let h = self.height;
        let half = ks / 2;
        let c2 = ks - half;
        let mut y: usize = 0;
        while y < h
            invariant
                y <= h,
                w == self.width,
                h == self.height,
                self.wf(),
                target.wf(),
                target.width == w,
                target.height == h,
                ks == kuwahara_size(kernel_size as int),
                ks % 2 == 1,
                1 <= ks <= 0xffff,
                half == ks / 2,
                c2 == ks - half,
                half <= w,
                half <= h,
                forall|xx: int, yy: int|
                    0 <= xx < w && 0 <= yy < y ==> #[trigger] target.pix(xx, yy) == if interior(
                        ks as int,
                        w as int,
                        h as int,
                        xx,
                        yy,
                    ) {
                        kuwahara_basic_pixel(*self, ks as int, xx, yy)
                    } else {
                        Color { r: 0, g: 0, b: 0 }
                    },
            decreases h - y,
        {
            let mut x: usize = 0;
            while x < w
                invariant
                    x <= w,
                    y < h,
                    w == self.width,
                    h == self.height,
                    self.wf(),
                    target.wf(),
                    target.width == w,
                    target.height == h,
                    ks == kuwahara_size(kernel_size as int),
                    ks % 2 == 1,
                    1 <= ks <= 0xffff,
                    half == ks / 2,
                    c2 == ks - half,
                    half <= w,
                    half <= h,
                    forall|xx: int, yy: int|
                        0 <= xx < w && 0 <= yy < y ==> #[trigger] target.pix(xx, yy) == if interior(
                            ks as int,
                            w as int,
                            h as int,
                            xx,
                            yy,
                        ) {
                            kuwahara_basic_pixel(*self, ks as int, xx, yy)
                        } else {
                            Color { r: 0, g: 0, b: 0 }
                        },
                    forall|xx: int|
                        0 <= xx < x ==> #[trigger] target.pix(xx, y as int) == if interior(
                            ks as int,
                            w as int,
                            h as int,
                            xx,
                            y as int,
                        ) {
                            kuwahara_basic_pixel(*self, ks as int, xx, y as int)
                        } else {
                            Color { r: 0, g: 0, b: 0 }
                        },
                decreases w - x,
            {
                let ghost before = *target;
                if x >= half && x < w - half && y >= half && y < h - half {
                    proof {
                        crate::math::lemma_mul_bound(c2 as int, 32768, c2 as int, 32768);
                    }
                    let wx = x - half;
                    let wy = y - half;
                    let (m0, v0) = self.get_average_colour_and_variance_of_block(
                        wx,
                        wx + c2,
                        wy,
                        wy + c2,
                    );
                    let (m1, v1) = self.get_average_colour_and_variance_of_block(
                        wx + half,
                        wx + ks,
                        wy,
                        wy + c2,
                    );
                    let (m2, v2) = self.get_average_colour_and_variance_of_block(
                        wx,
                        wx + c2,
                        wy + half,
                        wy + ks,
                    );
                    let (m3, v3) = self.get_average_colour_and_variance_of_block(
                        wx + half,
                        wx + ks,
                        wy + half,
                        wy + ks,
                    );
                    let mut output = m0;
                    let mut lowest_variance = v0;
                    if v1 < lowest_variance {
                        lowest_variance = v1;
                        output = m1;
                    }
                    if v2 < lowest_variance {
                        lowest_variance = v2;
                        output = m2;
                    }
                    if v3 < lowest_variance {
                        output = m3;
                    }
                    target.set(x, y, output);
                } else {
                    target.set(x, y, Color::new(0, 0, 0));
                }
                proof {
                    lemma_row_major_index(x as int, y as int, w as int, h as int);
                    assert forall|xx: int, yy: int|
                        0 <= xx < w && 0 <= yy < h && (xx != x || yy != y) implies #[trigger]
                        target.pix(xx, yy) == before.pix(xx, yy) by {
                        lemma_row_major_index(xx, yy, w as int, h as int);
                        lemma_row_major_distinct(xx, yy, x as int, y as int, w as int);
                    }
                }
                x += 1;
            }
            y += 1;
        }
    }

    /// Tie-aware edge-preserving smoothing: as the basic quadrant filter, but
    /// a later quadrant whose variance equals the running minimum blends its
    /// mean half-and-half into the output. An even kernel size falls to the
    /// nearest smaller odd size before processing.
    pub fn improved_kuwahara_filter(&self, target: &mut Image, kernel_size: usize)
        requires
            self.wf(),
            old(target).wf(),
            self.same_dims(*old(target)),
            kernel_size <= 0xffff,
            kuwahara_size(kernel_size as int) / 2 <= self.width,
            kuwahara_size(kernel_size as int) / 2 <= self.height,
        ensures
            final(target).wf(),
            final(target).width == old(target).width,
            final(target).height == old(target).height,
            forall|x: int, y: int|
                0 <= x < self.width && 0 <= y < self.height ==> #[trigger] final(target).pix(x, y)
                    == if interior(
                    kuwahara_size(kernel_size as int),
                    self.width as int,
                    self.height as int,
                    x,
                    y,
                ) {
                    kuwahara_improved_pixel(*self, kuwahara_size(kernel_size as int), x, y)
                } else {
                    Color { r: 0, g: 0, b: 0 }
                },
    {
        let ks = if kernel_size % 2 == 0 {
            (if kernel_size < 2 {
                2
            } else {
                kernel_size
            }) - 1
        } else {
            kernel_size
        };
        let w = self.width;
        let h = self.height;
        let half = ks / 2;
        let c2 = ks - half;
        let mut y: usize = 0;
        while y < h
            invariant
                y <= h,
                w == self.width,
                h == self.height,
                self.wf(),
                target.wf(),
                target.width == w,
                target.height == h,
                ks == kuwahara_size(kernel_size as int),
                ks % 2 == 1,
                1 <= ks <= 0xffff,
                half == ks / 2,
                c2 == ks - half,
                half <= w,
                half <= h,
                forall|xx: int, yy: int|
                    0 <= xx < w && 0 <= yy < y ==> #[trigger] target.pix(xx, yy) == if interior(
                        ks as int,
                        w as int,
                        h as int,
                        xx,
                        yy,
                    ) {
                        kuwahara_improved_pixel(*self, ks as int, xx, yy)
                    } else {
                        Color { r: 0, g: 0, b: 0 }
                    },
            decreases h - y,
        {
            let mut x: usize = 0;
            while x < w
                invariant
                    x <= w,
                    y < h,
                    w == self.width,
                    h == self.height,
                    self.wf(),
                    target.wf(),
                    target.width == w,
                    target.height == h,
                    ks == kuwahara_size(kernel_size as int),
                    ks % 2 == 1,
                    1 <= ks <= 0xffff,
                    half == ks / 2,
                    c2 == ks - half,
                    half <= w,
                    half <= h,
                    forall|xx: int, yy: int|
                        0 <= xx < w && 0 <= yy < y ==> #[trigger] target.pix(xx, yy) == if interior(
                            ks as int,
                            w as int,
                            h as int,
                            xx,
                            yy,
                        ) {
                            kuwahara_improved_pixel(*self, ks as int, xx, yy)
                        } else {
                            Color { r: 0, g: 0, b: 0 }
                        },
                    forall|xx: int|
                        0 <= xx < x ==> #[trigger] target.pix(xx, y as int) == if interior(
                            ks as int,
                            w as int,
                            h as int,
                            xx,
                            y as int,
                        ) {
                            kuwahara_improved_pixel(*self, ks as int, xx, y as int)
                        } else {
                            Color { r: 0, g: 0, b: 0 }
                        },
                decreases w - x,
            {
                let ghost before = *target;
                if x >= half && x < w - half && y >= half && y < h - half {
                    proof {
                        crate::math::lemma_mul_bound(c2 as int, 32768, c2 as int, 32768);
                    }
                    let wx = x - half;
                    let wy = y - half;
                    let (m0, v0) = self.get_average_colour_and_variance_of_block(
                        wx,
                        wx + c2,
                        wy,
                        wy + c2,
                    );
                    let (m1, v1) = self.get_average_colour_and_variance_of_block(
                        wx + half,
                        wx + ks,
                        wy,
                        wy + c2,
                    );
                    let (m2, v2) = self.get_average_colour_and_variance_of_block(
                        wx,
                        wx + c2,
                        wy + half,
                        wy + ks,
                    );
                    let (m3, v3) = self.get_average_colour_and_variance_of_block(
                        wx + half,
                        wx + ks,
                        wy + half,
                        wy + ks,
                    );
                    let mut output = m0;
                    let mut lowest_variance = v0;
                    if v1 < lowest_variance {
                        lowest_variance = v1;
                        output = m1;
                    } else if v1 == lowest_variance {
                        output = blend_mean(m1, output);
                    }
                    if v2 < lowest_variance {
                        lowest_variance = v2;
                        output = m2;
                    } else if v2 == lowest_variance {
                        output = blend_mean(m2, output);
                    }
                    if v3 < lowest_variance {
                        output = m3;
                    } else if v3 == lowest_variance {
                        output = blend_mean(m3, output);
                    }
                    target.set(x, y, output);
                } else {
                    target.set(x, y, Color::new(0, 0, 0));
                }
                proof {
                    lemma_row_major_index(x as int, y as int, w as int, h as int);
                    assert forall|xx: int, yy: int|
                        0 <= xx < w && 0 <= yy < h && (xx != x || yy != y) implies #[trigger]
                        target.pix(xx, yy) == before.pix(xx, yy) by {
                        lemma_row_major_index(xx, yy, w as int, h as int);
                        lemma_row_major_distinct(xx, yy, x as int, y as int, w as int);
                    }
                }
                x += 1;
            }
            y += 1;
        }
    }
}

} // verus!

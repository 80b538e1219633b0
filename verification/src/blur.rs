use vstd::prelude::*;

verus! {

use crate::color::Color;
use crate::convolve::interior;
use crate::image::{Image, average_of, get_average_colour, lemma_average_in_range, sum_r, sum_g,
    sum_b};
use crate::math::{lemma_row_major_distinct, lemma_row_major_index};
use vstd::slice::slice_subrange;

/// The horizontal-pass sample at `(x, y)`: the average of the full window of
/// `k` samples in row `y` centered on `x` (for odd `k`; an even window leans
/// one sample left of center).
pub open spec fn havg(src: Image, k: int, x: int, y: int) -> Color {
    average_of(
        src.pixels@.subrange(y * src.width + x - k / 2, y * src.width + x + (k - k / 2)),
    )
}

/// The column of `k` horizontal-pass samples centered on `(x, y)`.
pub open spec fn box_column(src: Image, k: int, x: int, y: int) -> Seq<Color> {
    Seq::new(k as nat, |i: int| havg(src, k, x, y - k / 2 + i))
}

/// The sample the separable box blur writes at an interior position: the
/// average of a column of horizontal window averages. Each pass truncates its
/// division, so this agrees with the direct uniform convolution only up to
/// the order of truncation.
pub open spec fn box_blur_pixel(src: Image, k: int, x: int, y: int) -> Color {
    average_of(box_column(src, k, x, y))
}

impl Image {
    /// Box blur as two sliding one-dimensional averaging passes: horizontal
    /// into the scratch buffer `temp`, then vertical into `target`. The
    /// border ring the kernel cannot reach becomes black.
    pub fn efficient_box_blur(&mut self, target: &mut Image, temp: &mut Image, kernel_size: usize)
        requires
            old(self).wf(),
            old(target).wf(),
            old(temp).wf(),
            old(self).same_dims(*old(target)),
            old(self).same_dims(*old(temp)),
            1 <= kernel_size <= 0xffff_ffff,
            kernel_size / 2 <= old(self).width,
            kernel_size / 2 <= old(self).height,
        ensures
            *final(self) == *old(self),
            final(temp).wf(),
            final(temp).width == old(temp).width,
            final(temp).height == old(temp).height,
            forall|x: int, y: int|
                0 <= x < old(self).width && 0 <= y < old(self).height
                    ==> #[trigger] final(temp).pix(x, y) == if kernel_size / 2 <= x < old(
                    self,
                ).width - kernel_size / 2 {
                    havg(*old(self), kernel_size as int, x, y)
                } else {
                    old(temp).pix(x, y)
                },
            final(target).wf(),
            final(target).width == old(target).width,
            final(target).height == old(target).height,
            forall|x: int, y: int|
                0 <= x < old(self).width && 0 <= y < old(self).height
                    ==> #[trigger] final(target).pix(x, y) == if interior(
                    kernel_size as int,
                    old(self).width as int,
                    old(self).height as int,
                    x,
                    y,
                ) {
                    box_blur_pixel(*old(self), kernel_size as int, x, y)
                } else {
                    Color { r: 0, g: 0, b: 0 }
                },
    {
        let ghost src = *self;
        let ghost temp0 = *temp;
        let w = self.width;
        let h = self.height;
        let k = kernel_size;
        let half = k / 2;

        // Horizontal pass: every row, columns with a full horizontal window.
        let mut y: usize = 0;
        while y < h
            invariant
                y <= h,
                *self == src,
                w == src.width,
                h == src.height,
                k == kernel_size,
                half == k / 2,
                1 <= k <= 0xffff_ffff,
                half <= w,
                half <= h,
                src.wf(),
                temp.wf(),
                temp.width == w,
                temp.height == h,
                forall|xx: int, yy: int|
                    0 <= xx < w && 0 <= yy < y && half <= xx < w - half ==> #[trigger] temp.pix(
                        xx,
                        yy,
                    ) == havg(src, k as int, xx, yy),
                forall|xx: int, yy: int|
                    0 <= xx < w && 0 <= yy < h && !(half <= xx < w - half && yy < y)
                        ==> #[trigger] temp.pix(xx, yy) == temp0.pix(xx, yy),
            decreases h - y,
        {
            let mut x: usize = half;
            while x < w - half
                invariant
                    half <= x <= w,
                    y < h,
                    *self == src,
                    w == src.width,
                    h == src.height,
                    k == kernel_size,
                    half == k / 2,
                    1 <= k <= 0xffff_ffff,
                    half <= w,
                    half <= h,
                    src.wf(),
                    temp.wf(),
                    temp.width == w,
                    temp.height == h,
                    forall|xx: int, yy: int|
                        0 <= xx < w && 0 <= yy < y && half <= xx < w - half ==> #[trigger] temp.pix(
                            xx,
                            yy,
                        ) == havg(src, k as int, xx, yy),
                    forall|xx: int|
                        half <= xx < x ==> #[trigger] temp.pix(xx, y as int) == havg(
                            src,
                            k as int,
                            xx,
                            y as int,
                        ),
                    forall|xx: int, yy: int|
                        0 <= xx < w && 0 <= yy < h && !(half <= xx < w - half && (yy < y || (yy == y
                            && xx < x))) ==> #[trigger] temp.pix(xx, yy) == temp0.pix(xx, yy),
                decreases w - half - x,
            {
                proof {
                    lemma_row_major_index(x as int, y as int, w as int, h as int);
                    assert((y as int + 1) * w == y as int * w + w && (y as int + 1) * w <= h as int
                        * w) by (nonlinear_arith)
                        requires
                            0 <= y as int,
                            y as int + 1 <= h as int,
                            0 <= w,
                    ;
                    assert(k as int - 2 * (k as int / 2) <= 1) by {
                        vstd::arithmetic::div_mod::lemma_fundamental_div_mod(k as int, 2);
                        vstd::arithmetic::div_mod::lemma_mod_division_less_than_divisor(
                            k as int,
                            2,
                        );
                    }
                }
                let index = y * w + x;
                let window = slice_subrange(
                    self.pixels.as_slice(),
                    index - half,
                    index + (k - half),
                );
                let avg = get_average_colour(window);
                let ghost before = *temp;
                temp.set(x, y, avg);
                proof {
                    assert forall|xx: int, yy: int|
                        0 <= xx < w && 0 <= yy < h && (xx != x || yy != y) implies #[trigger]
                        temp.pix(xx, yy) == before.pix(xx, yy) by {
                        lemma_row_major_index(xx, yy, w as int, h as int);
                        lemma_row_major_distinct(xx, yy, x as int, y as int, w as int);
                    }
                }
                x += 1;
            }
            y += 1;
        }

        // Vertical pass: average a full column of horizontal averages.
        let ghost tmid = *temp;
        let mut y: usize = half;
        while y < h - half
            invariant
                half <= y <= h,
                *self == src,
                *temp == tmid,
                w == src.width,
                h == src.height,
                k == kernel_size,
                half == k / 2,
                1 <= k <= 0xffff_ffff,
                half <= w,
                half <= h,
                src.wf(),
                temp.wf(),
                temp.width == w,
                temp.height == h,
                target.wf(),
                target.width == w,
                target.height == h,
                forall|xx: int, yy: int|
                    0 <= xx < w && 0 <= yy < h && half <= xx < w - half ==> #[trigger] temp.pix(
                        xx,
                        yy,
                    ) == havg(src, k as int, xx, yy),
                forall|xx: int, yy: int|
                    interior(k as int, w as int, h as int, xx, yy) && yy < y ==> #[trigger]
                    target.pix(xx, yy) == box_blur_pixel(src, k as int, xx, yy),
            decreases h - y,
        {
            let mut x: usize = half;
            while x < w - half
                invariant
                    half <= x <= w,
                    half <= y < h - half,
                    *self == src,
                    *temp == tmid,
                    w == src.width,
                    h == src.height,
                    k == kernel_size,
                    half == k / 2,
                    1 <= k <= 0xffff_ffff,
                    half <= w,
                    half <= h,
                    src.wf(),
                    temp.wf(),
                    temp.width == w,
                    temp.height == h,
                    target.wf(),
                    target.width == w,
                    target.height == h,
                    forall|xx: int, yy: int|
                        0 <= xx < w && 0 <= yy < h && half <= xx < w - half ==> #[trigger] temp.pix(
                            xx,
                            yy,
                        ) == havg(src, k as int, xx, yy),
                    forall|xx: int, yy: int|
                        interior(k as int, w as int, h as int, xx, yy) && yy < y ==> #[trigger]
                        target.pix(xx, yy) == box_blur_pixel(src, k as int, xx, yy),
                    forall|xx: int|
                        interior(k as int, w as int, h as int, xx, y as int) && xx < x
                            ==> #[trigger] target.pix(xx, y as int) == box_blur_pixel(
                            src,
                            k as int,
                            xx,
                            y as int,
                        ),
                decreases w - half - x,
            {
                let ghost column = box_column(src, k as int, x as int, y as int);
                let mut r: u64 = 0;
                let mut g: u64 = 0;
                let mut b: u64 = 0;
                let mut j: usize = 0;
                while j < k
                    invariant
                        j <= k,
                        half <= x < w - half,
                        half <= y < h - half,
                        *temp == tmid,
                        w == src.width,
                        h == src.height,
                        k == kernel_size,
                        half == k / 2,
                        1 <= k <= 0xffff_ffff,
                        half <= h,
                        temp.wf(),
                        temp.width == w,
                        temp.height == h,
                        column == box_column(src, k as int, x as int, y as int),
                        forall|xx: int, yy: int|
                            0 <= xx < w && 0 <= yy < h && half <= xx < w - half
                                ==> #[trigger] temp.pix(xx, yy) == havg(src, k as int, xx, yy),
                        r == sum_r(column.subrange(0, j as int)),
                        g == sum_g(column.subrange(0, j as int)),
                        b == sum_b(column.subrange(0, j as int)),
                    decreases k - j,
                {
                    proof {
                        crate::image::lemma_channel_sum_bounds(column.subrange(0, j as int));
                        assert(column.subrange(0, j + 1).drop_last() =~= column.subrange(
                            0,
                            j as int,
                        ));
                    }
                    let colour = temp.get(x, y - half + j);
                    r += colour.r as u64;
                    g += colour.g as u64;
                    b += colour.b as u64;
                    j += 1;
                }
                proof {
                    assert(column.subrange(0, k as int) =~= column);
                    lemma_average_in_range(column);
                }
                let cr = (r / k as u64) as u8;
                let cg = (g / k as u64) as u8;
                let cb = (b / k as u64) as u8;
                let ghost before = *target;
                target.set(x, y, Color::new(cr, cg, cb));
                proof {
                    lemma_row_major_index(x as int, y as int, w as int, h as int);
                    assert forall|xx: int, yy: int|
                        0 <= xx < w && 0 <= yy < h && (xx != x || yy != y) implies #[trigger]
                        target.pix(xx, yy) == before.pix(xx, yy) by {
                        lemma_row_major_index(xx, yy, w as int, h as int);
                        lemma_row_major_distinct(xx, yy, x as int, y as int, w as int);
                    }
                }
                x += 1;
            }
            y += 1;
        }

        // The ring the window never fully covers is filled flat black.
        self.handle_edges(
            target,
            k,
            (|_img: &Image, _s: usize, _xy: (usize, usize)| -> (c: Color)
                ensures
                    c == (Color { r: 0, g: 0, b: 0 }),
                {
                    Color::new(0, 0, 0)
                }),
        );
        proof {
            assert forall|x: int, y: int|
                0 <= x < src.width && 0 <= y < src.height && !interior(
                    k as int,
                    src.width as int,
                    src.height as int,
                    x,
                    y,
                ) implies #[trigger] target.pix(x, y) == (Color { r: 0, g: 0, b: 0 }) by {
                let xu = x as usize;
                let yu = y as usize;
                assert(target.pix(xu as int, yu as int) == target.pix(x, y));
            }
        }
    }
}

} // verus!

use vstd::prelude::*;

verus! {

use crate::color::{Color, clamp255};
use crate::image::Image;
use crate::math::{
    lemma_row_major_distinct, lemma_row_major_index, lemma_weight_term_bound, tdiv, tdiv_i128,
};
use vstd::arithmetic::div_mod::{lemma_fundamental_div_mod_converse, lemma_multiply_divide_lt};

/// Channel `ch` of a color: 0 selects red, 1 green, 2 blue.
pub open spec fn channel_of(c: Color, ch: int) -> int {
    if ch == 0 {
        c.r as int
    } else if ch == 1 {
        c.g as int
    } else {
        c.b as int
    }
}

/// `(x, y)` is far enough from every edge for a full `k`-by-`k` neighborhood
/// to lie inside a `w`-by-`h` buffer.
pub open spec fn interior(k: int, w: int, h: int, x: int, y: int) -> bool {
    k / 2 <= x < w - k / 2 && k / 2 <= y < h - k / 2
}

/// The weighted neighborhood sum of channel `ch` around `(x, y)`, over the
/// first `n` entries of the row-major `k`-by-`k` kernel `ws`.
pub open spec fn conv_sum(img: Image, ws: Seq<i32>, k: int, x: int, y: int, ch: int, n: int) -> int
    decreases n,
{
    if n <= 0 {
        0
    } else {
        conv_sum(img, ws, k, x, y, ch, n - 1) + ws[n - 1] * channel_of(
            img.pix(x - k / 2 + (n - 1) % k, y - k / 2 + (n - 1) / k),
            ch,
        )
    }
}

/// The color a kernel convolution writes at `(x, y)`: per channel, the full
/// weighted neighborhood sum, divided by `denom` with truncation, clamped
/// into `[0, 255]`.
pub open spec fn conv_pixel(img: Image, ws: Seq<i32>, k: int, denom: int, x: int, y: int) -> Color {
    Color {
        r: clamp255(tdiv(conv_sum(img, ws, k, x, y, 0, k * k), denom)) as u8,
        g: clamp255(tdiv(conv_sum(img, ws, k, x, y, 1, k * k), denom)) as u8,
        b: clamp255(tdiv(conv_sum(img, ws, k, x, y, 2, k * k), denom)) as u8,
    }
}

/// `ws` is the row-major grid of weights that the generator `f` yields for a
/// `k`-by-`k` kernel.
pub open spec fn kernel_weights_of<F: Fn(usize, (usize, usize)) -> i32>(
    f: F,
    k: int,
    ws: Seq<i32>,
) -> bool {
    ws.len() == k * k && forall|kx: int, ky: int|
        0 <= kx < k && 0 <= ky < k ==> call_ensures(
            f,
            (k as usize, (kx as usize, ky as usize)),
            #[trigger] ws[ky * k + kx],
        )
}

impl Image {
    /// Apply one square kernel, given as a row-major weight grid, to every
    /// pixel whose full neighborhood lies inside the buffer. The border ring
    /// is left untouched by design: pair this with `handle_edges`.
    pub fn convolve_with(
        &self,
        target: &mut Image,
        kernel_size: usize,
        weights: &Vec<i32>,
        denominator: i32,
    )
        requires
            self.wf(),
            old(target).wf(),
            self.same_dims(*old(target)),
            denominator != 0,
            weights.len() == kernel_size * kernel_size,
            kernel_size / 2 <= self.width,
            kernel_size / 2 <= self.height,
        ensures
            final(target).wf(),
            final(target).width == old(target).width,
            final(target).height == old(target).height,
            forall|x: int, y: int|
                interior(kernel_size as int, self.width as int, self.height as int, x, y)
                    ==> #[trigger] final(target).pix(x, y) == conv_pixel(
                    *self,
                    weights@,
                    kernel_size as int,
                    denominator as int,
                    x,
                    y,
                ),
            forall|x: int, y: int|
                0 <= x < self.width && 0 <= y < self.height && !interior(
                    kernel_size as int,
                    self.width as int,
                    self.height as int,
                    x,
                    y,
                ) ==> #[trigger] final(target).pix(x, y) == old(target).pix(x, y),
    {
        let w = self.width;
        let h = self.height;
        let k = kernel_size;
        let half = k / 2;
        let total = weights.len();
        let ghost t0 = *target;
        let ghost ki = k as int;
        let mut y: usize = half;
        while y < h - half
            invariant
                half <= y <= h,
                w == self.width,
                h == self.height,
                k == kernel_size,
                half == k / 2,
                half <= w,
                half <= h,
                total == weights.len() == k * k,
                denominator != 0,
                self.wf(),
                target.wf(),
                target.width == w,
                target.height == h,
                forall|xx: int, yy: int|
                    interior(k as int, w as int, h as int, xx, yy) && yy < y
                        ==> #[trigger] target.pix(xx, yy) == conv_pixel(
                        *self,
                        weights@,
                        k as int,
                        denominator as int,
                        xx,
                        yy,
                    ),
                forall|xx: int, yy: int|
                    0 <= xx < w && 0 <= yy < h && !(interior(k as int, w as int, h as int, xx, yy)
                        && yy < y) ==> #[trigger] target.pix(xx, yy) == t0.pix(xx, yy),
            decreases h - y,
        {
            let mut x: usize = half;
            while x < w - half
                invariant
                    half <= x <= w,
                    half <= y < h - half,
                    w == self.width,
                    h == self.height,
                    k == kernel_size,
                    half == k / 2,
                    half <= w,
                    half <= h,
                    total == weights.len() == k * k,
                    denominator != 0,
                    self.wf(),
                    target.wf(),
                    target.width == w,
                    target.height == h,
                    forall|xx: int, yy: int|
                        interior(k as int, w as int, h as int, xx, yy) && yy < y
                            ==> #[trigger] target.pix(xx, yy) == conv_pixel(
                            *self,
                            weights@,
                            k as int,
                            denominator as int,
                            xx,
                            yy,
                        ),
                    forall|xx: int|
                        interior(k as int, w as int, h as int, xx, y as int) && xx < x
                            ==> #[trigger] target.pix(xx, y as int) == conv_pixel(
                            *self,
                            weights@,
                            k as int,
                            denominator as int,
                            xx,
                            y as int,
                        ),
                    forall|xx: int, yy: int|
                        0 <= xx < w && 0 <= yy < h && !(interior(
                            k as int,
                            w as int,
                            h as int,
                            xx,
                            yy,
                        ) && (yy < y || (yy == y && xx < x))) ==> #[trigger] target.pix(xx, yy)
                            == t0.pix(xx, yy),
                decreases w - x,
            {
                let mut racc: i128 = 0;
                let mut gacc: i128 = 0;
                let mut bacc: i128 = 0;
                let mut i: usize = 0;
                while i < total
                    invariant
                        i <= total,
                        total == weights.len() == k * k,
                        half == k / 2,
                        half <= x < w - half,
                        half <= y < h - half,
                        w == self.width,
                        h == self.height,
                        self.wf(),
                        racc == conv_sum(*self, weights@, k as int, x as int, y as int, 0, i as int),
                        gacc == conv_sum(*self, weights@, k as int, x as int, y as int, 1, i as int),
                        bacc == conv_sum(*self, weights@, k as int, x as int, y as int, 2, i as int),
                        -(i as int) * 0x7f_8000_0000 <= racc <= (i as int) * 0x7f_8000_0000,
                        -(i as int) * 0x7f_8000_0000 <= gacc <= (i as int) * 0x7f_8000_0000,
                        -(i as int) * 0x7f_8000_0000 <= bacc <= (i as int) * 0x7f_8000_0000,
                    decreases total - i,
                {
                    assert(k > 0);
                    let kx = i % k;
                    let ky = i / k;
                    proof {
                        lemma_multiply_divide_lt(i as int, k as int, k as int);
                        assert(k as int - 1 - 2 * (k as int / 2) <= 0) by {
                            vstd::arithmetic::div_mod::lemma_fundamental_div_mod(k as int, 2);
                            vstd::arithmetic::div_mod::lemma_mod_division_less_than_divisor(
                                k as int,
                                2,
                            );
                        }
                    }
                    let px = x - half + kx;
                    let py = y - half + ky;
                    let p = self.get(px, py);
                    let wv = weights[i];
                    proof {
                        lemma_weight_term_bound(wv as int, p.r as int);
                        lemma_weight_term_bound(wv as int, p.g as int);
                        lemma_weight_term_bound(wv as int, p.b as int);
                    }
                    racc += wv as i128 * p.r as i128;
                    gacc += wv as i128 * p.g as i128;
                    bacc += wv as i128 * p.b as i128;
                    i += 1;
                }
                let qr = tdiv_i128(racc, denominator as i128);
                let qg = tdiv_i128(gacc, denominator as i128);
                let qb = tdiv_i128(bacc, denominator as i128);
                let cr: u8 = if qr < 0 {
                    0
                } else if qr > 255 {
                    255
                } else {
                    qr as u8
                };
                let cg: u8 = if qg < 0 {
                    0
                } else if qg > 255 {
                    255
                } else {
                    qg as u8
                };
                let cb: u8 = if qb < 0 {
                    0
                } else if qb > 255 {
                    255
                } else {
                    qb as u8
                };
                let ghost before = *target;
                target.set(x, y, Color::new(cr, cg, cb));
                proof {
                    lemma_row_major_index(x as int, y as int, w as int, h as int);
                    assert forall|xx: int, yy: int|
                        0 <= xx < w && 0 <= yy < h && (xx != x || yy != y) implies #[trigger]
                        target.pix(xx, yy) == before.pix(xx, yy) by {
                        lemma_row_major_index(xx, yy, w as int, h as int);
                        lemma_row_major_distinct(xx, yy, x as int, y as int, w as int);
                    }
                }
                x += 1;
            }
            y += 1;
        }
    }

    /// Apply one square kernel to every pixel whose full neighborhood lies
    /// inside the buffer, the kernel given as a weight generator: a pure
    /// function from kernel coordinates to an integer multiple of
    /// `1 / denominator`. The generator is consulted once per kernel cell.
    /// The border ring is left untouched by design: pair this with
    /// `handle_edges`.
    pub fn convolve<F: Fn(usize, (usize, usize)) -> i32>(
        &self,
        target: &mut Image,
        kernel_size: usize,
        kernel_generator: F,
        denominator: i32,
    )
        requires
            self.wf(),
            old(target).wf(),
            self.same_dims(*old(target)),
            denominator != 0,
            kernel_size * kernel_size <= usize::MAX,
            kernel_size / 2 <= self.width,
            kernel_size / 2 <= self.height,
            forall|kx: usize, ky: usize|
                kx < kernel_size && ky < kernel_size ==> call_requires(
                    kernel_generator,
                    (kernel_size, (kx, ky)),
                ),
        ensures
            final(target).wf(),
            final(target).width == old(target).width,
            final(target).height == old(target).height,
            exists|ws: Seq<i32>|
                #![auto]
                kernel_weights_of(kernel_generator, kernel_size as int, ws) && (forall|
                    x: int,
                    y: int,
                |
                    interior(kernel_size as int, self.width as int, self.height as int, x, y)
                        ==> final(target).pix(x, y) == conv_pixel(
                        *self,
                        ws,
                        kernel_size as int,
                        denominator as int,
                        x,
                        y,
                    )),
            forall|x: int, y: int|
                0 <= x < self.width && 0 <= y < self.height && !interior(
                    kernel_size as int,
                    self.width as int,
                    self.height as int,
                    x,
                    y,
                ) ==> #[trigger] final(target).pix(x, y) == old(target).pix(x, y),
    {
        let k = kernel_size;
        let total = k * k;
        let mut weights: Vec<i32> = Vec::new();
        let mut i: usize = 0;
        while i < total
            invariant
                i <= total,
                total == k * k,
                k == kernel_size,
                weights.len() == i,
                forall|kx: usize, ky: usize|
                    kx < k && ky < k ==> call_requires(kernel_generator, (k, (kx, ky))),
                forall|j: int|
                    0 <= j < i ==> call_ensures(
                        kernel_generator,
                        (k, ((j % (k as int)) as usize, (j / (k as int)) as usize)),
                        #[trigger] weights[j],
                    ),
            decreases total - i,
        {
            assert(k > 0);
            let kx = i % k;
            let ky = i / k;
            proof {
                lemma_multiply_divide_lt(i as int, k as int, k as int);
            }
            let wv = kernel_generator(k, (kx, ky));
            weights.push(wv);
            i += 1;
        }
        self.convolve_with(target, kernel_size, &weights, denominator);
        proof {
            assert forall|kx: int, ky: int| 0 <= kx < k && 0 <= ky < k implies call_ensures(
                kernel_generator,
                (k as usize, (kx as usize, ky as usize)),
                #[trigger] weights@[ky * k + kx],
            ) by {
                lemma_row_major_index(kx, ky, k as int, k as int);
                lemma_fundamental_div_mod_converse(ky * k + kx, k as int, ky, kx);
            }
            assert(kernel_weights_of(kernel_generator, k as int, weights@));
        }
    }

    /// Fill the border ring that a `kernel_size` convolution skipped, writing
    /// `edge_handler`'s choice of color into each pixel of the ring; interior
    /// pixels are left untouched.
    pub fn handle_edges<F: Fn(&Image, usize, (usize, usize)) -> Color>(
        &self,
        target: &mut Image,
        kernel_size: usize,
        edge_handler: F,
    )
        requires
            self.wf(),
            old(target).wf(),
            self.same_dims(*old(target)),
            kernel_size / 2 <= self.width,
            kernel_size / 2 <= self.height,
            forall|x: usize, y: usize|
                x < self.width && y < self.height && !interior(
                    kernel_size as int,
                    self.width as int,
                    self.height as int,
                    x as int,
                    y as int,
                ) ==> call_requires(edge_handler, (self, kernel_size, (x, y))),
        ensures
            final(target).wf(),
            final(target).width == old(target).width,
            final(target).height == old(target).height,
            forall|x: usize, y: usize|
                x < self.width && y < self.height && !interior(
                    kernel_size as int,
                    self.width as int,
                    self.height as int,
                    x as int,
                    y as int,
                ) ==> call_ensures(
                    edge_handler,
                    (self, kernel_size, (x, y)),
                    #[trigger] final(target).pix(x as int, y as int),
                ),
            forall|x: int, y: int|
                interior(kernel_size as int, self.width as int, self.height as int, x, y)
                    ==> #[trigger] final(target).pix(x, y) == old(target).pix(x, y),
    {
        let w = self.width;
        let h = self.height;
        let k = kernel_size;
        let half = k / 2;
        let ghost t0 = *target;
        let mut y: usize = 0;
        while y < h
            invariant
                y <= h,
                w == self.width,
                h == self.height,
                k == kernel_size,
                half == k / 2,
                half <= w,
                half <= h,
                self.wf(),
                target.wf(),
                target.width == w,
                target.height == h,
                forall|xx: usize, yy: usize|
                    xx < w && yy < h && !interior(k as int, w as int, h as int, xx as int, yy as int)
                        ==> call_requires(edge_handler, (self, k, (xx, yy))),
                forall|xx: usize, yy: usize|
                    xx < w && yy < y && !interior(k as int, w as int, h as int, xx as int, yy as int)
                        ==> call_ensures(
                        edge_handler,
                        (self, k, (xx, yy)),
                        #[trigger] target.pix(xx as int, yy as int),
                    ),
                forall|xx: int, yy: int|
                    0 <= xx < w && 0 <= yy < h && (interior(k as int, w as int, h as int, xx, yy)
                        || yy >= y) ==> #[trigger] target.pix(xx, yy) == t0.pix(xx, yy),
            decreases h - y,
        {
            let mut x: usize = 0;
            while x < w
                invariant
                    x <= w,
                    y < h,
                    w == self.width,
                    h == self.height,
                    k == kernel_size,
                    half == k / 2,
                    half <= w,
                    half <= h,
                    self.wf(),
                    target.wf(),
                    target.width == w,
                    target.height == h,
                    forall|xx: usize, yy: usize|
                        xx < w && yy < h && !interior(
                            k as int,
                            w as int,
                            h as int,
                            xx as int,
                            yy as int,
                        ) ==> call_requires(edge_handler, (self, k, (xx, yy))),
                    forall|xx: usize, yy: usize|
                        xx < w && yy < y && !interior(
                            k as int,
                            w as int,
                            h as int,
                            xx as int,
                            yy as int,
                        ) ==> call_ensures(
                            edge_handler,
                            (self, k, (xx, yy)),
                            #[trigger] target.pix(xx as int, yy as int),
                        ),
                    forall|xx: usize|
                        xx < x && !interior(k as int, w as int, h as int, xx as int, y as int)
                            ==> call_ensures(
                            edge_handler,
                            (self, k, (xx, y)),
                            #[trigger] target.pix(xx as int, y as int),
                        ),
                    forall|xx: int, yy: int|
                        0 <= xx < w && 0 <= yy < h && (interior(
                            k as int,
                            w as int,
                            h as int,
                            xx,
                            yy,
                        ) || yy > y || (yy == y && xx >= x)) ==> #[trigger] target.pix(xx, yy)
                            == t0.pix(xx, yy),
                decreases w - x,
            {
                let is_border = y < half || y >= h - half || x < half || x >= w - half;
                if is_border {
                    proof {
                        assert(!interior(k as int, w as int, h as int, x as int, y as int));
                        assert(call_requires(edge_handler, (self, k, (x, y))));
                    }
                    let c = edge_handler(self, k, (x, y));
                    let ghost before = *target;
                    target.set(x, y, c);
                    proof {
                        lemma_row_major_index(x as int, y as int, w as int, h as int);
                        assert forall|xx: int, yy: int|
                            0 <= xx < w && 0 <= yy < h && (xx != x || yy != y) implies #[trigger]
                            target.pix(xx, yy) == before.pix(xx, yy) by {
                            lemma_row_major_index(xx, yy, w as int, h as int);
                            lemma_row_major_distinct(xx, yy, x as int, y as int, w as int);
                        }
                    }
                }
                x += 1;
            }
            y += 1;
        }
    }

    /// Apply a 3-by-3 kernel to the interior and carry the source pixel
    /// through unchanged on the one-pixel border ring.
    fn convolve3_source_border(&self, target: &mut Image, weights: &Vec<i32>, denominator: i32)
        requires
            self.wf(),
            old(target).wf(),
            self.same_dims(*old(target)),
            denominator != 0,
            weights.len() == 9,
            self.width >= 1,
            self.height >= 1,
        ensures
            final(target).wf(),
            final(target).width == old(target).width,
            final(target).height == old(target).height,
            forall|x: int, y: int|
                interior(3, self.width as int, self.height as int, x, y)
                    ==> #[trigger] final(target).pix(x, y) == conv_pixel(
                    *self,
                    weights@,
                    3,
                    denominator as int,
                    x,
                    y,
                ),
            forall|x: int, y: int|
                0 <= x < self.width && 0 <= y < self.height && !interior(
                    3,
                    self.width as int,
                    self.height as int,
                    x,
                    y,
                ) ==> #[trigger] final(target).pix(x, y) == self.pix(x, y),
    {
        self.convolve_with(target, 3, weights, denominator);
        self.handle_edges(
            target,
            3,
            (|img: &Image, _s: usize, xy: (usize, usize)| -> (c: Color)
                requires
                    img.wf(),
                    xy.0 < img.width,
                    xy.1 < img.height,
                ensures
                    c == img.pix(xy.0 as int, xy.1 as int),
                {
                    img.get(xy.0, xy.1)
                }),
        );
        proof {
            assert forall|x: int, y: int|
                0 <= x < self.width && 0 <= y < self.height && !interior(
                    3,
                    self.width as int,
                    self.height as int,
                    x,
                    y,
                ) implies #[trigger] target.pix(x, y) == self.pix(x, y) by {
                let xu = x as usize;
                let yu = y as usize;
                assert(target.pix(xu as int, yu as int) == target.pix(x, y));
            }
        }
    }

    /// Sharpen each channel with the fixed 3-by-3 kernel that weighs the
    /// center 5 and its four direct neighbors -1; the border ring carries the
    /// source through unchanged.
    pub fn sharpen_colour(&self, target: &mut Image)
        requires
            self.wf(),
            old(target).wf(),
            self.same_dims(*old(target)),
            self.width >= 1,
            self.height >= 1,
        ensures
            final(target).wf(),
            final(target).width == old(target).width,
            final(target).height == old(target).height,
            forall|x: int, y: int|
                interior(3, self.width as int, self.height as int, x, y)
                    ==> #[trigger] final(target).pix(x, y) == conv_pixel(
                    *self,
                    sharpen_kernel(),
                    3,
                    1,
                    x,
                    y,
                ),
            forall|x: int, y: int|
                0 <= x < self.width && 0 <= y < self.height && !interior(
                    3,
                    self.width as int,
                    self.height as int,
                    x,
                    y,
                ) ==> #[trigger] final(target).pix(x, y) == self.pix(x, y),
    {
        let weights = kernel3_vec(0, -1, 0, -1, 5, -1, 0, -1, 0);
        proof {
            assert(weights@ =~= sharpen_kernel());
        }
        self.convolve3_source_border(target, &weights, 1);
    }

    /// Gaussian smoothing with the fixed 3-by-3 binomial kernel out of 16;
    /// the border ring carries the source through unchanged.
    pub fn gaussian_blur_3x3(&self, target: &mut Image)
        requires
            self.wf(),
            old(target).wf(),
            self.same_dims(*old(target)),
            self.width >= 1,
            self.height >= 1,
        ensures
            final(target).wf(),
            final(target).width == old(target).width,
            final(target).height == old(target).height,
            forall|x: int, y: int|
                interior(3, self.width as int, self.height as int, x, y)
                    ==> #[trigger] final(target).pix(x, y) == conv_pixel(
                    *self,
                    gaussian_kernel(),
                    3,
                    16,
                    x,
                    y,
                ),
            forall|x: int, y: int|
                0 <= x < self.width && 0 <= y < self.height && !interior(
                    3,
                    self.width as int,
                    self.height as int,
                    x,
                    y,
                ) ==> #[trigger] final(target).pix(x, y) == self.pix(x, y),
    {
        let weights = kernel3_vec(1, 2, 1, 2, 4, 2, 1, 2, 1);
        proof {
            assert(weights@ =~= gaussian_kernel());
        }
        self.convolve3_source_border(target, &weights, 16);
    }

    /// Emboss with a fixed 3-by-3 directional-derivative kernel; the border
    /// ring carries the source through unchanged.
    pub fn emboss(&self, target: &mut Image)
        requires
            self.wf(),
            old(target).wf(),
            self.same_dims(*old(target)),
            self.width >= 1,
            self.height >= 1,
        ensures
            final(target).wf(),
            final(target).width == old(target).width,
            final(target).height == old(target).height,
            forall|x: int, y: int|
                interior(3, self.width as int, self.height as int, x, y)
                    ==> #[trigger] final(target).pix(x, y) == conv_pixel(
                    *self,
                    emboss_kernel(),
                    3,
                    1,
                    x,
                    y,
                ),
            forall|x: int, y: int|
                0 <= x < self.width && 0 <= y < self.height && !interior(
                    3,
                    self.width as int,
                    self.height as int,
                    x,
                    y,
                ) ==> #[trigger] final(target).pix(x, y) == self.pix(x, y),
    {
        let weights = kernel3_vec(-2, -1, 0, -1, 1, 1, 0, 1, 2);
        proof {
            assert(weights@ =~= emboss_kernel());
        }
        self.convolve3_source_border(target, &weights, 1);
    }

    /// Outline detection with the fixed 3-by-3 kernel that weighs the center
    /// 8 against all eight neighbors; the border ring carries the source
    /// through unchanged.
    pub fn outline(&self, target: &mut Image)
        requires
            self.wf(),
            old(target).wf(),
            self.same_dims(*old(target)),
            self.width >= 1,
            self.height >= 1,
        ensures
            final(target).wf(),
            final(target).width == old(target).width,
            final(target).height == old(target).height,
            forall|x: int, y: int|
                interior(3, self.width as int, self.height as int, x, y)
                    ==> #[trigger] final(target).pix(x, y) == conv_pixel(
                    *self,
                    outline_kernel(),
                    3,
                    1,
                    x,
                    y,
                ),
            forall|x: int, y: int|
                0 <= x < self.width && 0 <= y < self.height && !interior(
                    3,
                    self.width as int,
                    self.height as int,
                    x,
                    y,
                ) ==> #[trigger] final(target).pix(x, y) == self.pix(x, y),
    {
        let weights = kernel3_vec(-1, -1, -1, -1, 8, -1, -1, -1, -1);
        proof {
            assert(weights@ =~= outline_kernel());
        }
        self.convolve3_source_border(target, &weights, 1);
    }

    /// Box blur by direct convolution with a uniform kernel; the border ring
    /// that the kernel cannot reach is filled with the average color of the
    /// whole source buffer.
    pub fn naive_box_blur(&self, target: &mut Image, kernel_size: usize)
        requires
            self.wf(),
            old(target).wf(),
            self.same_dims(*old(target)),
            kernel_size >= 1,
            kernel_size * kernel_size <= 0x7fff_ffff,
            kernel_size / 2 <= self.width,
            kernel_size / 2 <= self.height,
            1 <= self.pixels.len() <= u32::MAX,
        ensures
            final(target).wf(),
            final(target).width == old(target).width,
            final(target).height == old(target).height,
            forall|x: int, y: int|
                interior(kernel_size as int, self.width as int, self.height as int, x, y)
                    ==> #[trigger] final(target).pix(x, y) == conv_pixel(
                    *self,
                    uniform_kernel((kernel_size * kernel_size) as int),
                    kernel_size as int,
                    (kernel_size * kernel_size) as int,
                    x,
                    y,
                ),
            forall|x: int, y: int|
                0 <= x < self.width && 0 <= y < self.height && !interior(
                    kernel_size as int,
                    self.width as int,
                    self.height as int,
                    x,
                    y,
                ) ==> #[trigger] final(target).pix(x, y) == crate::image::average_of(self.pixels@),
    {
        let k = kernel_size;
        let total = k * k;
        let mut weights: Vec<i32> = Vec::new();
        let mut i: usize = 0;
        while i < total
            invariant
                i <= total,
                weights.len() == i,
                forall|j: int| 0 <= j < i ==> weights[j] == 1i32,
            decreases total - i,
        {
            weights.push(1);
            i += 1;
        }
        proof {
            assert(weights@ =~= uniform_kernel(total as int));
            assert(1 <= k * k) by (nonlinear_arith)
                requires
                    1 <= k,
            ;
        }
        self.convolve_with(target, k, &weights, total as i32);
        let average_colour = crate::image::get_average_colour(self.pixels.as_slice());
        self.handle_edges(
            target,
            k,
            (|_img: &Image, _s: usize, _xy: (usize, usize)| -> (c: Color)
                ensures
                    c == average_colour,
                {
                    average_colour
                }),
        );
        proof {
            assert forall|x: int, y: int|
                0 <= x < self.width && 0 <= y < self.height && !interior(
                    k as int,
                    self.width as int,
                    self.height as int,
                    x,
                    y,
                ) implies #[trigger] target.pix(x, y) == crate::image::average_of(
                self.pixels@,
            ) by {
                let xu = x as usize;
                let yu = y as usize;
                assert(target.pix(xu as int, yu as int) == target.pix(x, y));
            }
        }
    }
}

/// A 3-by-3 kernel written out row by row.
fn kernel3_vec(
    w0: i32,
    w1: i32,
    w2: i32,
    w3: i32,
    w4: i32,
    w5: i32,
    w6: i32,
    w7: i32,
    w8: i32,
) -> (ws: Vec<i32>)
    ensures
        ws@ =~= seq![w0, w1, w2, w3, w4, w5, w6, w7, w8],
{
    let mut ws: Vec<i32> = Vec::new();
    ws.push(w0);
    ws.push(w1);
    ws.push(w2);
    ws.push(w3);
    ws.push(w4);
    ws.push(w5);
    ws.push(w6);
    ws.push(w7);
    ws.push(w8);
    ws
}

/// The sharpening kernel: center 5, direct neighbors -1.
pub open spec fn sharpen_kernel() -> Seq<i32> {
    seq![0i32, -1i32, 0i32, -1i32, 5i32, -1i32, 0i32, -1i32, 0i32]
}

/// The 3-by-3 binomial smoothing kernel, out of 16.
pub open spec fn gaussian_kernel() -> Seq<i32> {
    seq![1i32, 2i32, 1i32, 2i32, 4i32, 2i32, 1i32, 2i32, 1i32]
}

/// The emboss kernel: a diagonal directional derivative plus identity.
pub open spec fn emboss_kernel() -> Seq<i32> {
    seq![-2i32, -1i32, 0i32, -1i32, 1i32, 1i32, 0i32, 1i32, 2i32]
}

/// The outline kernel: center 8 against all eight neighbors.
pub open spec fn outline_kernel() -> Seq<i32> {
    seq![-1i32, -1i32, -1i32, -1i32, 8i32, -1i32, -1i32, -1i32, -1i32]
}

/// A kernel of `n` entries, all 1: a uniform averaging window.
pub open spec fn uniform_kernel(n: int) -> Seq<i32> {
    Seq::new(n as nat, |i: int| 1i32)
}

} // verus!

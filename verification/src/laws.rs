use vstd::prelude::*;

verus! {

use crate::blur::{box_blur_pixel, box_column, havg};
use crate::color::Color;
use crate::convolve::{channel_of, conv_pixel, conv_sum, interior};
use crate::image::{Image, average_of, sum_r, sum_g, sum_b};
use crate::kuwahara::{
    block_mean, block_of, block_variance, dev_sum, deviation_term, kuwahara_basic_pixel,
    kuwahara_improved_pixel, quadrant_corner, quadrant_mean, quadrant_variance,
};
use crate::dither::{fs_one, fs_result, fs_step_quantiser, fs_upto, quantised};
use crate::math::{lemma_row_major_distinct, lemma_row_major_index, tdiv};
use vstd::arithmetic::div_mod::{
    lemma_div_multiples_vanish, lemma_div_of0, lemma_div_pos_is_pos,
    lemma_fundamental_div_mod, lemma_fundamental_div_mod_converse,
    lemma_mod_division_less_than_divisor, lemma_multiply_divide_lt,
};

/// The channel sums of a constant sequence are the channel times the length.
proof fn lemma_sums_uniform(s: Seq<Color>, c: Color)
    requires
        forall|i: int| 0 <= i < s.len() ==> s[i] == c,
    ensures
        sum_r(s) == c.r * s.len(),
        sum_g(s) == c.g * s.len(),
        sum_b(s) == c.b * s.len(),
    decreases s.len(),
{
    if s.len() > 0 {
        lemma_sums_uniform(s.drop_last(), c);
        assert(c.r * (s.len() - 1) + c.r == c.r * s.len()
            && c.g * (s.len() - 1) + c.g == c.g * s.len()
            && c.b * (s.len() - 1) + c.b == c.b * s.len()) by (nonlinear_arith);
    }
}

/// The average of a nonempty constant sequence is that constant.
pub proof fn lemma_avg_uniform(s: Seq<Color>, c: Color)
    requires
        s.len() >= 1,
        forall|i: int| 0 <= i < s.len() ==> s[i] == c,
    ensures
        average_of(s) == c,
{
    lemma_sums_uniform(s, c);
    let n = s.len() as int;
    assert(c.r * n == n * c.r && c.g * n == n * c.g && c.b * n == n * c.b) by (nonlinear_arith);
    lemma_div_multiples_vanish(c.r as int, n);
    lemma_div_multiples_vanish(c.g as int, n);
    lemma_div_multiples_vanish(c.b as int, n);
}

/// Truncating division undoes multiplication by the same nonzero divisor.
proof fn lemma_tdiv_cancel(c: int, d: int)
    requires
        0 <= c,
        d != 0,
    ensures
        tdiv(d * c, d) == c,
{
    if c == 0 {
        assert(d * 0 == 0) by (nonlinear_arith);
    } else {
        let a = if d < 0 {
            -d
        } else {
            d
        };
        assert(a * c == vstd::math::abs(d * c) && ((d * c < 0) <==> (d < 0))) by (nonlinear_arith)
            requires
                c > 0,
                d != 0,
                a == (if d < 0 {
                    -d
                } else {
                    d
                }),
        ;
        lemma_div_multiples_vanish(c, a);
    }
}

/// A pointwise map whose transform can only return its argument unchanged
/// leaves the destination bit-identical to the source.
pub proof fn lemma_map_identity_preserves<F: Fn(Color) -> Color>(
    transformer: F,
    source: Seq<Color>,
    destination: Seq<Color>,
)
    requires
        forall|p: Color, c: Color| call_ensures(transformer, (p,), c) ==> c == p,
        destination.len() == source.len(),
        forall|i: int|
            0 <= i < source.len() ==> call_ensures(transformer, (source[i],), #[trigger] destination[i]),
    ensures
        destination == source,
{
    assert(destination =~= source);
}

/// The kernel whose only nonzero weight is `denom`, at the center cell.
pub open spec fn delta_kernel(k: int, denom: i32) -> Seq<i32> {
    Seq::new(
        (k * k) as nat,
        |i: int|
            if i == (k / 2) * k + k / 2 {
                denom
            } else {
                0i32
            },
    )
}

/// The partial sums of a delta-kernel convolution: zero until the center term
/// is taken, the weighted center sample afterwards.
proof fn lemma_delta_conv_sum(img: Image, k: int, denom: i32, x: int, y: int, ch: int, n: int)
    requires
        1 <= k,
        0 <= n <= k * k,
    ensures
        conv_sum(img, delta_kernel(k, denom), k, x, y, ch, n) == if n > (k / 2) * k + k / 2 {
            denom * channel_of(img.pix(x, y), ch)
        } else {
            0int
        },
    decreases n,
{
    let ci = (k / 2) * k + k / 2;
    lemma_row_major_index(k / 2, k / 2, k, k);
    if n > 0 {
        lemma_delta_conv_sum(img, k, denom, x, y, ch, n - 1);
        if n - 1 == ci {
            lemma_fundamental_div_mod_converse(ci, k, k / 2, k / 2);
        } else {
            assert(delta_kernel(k, denom)[n - 1] == 0i32);
            assert(0 * channel_of(img.pix(x - k / 2 + (n - 1) % k, y - k / 2 + (n - 1) / k), ch)
                == 0) by (nonlinear_arith);
        }
    }
}

/// A kernel with a single weight of `denominator` at the center and 0
/// elsewhere reproduces the source exactly wherever its window applies.
pub proof fn lemma_delta_kernel_identity(img: Image, k: int, denominator: i32, x: int, y: int)
    requires
        img.wf(),
        1 <= k,
        denominator != 0,
        interior(k, img.width as int, img.height as int, x, y),
    ensures
        conv_pixel(img, delta_kernel(k, denominator), k, denominator as int, x, y) == img.pix(x, y),
{
    lemma_row_major_index(k / 2, k / 2, k, k);
    lemma_delta_conv_sum(img, k, denominator, x, y, 0, k * k);
    lemma_delta_conv_sum(img, k, denominator, x, y, 1, k * k);
    lemma_delta_conv_sum(img, k, denominator, x, y, 2, k * k);
    let p = img.pix(x, y);
    lemma_tdiv_cancel(p.r as int, denominator as int);
    lemma_tdiv_cancel(p.g as int, denominator as int);
    lemma_tdiv_cancel(p.b as int, denominator as int);
}

/// On a buffer of one uniform color, every full horizontal window averages
/// to that color.
proof fn lemma_havg_uniform(img: Image, c: Color, k: int, x: int, y: int)
    requires
        img.wf(),
        forall|i: int| 0 <= i < img.pixels.len() ==> img.pixels[i] == c,
        1 <= k,
        k / 2 <= x < img.width - k / 2,
        0 <= y < img.height,
    ensures
        havg(img, k, x, y) == c,
{
    let w = img.width as int;
    let h = img.height as int;
    let lo = y * w + x - k / 2;
    let hi = y * w + x + (k - k / 2);
    lemma_row_major_index(x, y, w, h);
    assert(y * w + w <= h * w) by (nonlinear_arith)
        requires
            y + 1 <= h,
            w >= 0,
    ;
    assert(w * h == h * w) by (nonlinear_arith);
    assert(k - 2 * (k / 2) <= 1) by {
        lemma_fundamental_div_mod(k, 2);
        lemma_mod_division_less_than_divisor(k, 2);
    }
    let win = img.pixels@.subrange(lo, hi);
    assert(forall|i: int| 0 <= i < win.len() ==> win[i] == c);
    lemma_avg_uniform(win, c);
}

/// On a buffer of one uniform color, the separable box blur reproduces that
/// color at every interior position, whatever the kernel size.
pub proof fn lemma_box_blur_uniform(img: Image, c: Color, k: int, x: int, y: int)
    requires
        img.wf(),
        forall|i: int| 0 <= i < img.pixels.len() ==> img.pixels[i] == c,
        1 <= k,
        interior(k, img.width as int, img.height as int, x, y),
    ensures
        box_blur_pixel(img, k, x, y) == c,
{
    let column = box_column(img, k, x, y);
    assert forall|i: int| 0 <= i < column.len() implies column[i] == c by {
        lemma_havg_uniform(img, c, k, x, y - k / 2 + i);
    }
    lemma_avg_uniform(column, c);
}

/// The deviation of a constant sequence from its own value is zero.
proof fn lemma_dev_sum_zero(s: Seq<Color>, c: Color)
    requires
        forall|i: int| 0 <= i < s.len() ==> s[i] == c,
    ensures
        dev_sum(s, c) == 0,
    decreases s.len(),
{
    if s.len() > 0 {
        lemma_dev_sum_zero(s.drop_last(), c);
        assert(s.last() == c);
        assert(deviation_term(c, c) == 0) by {
            assert((c.r - c.r) * (c.r - c.r) == 0 && (c.g - c.g) * (c.g - c.g) == 0 && (c.b - c.b)
                * (c.b - c.b) == 0) by (nonlinear_arith);
        }
    }
}

/// A block of one uniform color has that color as its mean and variance zero.
proof fn lemma_block_uniform(img: Image, c: Color, x0: int, y0: int, wdt: int, hgt: int)
    requires
        img.wf(),
        forall|i: int| 0 <= i < img.pixels.len() ==> img.pixels[i] == c,
        1 <= wdt,
        1 <= hgt,
        0 <= x0,
        x0 + wdt <= img.width,
        0 <= y0,
        y0 + hgt <= img.height,
    ensures
        block_mean(img, x0, y0, wdt, hgt) == c,
        block_variance(img, x0, y0, wdt, hgt) == 0,
{
    let blk = block_of(img, x0, y0, wdt, hgt);
    assert(wdt * hgt >= 1) by (nonlinear_arith)
        requires
            wdt >= 1,
            hgt >= 1,
    ;
    assert forall|i: int| 0 <= i < blk.len() implies blk[i] == c by {
        lemma_mod_division_less_than_divisor(i, wdt);
        lemma_div_pos_is_pos(i, wdt);
        lemma_multiply_divide_lt(i, wdt, hgt);
        lemma_row_major_index(
            x0 + i % wdt,
            y0 + i / wdt,
            img.width as int,
            img.height as int,
        );
    }
    lemma_avg_uniform(blk, c);
    lemma_dev_sum_zero(blk, c);
    lemma_div_of0(wdt * hgt);
}

/// The four quadrant blocks of an interior window position stay inside the
/// buffer, so on a uniform buffer each has mean `c` and variance zero.
proof fn lemma_quadrants_uniform(img: Image, c: Color, ks: int, x: int, y: int, qi: int)
    requires
        img.wf(),
        forall|i: int| 0 <= i < img.pixels.len() ==> img.pixels[i] == c,
        1 <= ks,
        ks % 2 == 1,
        interior(ks, img.width as int, img.height as int, x, y),
        0 <= qi < 4,
    ensures
        quadrant_mean(img, ks, x, y, qi) == c,
        quadrant_variance(img, ks, x, y, qi) == 0,
{
    lemma_fundamental_div_mod(ks, 2);
    let corner = quadrant_corner(ks, x, y, qi);
    lemma_block_uniform(img, c, corner.0, corner.1, ks - ks / 2, ks - ks / 2);
}

/// On a buffer of one uniform color all four quadrants are flat, so the basic
/// quadrant filter reproduces that color at every interior position.
pub proof fn lemma_kuwahara_basic_uniform(img: Image, c: Color, ks: int, x: int, y: int)
    requires
        img.wf(),
        forall|i: int| 0 <= i < img.pixels.len() ==> img.pixels[i] == c,
        1 <= ks,
        ks % 2 == 1,
        interior(ks, img.width as int, img.height as int, x, y),
    ensures
        kuwahara_basic_pixel(img, ks, x, y) == c,
{
    lemma_quadrants_uniform(img, c, ks, x, y, 0);
    lemma_quadrants_uniform(img, c, ks, x, y, 1);
    lemma_quadrants_uniform(img, c, ks, x, y, 2);
    lemma_quadrants_uniform(img, c, ks, x, y, 3);
}

/// On a buffer of one uniform color the tie-aware quadrant filter also
/// reproduces that color at every interior position: every quadrant ties at
/// variance zero, and blending a color with itself returns it unchanged.
pub proof fn lemma_kuwahara_improved_uniform(img: Image, c: Color, ks: int, x: int, y: int)
    requires
        img.wf(),
        forall|i: int| 0 <= i < img.pixels.len() ==> img.pixels[i] == c,
        1 <= ks,
        ks % 2 == 1,
        interior(ks, img.width as int, img.height as int, x, y),
    ensures
        kuwahara_improved_pixel(img, ks, x, y) == c,
{
    lemma_quadrants_uniform(img, c, ks, x, y, 0);
    lemma_quadrants_uniform(img, c, ks, x, y, 1);
    lemma_quadrants_uniform(img, c, ks, x, y, 2);
    lemma_quadrants_uniform(img, c, ks, x, y, 3);
    assert(c.r + c.r == 2 * c.r && c.g + c.g == 2 * c.g && c.b + c.b == 2 * c.b);
    lemma_div_multiples_vanish(c.r as int, 2);
    lemma_div_multiples_vanish(c.g as int, 2);
    lemma_div_multiples_vanish(c.b as int, 2);
}

/// Quantization at step 1 keeps every sample unchanged.
proof fn lemma_quantised_one(p: Color)
    ensures
        quantised(p, 1) == p,
{
}

/// One diffusion step at step 1 changes nothing: the quantization error is
/// zero, so nothing is diffused and the center is written back unchanged.
proof fn lemma_fs_one_q1(g: Seq<Color>, w: int, x: int, y: int)
    requires
        0 <= y * w + x,
        y * w + x + 1 < g.len(),
        0 <= (y + 1) * w + x - 1,
        (y + 1) * w + x + 1 < g.len(),
        (y + 1) * w + x - 1 <= (y + 1) * w + x + 1,
    ensures
        fs_one(g, w, fs_step_quantiser(1), x, y) == g,
{
    let i = y * w + x;
    lemma_quantised_one(g[i]);
    assert(fs_one(g, w, fs_step_quantiser(1), x, y) =~= g);
}

/// The raster scan at step 1 leaves every prefix of the grid equal to the
/// source.
proof fn lemma_fs_upto_q1(src: Seq<Color>, w: int, h: int, y: int, x: int)
    requires
        src.len() == w * h,
        x > 1 ==> 1 <= y <= h - 2 && x <= w - 1,
        y > 1 ==> y <= h - 1,
    ensures
        fs_upto(src, w, h, fs_step_quantiser(1), y, x) == src,
    decreases y, x,
{
    if x > 1 {
        lemma_fs_upto_q1(src, w, h, y, x - 1);
        lemma_row_major_index(x - 1, y, w, h);
        lemma_row_major_index(x, y, w, h);
        lemma_row_major_index(x - 2, y + 1, w, h);
        lemma_row_major_index(x, y + 1, w, h);
        lemma_fs_one_q1(src, w, x - 1, y);
    } else if y > 1 {
        lemma_fs_upto_q1(src, w, h, y - 1, w - 1);
    }
}

/// At the full bit depth the quantization step is 1 and the error is always
/// zero: error diffusion returns the destination bit-identical to the
/// source.
pub proof fn lemma_fs_identity_at_step_one(src: Seq<Color>, w: int, h: int)
    requires
        src.len() == w * h,
    ensures
        fs_result(src, w, h, fs_step_quantiser(1)) == src,
{
    lemma_fs_upto_q1(src, w, h, h - 1, 1);
}

/// Every channel of `c` holds one of the two extreme values.
pub open spec fn channels_binary(c: Color) -> bool {
    (c.r == 0 || c.r == 255) && (c.g == 0 || c.g == 255) && (c.b == 0 || c.b == 255)
}

/// Quantization at step 255 maps every channel to 0 or 255.
proof fn lemma_quantised_255_binary(p: Color)
    ensures
        channels_binary(quantised(p, 255)),
{
    assert(p.r as int / 255 == (if p.r == 255 {
        1int
    } else {
        0int
    }));
    assert(p.g as int / 255 == (if p.g == 255 {
        1int
    } else {
        0int
    }));
    assert(p.b as int / 255 == (if p.b == 255 {
        1int
    } else {
        0int
    }));
}

/// The raster scan never changes the length of the grid.
proof fn lemma_fs_upto_len(
    src: Seq<Color>,
    w: int,
    h: int,
    quant: spec_fn(Color) -> Color,
    y: int,
    x: int,
)
    requires
        src.len() == w * h,
        x > 1 ==> 1 <= y <= h - 2 && x <= w - 1,
        y > 1 ==> y <= h - 1,
    ensures
        fs_upto(src, w, h, quant, y, x).len() == src.len(),
    decreases y, x,
{
    if x > 1 {
        lemma_fs_upto_len(src, w, h, quant, y, x - 1);
        lemma_row_major_index(x - 1, y, w, h);
        lemma_row_major_index(x, y, w, h);
        lemma_row_major_index(x - 2, y + 1, w, h);
        lemma_row_major_index(x, y + 1, w, h);
    } else if y > 1 {
        lemma_fs_upto_len(src, w, h, quant, y - 1, w - 1);
    }
}

/// During the raster scan at step 255, every interior pixel already visited
/// holds only extreme channel values: diffusion only ever reaches pixels the
/// scan has not visited yet.
proof fn lemma_fs_upto_binary(src: Seq<Color>, w: int, h: int, y: int, x: int)
    requires
        src.len() == w * h,
        x > 1 ==> 1 <= y <= h - 2 && x <= w - 1,
        y > 1 ==> y <= h - 1,
    ensures
        forall|xx: int, yy: int|
            1 <= xx <= w - 2 && 1 <= yy <= h - 2 && (yy < y || (yy == y && xx < x))
                ==> channels_binary(
                #[trigger] fs_upto(src, w, h, fs_step_quantiser(255), y, x)[yy * w + xx],
            ),
    decreases y, x,
{
    let qf = fs_step_quantiser(255);
    if x > 1 {
        lemma_fs_upto_binary(src, w, h, y, x - 1);
        lemma_fs_upto_len(src, w, h, qf, y, x - 1);
        let g = fs_upto(src, w, h, qf, y, x - 1);
        let g2 = fs_upto(src, w, h, qf, y, x);
        assert forall|xx: int, yy: int|
            1 <= xx <= w - 2 && 1 <= yy <= h - 2 && (yy < y || (yy == y && xx < x)) implies
            channels_binary(#[trigger] g2[yy * w + xx]) by {
            lemma_row_major_index(xx, yy, w, h);
            lemma_row_major_index(x - 1, y, w, h);
            lemma_row_major_index(x, y, w, h);
            lemma_row_major_index(x - 2, y + 1, w, h);
            lemma_row_major_index(x, y + 1, w, h);
            if xx == x - 1 && yy == y {
                lemma_quantised_255_binary(g[y * w + (x - 1)]);
            } else {
                lemma_row_major_distinct(xx, yy, x - 1, y, w);
                lemma_row_major_distinct(xx, yy, x, y, w);
                lemma_row_major_distinct(xx, yy, x - 2, y + 1, w);
                lemma_row_major_distinct(xx, yy, x - 1, y + 1, w);
                lemma_row_major_distinct(xx, yy, x, y + 1, w);
            }
        }
    } else if y > 1 {
        lemma_fs_upto_binary(src, w, h, y - 1, w - 1);
        let g1 = fs_upto(src, w, h, qf, y - 1, w - 1);
        assert forall|xx: int, yy: int|
            1 <= xx <= w - 2 && 1 <= yy <= h - 2 && (yy < y || (yy == y && xx < x)) implies
            channels_binary(#[trigger] fs_upto(src, w, h, qf, y, x)[yy * w + xx]) by {
            assert(channels_binary(g1[yy * w + xx]));
        }
    }
}

/// At one bit per channel the step is 255: every interior pixel of the
/// diffusion result has each channel either 0 or 255. Border pixels keep the
/// copied source plus any error diffused into them, and are not constrained.
pub proof fn lemma_fs_binary_at_step_255(src: Seq<Color>, w: int, h: int, x: int, y: int)
    requires
        src.len() == w * h,
        1 <= x <= w - 2,
        1 <= y <= h - 2,
    ensures
        channels_binary(fs_result(src, w, h, fs_step_quantiser(255))[y * w + x]),
{
    lemma_fs_upto_binary(src, w, h, h - 1, 1);
}

} // verus!

use vstd::prelude::*;

verus! {

use crate::color::{Color, color_div, color_frac_mul, color_sat_add, color_sat_mul, color_sat_sub};
use crate::edges::grey_level;
use crate::image::Image;
use crate::math::{lemma_row_major_distinct, lemma_row_major_index};
use crate::pixel_traits::{DistanceSquared, PixelArithmetic, dist2_of, lemma_dist2_bounds};
use vstd::arithmetic::power2::pow2;

/// Relies on fastrand::u8: a value drawn uniformly from the given range,
/// hence always strictly below the range's exclusive upper bound; nothing
/// else can be promised of a random value.
#[verifier::external_body]
fn random_u8_below(limit: u8) -> (r: u8)
    requires
        limit >= 1,
    ensures
        r < limit,
{
    fastrand::u8(0..limit)
}

/// The number of distinguishable levels per channel that `bits` bits give,
/// capped at 255.
pub open spec fn max_levels_of(bits: int) -> int {
    if bits > 7 {
        255
    } else {
        pow2(bits as nat) as int
    }
}

/// The spacing between adjacent representable channel values when each
/// channel keeps `max_levels` distinguishable levels.
pub open spec fn quant_step(max_levels: int) -> int {
    255int / (max_levels - 1)
}

/// Quantization rounds every channel down to the nearest multiple of `q`:
/// the error it leaves is always nonnegative.
pub open spec fn quantised(p: Color, q: int) -> Color {
    color_sat_mul(color_div(p, q), q)
}

/// Rounding a channel down to a multiple of `q` never increases it, and the
/// result is an exact multiple of `q`.
pub proof fn lemma_quant_le(c: int, q: int)
    requires
        0 <= c <= 255,
        1 <= q,
    ensures
        0 <= c / q * q <= c,
        (c / q * q) % q == 0,
{
    vstd::arithmetic::div_mod::lemma_fundamental_div_mod(c, q);
    vstd::arithmetic::div_mod::lemma_mod_division_less_than_divisor(c, q);
    vstd::arithmetic::div_mod::lemma_div_pos_is_pos(c, q);
    vstd::arithmetic::div_mod::lemma_mod_multiples_basic(c / q, q);
    assert(c / q * q == q * (c / q) && c / q * q >= 0) by (nonlinear_arith)
        requires
            c / q >= 0,
            q >= 1,
    ;
}

/// Every channel of a quantised color is a multiple of the step `q`.
pub proof fn lemma_quantised_multiple(p: Color, q: int)
    requires
        1 <= q <= 255,
    ensures
        quantised(p, q).r as int % q == 0,
        quantised(p, q).g as int % q == 0,
        quantised(p, q).b as int % q == 0,
        quantised(p, q).r <= p.r,
        quantised(p, q).g <= p.g,
        quantised(p, q).b <= p.b,
{
    lemma_quant_le(p.r as int, q);
    lemma_quant_le(p.g as int, q);
    lemma_quant_le(p.b as int, q);
}

/// Every channel of `c` is an exact multiple of `q`.
pub open spec fn channels_multiple_of(c: Color, q: int) -> bool {
    c.r as int % q == 0 && c.g as int % q == 0 && c.b as int % q == 0
}

/// The deterministic position-dependent bias that patterned dithering adds
/// before quantizing: a fixed fraction of the step for each parity the
/// coordinates satisfy, saturated to a channel value.
pub open spec fn patterned_bias(x: int, y: int, q: int) -> int {
    let t = (if x % 2 == 0 {
        4 * q / 21
    } else {
        0
    }) + (if x % 4 == 0 {
        2 * q / 21
    } else {
        0
    }) + (if x % 8 == 0 {
        2 * q / 21
    } else {
        0
    }) + (if y % 2 == 0 {
        4 * q / 21
    } else {
        0
    }) + (if y % 4 == 0 {
        2 * q / 21
    } else {
        0
    }) + (if y % 8 == 0 {
        2 * q / 21
    } else {
        0
    }) + (if (x % 4 == 0) == (y % 4 == 0) {
        4 * q / 21
    } else {
        0
    });
    if t > 255 {
        255
    } else {
        t
    }
}

/// The sample patterned dithering writes at `(x, y)`.
pub open spec fn patterned_pixel(p: Color, x: int, y: int, q: int) -> Color {
    quantised(color_sat_add(p, grey_level(patterned_bias(x, y, q))), q)
}

/// The exclusive upper bound of the random bias added before quantizing with
/// step `q`: four fifths of the step, but at least one.
pub open spec fn random_bias_limit(q: int) -> int {
    (if q < 2 {
        2
    } else {
        q
    }) * 4 / 5
}

/// `out` is a possible random-bias dithering of `src` at step `q`: some bias
/// below the limit was added to every channel before quantizing.
pub open spec fn randomly_dithered(src: Color, out: Color, q: int) -> bool {
    exists|bias: u8|
        (bias as int) < random_bias_limit(q) && out == quantised(
            color_sat_add(src, grey_level(bias as int)),
            q,
        )
}

/// One error-diffusion step at interior pixel `(x, y)` of a `w`-wide grid:
/// quantize the sample in place, then add weighted sixteenths of the
/// (nonnegative) quantization error to the four raster-order successors:
/// 7 to the right, 3 down-left, 5 below, 1 down-right, each saturating.
pub open spec fn fs_one(
    g: Seq<Color>,
    w: int,
    quant: spec_fn(Color) -> Color,
    x: int,
    y: int,
) -> Seq<Color> {
    let i = y * w + x;
    let old_p = g[i];
    let new_p = quant(old_p);
    let e = color_sat_sub(old_p, new_p);
    let g1 = g.update(i + 1, color_sat_add(g[i + 1], color_frac_mul(e, 7, 16)));
    let g2 = g1.update(
        (y + 1) * w + x - 1,
        color_sat_add(g1[(y + 1) * w + x - 1], color_frac_mul(e, 3, 16)),
    );
    let g3 = g2.update(
        (y + 1) * w + x,
        color_sat_add(g2[(y + 1) * w + x], color_frac_mul(e, 5, 16)),
    );
    let g4 = g3.update(
        (y + 1) * w + x + 1,
        color_sat_add(g3[(y + 1) * w + x + 1], color_frac_mul(e, 1, 16)),
    );
    g4.update(i, new_p)
}

/// The grid after processing, in raster order, every interior pixel that
/// comes strictly before `(x, y)` — rows `1 .. h-1`, columns `1 .. w-1`.
pub open spec fn fs_upto(
    src: Seq<Color>,
    w: int,
    h: int,
    quant: spec_fn(Color) -> Color,
    y: int,
    x: int,
) -> Seq<Color>
    decreases y, x,
{
    if x > 1 {
        fs_one(fs_upto(src, w, h, quant, y, x - 1), w, quant, x - 1, y)
    } else if y > 1 {
        fs_upto(src, w, h, quant, y - 1, w - 1)
    } else {
        src
    }
}

/// The full error-diffusion result: the source copied whole, then every
/// interior pixel quantized in raster order with its error pushed onto
/// not-yet-visited neighbors. Later pixels observe earlier pixels' error.
pub open spec fn fs_result(
    src: Seq<Color>,
    w: int,
    h: int,
    quant: spec_fn(Color) -> Color,
) -> Seq<Color> {
    fs_upto(src, w, h, quant, h - 1, 1)
}

/// The quantizer that error diffusion at a uniform step `q` applies to each
/// sample: round every channel down to a multiple of `q`.
pub open spec fn fs_step_quantiser(q: int) -> spec_fn(Color) -> Color {
    |p: Color| quantised(p, q)
}

/// The quantizer that palette-restricted error diffusion applies to each
/// sample: the nearest channel-wise dominated palette entry.
pub open spec fn fs_palette_quantiser(palette: Seq<Color>) -> spec_fn(Color) -> Color {
    |p: Color| palette_quantise(palette, p)
}

/// `a` is channel-wise at most `p`.
pub open spec fn dominated(a: Color, p: Color) -> bool {
    a.r <= p.r && a.g <= p.g && a.b <= p.b
}

/// The nearest channel-wise dominated palette entry among the first `n`,
/// paired with its squared distance; black at an unreachable sentinel
/// distance when none of them qualifies. A later entry wins only by a
/// strictly smaller squared distance.
pub open spec fn palette_nearest_upto(palette: Seq<Color>, p: Color, n: int) -> (Color, int)
    decreases n,
{
    if n <= 0 {
        (Color { r: 0, g: 0, b: 0 }, 999999999int)
    } else {
        let prev = palette_nearest_upto(palette, p, n - 1);
        let cand = palette[n - 1];
        if dominated(cand, p) && dist2_of(p, cand) < prev.1 {
            (cand, dist2_of(p, cand))
        } else {
            prev
        }
    }
}

/// The palette entry that quantization maps `p` to: the nearest entry that is
/// channel-wise at most `p` (so the error stays nonnegative), black when no
/// entry qualifies.
pub open spec fn palette_quantise(palette: Seq<Color>, p: Color) -> Color {
    palette_nearest_upto(palette, p, palette.len() as int).0
}

/// The palette entry channel-wise below `pixel` that lies nearest to it,
/// black when no entry qualifies.
fn palette_nearest(colour_palette: &[Color], pixel: Color) -> (c: Color)
    ensures
        c == palette_quantise(colour_palette@, pixel),
{
    let n = colour_palette.len();
    let mut nearest_dist: u32 = 999999999;
    let mut nearest_pixel = Color::new(0, 0, 0);
    let mut i: usize = 0;
    while i < n
        invariant
            i <= n,
            n == colour_palette.len(),
            nearest_pixel == palette_nearest_upto(colour_palette@, pixel, i as int).0,
            nearest_dist == palette_nearest_upto(colour_palette@, pixel, i as int).1,
        decreases n - i,
    {
        let other = colour_palette[i];
        if other.r <= pixel.r && other.g <= pixel.g && other.b <= pixel.b {
            proof {
                lemma_dist2_bounds(pixel, other);
            }
            let dist = pixel.distance_squared(&other);
            if dist < nearest_dist {
                nearest_dist = dist;
                nearest_pixel = other;
            }
        }
        i += 1;
    }
    nearest_pixel
}

impl Image {
    /// Posterize with a deterministic position-dependent bias: each sample
    /// has a fixed fraction of the quantization step added according to the
    /// parities of its coordinates, then every channel is rounded down to a
    /// multiple of the step. Reprocessing the same frame yields the same
    /// result.
    #[verifier::rlimit(50)]
    pub fn patterned_dithering_impl(&self, target: &mut Image, max_values_per_channel: usize)
        requires
            self.wf(),
            old(target).wf(),
            self.same_dims(*old(target)),
            2 <= max_values_per_channel <= 256,
        ensures
            final(target).wf(),
            final(target).width == old(target).width,
            final(target).height == old(target).height,
            forall|x: int, y: int|
                0 <= x < self.width && 0 <= y < self.height ==> #[trigger] final(target).pix(x, y)
                    == patterned_pixel(
                    self.pix(x, y),
                    x,
                    y,
                    quant_step(max_values_per_channel as int),
                ),
            forall|x: int, y: int|
                0 <= x < self.width && 0 <= y < self.height ==> channels_multiple_of(
                    #[trigger] final(target).pix(x, y),
                    quant_step(max_values_per_channel as int),
                ),
    {
        let w = self.width;
        let h = self.height;
        let quantisation_factor = (255usize / (max_values_per_channel - 1)) as u8;
        proof {
            vstd::arithmetic::div_mod::lemma_div_non_zero(255, max_values_per_channel as int - 1);
            vstd::arithmetic::div_mod::lemma_div_nonincreasing(255, max_values_per_channel as int - 1);
        }
        let q = quantisation_factor;
        let mut y: usize = 0;
        while y < h
            invariant
                y <= h,
                w == self.width,
                h == self.height,
                self.wf(),
                target.wf(),
                target.width == w,
                target.height == h,
                1 <= q <= 255,
                q == quant_step(max_values_per_channel as int),
                forall|xx: int, yy: int|
                    0 <= xx < w && 0 <= yy < y ==> #[trigger] target.pix(xx, yy) == patterned_pixel(
                        self.pix(xx, yy),
                        xx,
                        yy,
                        q as int,
                    ),
                forall|xx: int, yy: int|
                    0 <= xx < w && 0 <= yy < y ==> channels_multiple_of(
                        #[trigger] target.pix(xx, yy),
                        q as int,
                    ),
            decreases h - y,
        {
            let mut x: usize = 0;
            while x < w
                invariant
                    x <= w,
                    y < h,
                    w == self.width,
                    h == self.height,
                    self.wf(),
                    target.wf(),
                    target.width == w,
                    target.height == h,
                    1 <= q <= 255,
                    q == quant_step(max_values_per_channel as int),
                    forall|xx: int, yy: int|
                        0 <= xx < w && 0 <= yy < y ==> #[trigger] target.pix(xx, yy)
                            == patterned_pixel(self.pix(xx, yy), xx, yy, q as int),
                    forall|xx: int, yy: int|
                        0 <= xx < w && 0 <= yy < y ==> channels_multiple_of(
                            #[trigger] target.pix(xx, yy),
                            q as int,
                        ),
                    forall|xx: int|
                        0 <= xx < x ==> #[trigger] target.pix(xx, y as int) == patterned_pixel(
                            self.pix(xx, y as int),
                            xx,
                            y as int,
                            q as int,
                        ),
                    forall|xx: int|
                        0 <= xx < x ==> channels_multiple_of(
                            #[trigger] target.pix(xx, y as int),
                            q as int,
                        ),
                decreases w - x,
            {
                let pixel = self.get(x, y);
                let q16 = q as u16;
                let mut bias: u16 = 0;
                if x % 2 == 0 {
                    bias += 4 * q16 / 21;
                }
                if x % 4 == 0 {
                    bias += 2 * q16 / 21;
                }
                if x % 8 == 0 {
                    bias += 2 * q16 / 21;
                }
                if y % 2 == 0 {
                    bias += 4 * q16 / 21;
                }
                if y % 4 == 0 {
                    bias += 2 * q16 / 21;
                }
                if y % 8 == 0 {
                    bias += 2 * q16 / 21;
                }
                if (x % 4 == 0) == (y % 4 == 0) {
                    bias += 4 * q16 / 21;
                }
                let bias = if bias > 255 {
                    255u16
                } else {
                    bias
                } as u8;
                let biased = pixel.clamping_add(&Color::new(bias, bias, bias));
                let out = biased.clamping_div(q).clamping_mul(q);
                let ghost before = *target;
                target.set(x, y, out);
                proof {
                    lemma_row_major_index(x as int, y as int, w as int, h as int);
                    lemma_quantised_multiple(biased, q as int);
                    assert forall|xx: int, yy: int|
                        0 <= xx < w && 0 <= yy < h && (xx != x || yy != y) implies #[trigger]
                        target.pix(xx, yy) == before.pix(xx, yy) by {
                        lemma_row_major_index(xx, yy, w as int, h as int);
                        lemma_row_major_distinct(xx, yy, x as int, y as int, w as int);
                    }
                }
                x += 1;
            }
            y += 1;
        }
    }

    /// Posterize with a uniformly random bias below four fifths of the step
    /// added to every sample before its channels are rounded down to
    /// multiples of the step. Nondeterministic by design: only the shape of
    /// the output is promised, not its exact values.
    #[verifier::rlimit(50)]
    pub fn random_bias_dithering_impl(&self, target: &mut Image, max_values_per_channel: usize)
        requires
            self.wf(),
            old(target).wf(),
            self.same_dims(*old(target)),
            2 <= max_values_per_channel <= 256,
        ensures
            final(target).wf(),
            final(target).width == old(target).width,
            final(target).height == old(target).height,
            forall|x: int, y: int|
                0 <= x < self.width && 0 <= y < self.height ==> randomly_dithered(
                    self.pix(x, y),
                    #[trigger] final(target).pix(x, y),
                    quant_step(max_values_per_channel as int),
                ),
            forall|x: int, y: int|
                0 <= x < self.width && 0 <= y < self.height ==> channels_multiple_of(
                    #[trigger] final(target).pix(x, y),
                    quant_step(max_values_per_channel as int),
                ),
    {
        let w = self.width;
        let h = self.height;
        let quantisation_factor = (255usize / (max_values_per_channel - 1)) as u8;
        proof {
            vstd::arithmetic::div_mod::lemma_div_non_zero(255, max_values_per_channel as int - 1);
            vstd::arithmetic::div_mod::lemma_div_nonincreasing(255, max_values_per_channel as int - 1);
        }
        let q = quantisation_factor;
        let limit = ((if q < 2 {
            2u16
        } else {
            q as u16
        }) * 4 / 5) as u8;
        proof {
            let m: int = if q < 2 { 2int } else { q as int };
            vstd::arithmetic::div_mod::lemma_div_is_ordered(8, m * 4, 5);
        }
        let mut y: usize = 0;
        while y < h
            invariant
                y <= h,
                w == self.width,
                h == self.height,
                self.wf(),
                target.wf(),
                target.width == w,
                target.height == h,
                1 <= q <= 255,
                q == quant_step(max_values_per_channel as int),
                1 <= limit,
                limit == random_bias_limit(q as int),
                forall|xx: int, yy: int|
                    0 <= xx < w && 0 <= yy < y ==> randomly_dithered(
                        self.pix(xx, yy),
                        #[trigger] target.pix(xx, yy),
                        q as int,
                    ),
                forall|xx: int, yy: int|
                    0 <= xx < w && 0 <= yy < y ==> channels_multiple_of(
                        #[trigger] target.pix(xx, yy),
                        q as int,
                    ),
            decreases h - y,
        {
            let mut x: usize = 0;
            while x < w
                invariant
                    x <= w,
                    y < h,
                    w == self.width,
                    h == self.height,
                    self.wf(),
                    target.wf(),
                    target.width == w,
                    target.height == h,
                    1 <= q <= 255,
                    q == quant_step(max_values_per_channel as int),
                    1 <= limit,
                    limit == random_bias_limit(q as int),
                    forall|xx: int, yy: int|
                        0 <= xx < w && 0 <= yy < y ==> randomly_dithered(
                            self.pix(xx, yy),
                            #[trigger] target.pix(xx, yy),
                            q as int,
                        ),
                    forall|xx: int, yy: int|
                        0 <= xx < w && 0 <= yy < y ==> channels_multiple_of(
                            #[trigger] target.pix(xx, yy),
                            q as int,
                        ),
                    forall|xx: int|
                        0 <= xx < x ==> randomly_dithered(
                            self.pix(xx, y as int),
                            #[trigger] target.pix(xx, y as int),
                            q as int,
                        ),
                    forall|xx: int|
                        0 <= xx < x ==> channels_multiple_of(
                            #[trigger] target.pix(xx, y as int),
                            q as int,
                        ),
                decreases w - x,
            {
                let pixel = self.get(x, y);
                let r = random_u8_below(limit);
                let biased = pixel.clamping_add(&Color::new(r, r, r));
                proof {
                    lemma_quant_le(biased.r as int, q as int);
                    lemma_quant_le(biased.g as int, q as int);
                    lemma_quant_le(biased.b as int, q as int);
                }
                let out = Color::new(
                    (biased.r / q) * q,
                    (biased.g / q) * q,
                    (biased.b / q) * q,
                );
                let ghost before = *target;
                target.set(x, y, out);
                proof {
                    lemma_row_major_index(x as int, y as int, w as int, h as int);
                    lemma_quantised_multiple(biased, q as int);
                    assert(out == quantised(biased, q as int));
                    assert(randomly_dithered(
                        self.pix(x as int, y as int),
                        target.pix(x as int, y as int),
                        q as int,
                    )) by {
                        assert((r as int) < random_bias_limit(q as int) && target.pix(
                            x as int,
                            y as int,
                        ) == quantised(
                            color_sat_add(self.pix(x as int, y as int), grey_level(r as int)),
                            q as int,
                        ));
                    }
                    assert forall|xx: int, yy: int|
                        0 <= xx < w && 0 <= yy < h && (xx != x || yy != y) implies #[trigger]
                        target.pix(xx, yy) == before.pix(xx, yy) by {
                        lemma_row_major_index(xx, yy, w as int, h as int);
                        lemma_row_major_distinct(xx, yy, x as int, y as int, w as int);
                    }
                }
                x += 1;
            }
            y += 1;
        }
    }

    /// Patterned dithering at a bit depth: `bits_per_channel` bits give at
    /// most `2^bits` (capped at 255) distinguishable levels per channel.
    pub fn patterned_dithering(&self, target: &mut Image, bits_per_channel: usize)
        requires
            self.wf(),
            old(target).wf(),
            self.same_dims(*old(target)),
            bits_per_channel >= 1,
        ensures
            final(target).wf(),
            final(target).width == old(target).width,
            final(target).height == old(target).height,
            forall|x: int, y: int|
                0 <= x < self.width && 0 <= y < self.height ==> #[trigger] final(target).pix(x, y)
                    == patterned_pixel(
                    self.pix(x, y),
                    x,
                    y,
                    quant_step(max_levels_of(bits_per_channel as int)),
                ),
    {
        let max_values_per_channel = levels_for_bits(bits_per_channel);
        self.patterned_dithering_impl(target, max_values_per_channel);
    }

    /// Random-bias dithering at a bit depth: `bits_per_channel` bits give at
    /// most `2^bits` (capped at 255) distinguishable levels per channel.
    pub fn random_bias_dithering(&self, target: &mut Image, bits_per_channel: usize)
        requires
            self.wf(),
            old(target).wf(),
            self.same_dims(*old(target)),
            bits_per_channel >= 1,
        ensures
            final(target).wf(),
            final(target).width == old(target).width,
            final(target).height == old(target).height,
            forall|x: int, y: int|
                0 <= x < self.width && 0 <= y < self.height ==> randomly_dithered(
                    self.pix(x, y),
                    #[trigger] final(target).pix(x, y),
                    quant_step(max_levels_of(bits_per_channel as int)),
                ),
            forall|x: int, y: int|
                0 <= x < self.width && 0 <= y < self.height ==> channels_multiple_of(
                    #[trigger] final(target).pix(x, y),
                    quant_step(max_levels_of(bits_per_channel as int)),
                ),
    {
        let max_values_per_channel = levels_for_bits(bits_per_channel);
        self.random_bias_dithering_impl(target, max_values_per_channel);
    }
}

/// The number of distinguishable levels per channel at a bit depth, capped at
/// 255 so that the quantization step stays at least one.
fn levels_for_bits(bits_per_channel: usize) -> (max_levels: usize)
    requires
        bits_per_channel >= 1,
    ensures
        max_levels == max_levels_of(bits_per_channel as int),
        2 <= max_levels <= 255,
{
    if bits_per_channel > 7 {
        255
    } else {
        let m = 1usize << bits_per_channel;
        proof {
            vstd::arithmetic::power2::lemma2_to64();
            vstd::arithmetic::power2::lemma_pow2_strictly_increases(0, bits_per_channel as nat);
            vstd::arithmetic::power2::lemma_pow2_strictly_increases(bits_per_channel as nat, 8);
            vstd::bits::lemma_usize_shl_is_mul(1, bits_per_channel);
        }
        m
    }
}

impl Image {
    /// Floyd–Steinberg error diffusion at a uniform quantization step: copy
    /// the source whole, then raster-scan the interior left-to-right and
    /// top-to-bottom, rounding each already-updated sample down to a multiple
    /// of the step and pushing weighted fractions of the error onto pixels
    /// not yet visited. The one-pixel border keeps the copied source plus any
    /// error diffused into it.
    #[verifier::rlimit(50)]
    pub fn floyd_steinberg_dithering_impl(&self, target: &mut Image, max_values_per_channel: usize)
        requires
            self.wf(),
            old(target).pixels.len() == self.pixels.len(),
            2 <= max_values_per_channel <= 256,
            self.width >= 1,
            self.height >= 1,
        ensures
            final(target).width == old(target).width,
            final(target).height == old(target).height,
            final(target).pixels@ == fs_result(
                self.pixels@,
                self.width as int,
                self.height as int,
                fs_step_quantiser(quant_step(max_values_per_channel as int)),
            ),
    {
        let w = self.width;
        let h = self.height;
        let quantisation_factor = (255usize / (max_values_per_channel - 1)) as u8;
        proof {
            vstd::arithmetic::div_mod::lemma_div_non_zero(255, max_values_per_channel as int - 1);
            vstd::arithmetic::div_mod::lemma_div_nonincreasing(
                255,
                max_values_per_channel as int - 1,
            );
        }
        let q = quantisation_factor;
        let ghost qf = fs_step_quantiser(q as int);
        target.copy_pixels_from(self);
        let ghost t0 = *target;
        let ghost src = self.pixels@;
        let mut y: usize = 1;
        while y < h - 1
            invariant
                1 <= y <= h,
                h >= 2 ==> y <= h - 1,
                w >= 1,
                h >= 1,
                w == self.width,
                h == self.height,
                1 <= q <= 255,
                q == quant_step(max_values_per_channel as int),
                qf == fs_step_quantiser(q as int),
                src == self.pixels@,
                self.wf(),
                target.width == t0.width,
                target.height == t0.height,
                target.pixels.len() == w * h,
                target.pixels@ == fs_upto(src, w as int, h as int, qf, y as int, 1),
            decreases h - y,
        {
            let mut x: usize = 1;
            while x < w - 1
                invariant
                    1 <= x <= w,
                    w >= 2 ==> x <= w - 1,
                    1 <= y < h - 1,
                    w >= 1,
                    w == self.width,
                    h == self.height,
                    1 <= q <= 255,
                    q == quant_step(max_values_per_channel as int),
                    qf == fs_step_quantiser(q as int),
                    src == self.pixels@,
                    self.wf(),
                    target.width == t0.width,
                    target.height == t0.height,
                    target.pixels.len() == w * h,
                    target.pixels@ == fs_upto(src, w as int, h as int, qf, y as int, x as int),
                decreases w - x,
            {
                proof {
                    lemma_row_major_index(x as int, y as int, w as int, h as int);
                    lemma_row_major_index(x as int + 1, y as int, w as int, h as int);
                    lemma_row_major_index(x as int - 1, y as int + 1, w as int, h as int);
                    lemma_row_major_index(x as int, y as int + 1, w as int, h as int);
                    lemma_row_major_index(x as int + 1, y as int + 1, w as int, h as int);
                }
                let ghost before = target.pixels@;
                let row = y * w + x;
                let below = (y + 1) * w + x;
                let old_pixel = target.pixels[row];
                let new = old_pixel.clamping_div(q).clamping_mul(q);
                let error = old_pixel.clamping_sub(&new);
                let d7 = target.pixels[row + 1].clamping_add(
                    &error.clamping_fraction_mul((7, 16)),
                );
                target.pixels.set(row + 1, d7);
                let d3 = target.pixels[below - 1].clamping_add(
                    &error.clamping_fraction_mul((3, 16)),
                );
                target.pixels.set(below - 1, d3);
                let d5 = target.pixels[below].clamping_add(
                    &error.clamping_fraction_mul((5, 16)),
                );
                target.pixels.set(below, d5);
                let d1 = target.pixels[below + 1].clamping_add(
                    &error.clamping_fraction_mul((1, 16)),
                );
                target.pixels.set(below + 1, d1);
                target.pixels.set(row, new);
                proof {
                    assert(target.pixels@ == fs_one(before, w as int, qf, x as int, y as int));
                }
                x += 1;
            }
            proof {
                if w < 2 {
                    assert(fs_upto(src, w as int, h as int, qf, y as int, 0) == fs_upto(
                        src,
                        w as int,
                        h as int,
                        qf,
                        y as int,
                        1,
                    ));
                }
            }
            y += 1;
        }
        proof {
            if h < 2 {
                assert(fs_upto(src, w as int, h as int, qf, 0, 1) == fs_upto(
                    src,
                    w as int,
                    h as int,
                    qf,
                    1,
                    1,
                ));
            }
        }
    }

    /// Floyd–Steinberg error diffusion at a bit depth: `bits_per_channel`
    /// bits give at most `2^bits` (capped at 255) distinguishable levels per
    /// channel, and the quantization step is the spacing between them.
    pub fn floyd_steinberg_dithering(&self, target: &mut Image, bits_per_channel: usize)
        requires
            self.wf(),
            old(target).pixels.len() == self.pixels.len(),
            bits_per_channel >= 1,
            self.width >= 1,
            self.height >= 1,
        ensures
            final(target).width == old(target).width,
            final(target).height == old(target).height,
            final(target).pixels@ == fs_result(
                self.pixels@,
                self.width as int,
                self.height as int,
                fs_step_quantiser(quant_step(max_levels_of(bits_per_channel as int))),
            ),
    {
        let max_values_per_channel = levels_for_bits(bits_per_channel);
        self.floyd_steinberg_dithering_impl(target, max_values_per_channel);
    }

    /// Floyd–Steinberg error diffusion restricted to an explicit palette:
    /// each scanned sample becomes the nearest palette entry that is
    /// channel-wise at most the sample (black when no entry qualifies), and
    /// the nonnegative error is diffused forward as in the uniform case.
    #[verifier::rlimit(50)]
    pub fn floyd_steinberg_with_custom_colour_palette(
        &self,
        target: &mut Image,
        colour_palette: &[Color],
    )
        requires
            self.wf(),
            old(target).pixels.len() == self.pixels.len(),
            self.width >= 1,
            self.height >= 1,
        ensures
            final(target).width == old(target).width,
            final(target).height == old(target).height,
            final(target).pixels@ == fs_result(
                self.pixels@,
                self.width as int,
                self.height as int,
                fs_palette_quantiser(colour_palette@),
            ),
    {
        let w = self.width;
        let h = self.height;
        let ghost qf = fs_palette_quantiser(colour_palette@);
        target.copy_pixels_from(self);
        let ghost t0 = *target;
        let ghost src = self.pixels@;
        let mut y: usize = 1;
        while y < h - 1
            invariant
                1 <= y <= h,
                h >= 2 ==> y <= h - 1,
                w >= 1,
                h >= 1,
                w == self.width,
                h == self.height,
                qf == fs_palette_quantiser(colour_palette@),
                src == self.pixels@,
                self.wf(),
                target.width == t0.width,
                target.height == t0.height,
                target.pixels.len() == w * h,
                target.pixels@ == fs_upto(src, w as int, h as int, qf, y as int, 1),
            decreases h - y,
        {
            let mut x: usize = 1;
            while x < w - 1
                invariant
                    1 <= x <= w,
                    w >= 2 ==> x <= w - 1,
                    1 <= y < h - 1,
                    w >= 1,
                    w == self.width,
                    h == self.height,
                    qf == fs_palette_quantiser(colour_palette@),
                    src == self.pixels@,
                    self.wf(),
                    target.width == t0.width,
                    target.height == t0.height,
                    target.pixels.len() == w * h,
                    target.pixels@ == fs_upto(src, w as int, h as int, qf, y as int, x as int),
                decreases w - x,
            {
                proof {
                    lemma_row_major_index(x as int, y as int, w as int, h as int);
                    lemma_row_major_index(x as int + 1, y as int, w as int, h as int);
                    lemma_row_major_index(x as int - 1, y as int + 1, w as int, h as int);
                    lemma_row_major_index(x as int, y as int + 1, w as int, h as int);
                    lemma_row_major_index(x as int + 1, y as int + 1, w as int, h as int);
                }
                let ghost before = target.pixels@;
                let row = y * w + x;
                let below = (y + 1) * w + x;
                let old_pixel = target.pixels[row];
                let new = palette_nearest(colour_palette, old_pixel);
                let error = old_pixel.clamping_sub(&new);
                let d7 = target.pixels[row + 1].clamping_add(
                    &error.clamping_fraction_mul((7, 16)),
                );
                target.pixels.set(row + 1, d7);
                let d3 = target.pixels[below - 1].clamping_add(
                    &error.clamping_fraction_mul((3, 16)),
                );
                target.pixels.set(below - 1, d3);
                let d5 = target.pixels[below].clamping_add(
                    &error.clamping_fraction_mul((5, 16)),
                );
                target.pixels.set(below, d5);
                let d1 = target.pixels[below + 1].clamping_add(
                    &error.clamping_fraction_mul((1, 16)),
                );
                target.pixels.set(below + 1, d1);
                target.pixels.set(row, new);
                proof {
                    assert(target.pixels@ == fs_one(before, w as int, qf, x as int, y as int));
                }
                x += 1;
            }
            proof {
                if w < 2 {
                    assert(fs_upto(src, w as int, h as int, qf, y as int, 0) == fs_upto(
                        src,
                        w as int,
                        h as int,
                        qf,
                        y as int,
                        1,
                    ));
                }
            }
            y += 1;
        }
        proof {
            if h < 2 {
                assert(fs_upto(src, w as int, h as int, qf, 0, 1) == fs_upto(
                    src,
                    w as int,
                    h as int,
                    qf,
                    1,
                    1,
                ));
            }
        }
    }
}

} // verus!

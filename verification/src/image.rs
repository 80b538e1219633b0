use vstd::prelude::*;

verus! {

use crate::color::Color;
use crate::math::lemma_row_major_index;
use vstd::pervasive::VecAdditionalExecFns;

/// A pixel buffer: a flat row-major array of colors together with its
/// dimensions. Every filter reads one buffer and writes another of the same
/// dimensions; no filter ever resizes a buffer.
#[derive(Clone)]
pub struct Image {
    pub width: usize,
    pub height: usize,
    pub pixels: Vec<Color>,
}

/// Sum of the red channels of a sequence of colors.
pub open spec fn sum_r(s: Seq<Color>) -> int
    decreases s.len(),
{
    if s.len() == 0 {
        0
    } else {
        sum_r(s.drop_last()) + s.last().r
    }
}

/// Sum of the green channels of a sequence of colors.
pub open spec fn sum_g(s: Seq<Color>) -> int
    decreases s.len(),
{
    if s.len() == 0 {
        0
    } else {
        sum_g(s.drop_last()) + s.last().g
    }
}

/// Sum of the blue channels of a sequence of colors.
pub open spec fn sum_b(s: Seq<Color>) -> int
    decreases s.len(),
{
    if s.len() == 0 {
        0
    } else {
        sum_b(s.drop_last()) + s.last().b
    }
}

/// Each channel sum lies in `[0, 255 * len]`.
pub proof fn lemma_channel_sum_bounds(s: Seq<Color>)
    ensures
        0 <= sum_r(s) <= 255 * s.len(),
        0 <= sum_g(s) <= 255 * s.len(),
        0 <= sum_b(s) <= 255 * s.len(),
    decreases s.len(),
{
    if s.len() > 0 {
        lemma_channel_sum_bounds(s.drop_last());
    }
}

/// The channel-wise average of a nonempty sequence of colors, each channel
/// truncated.
pub open spec fn average_of(s: Seq<Color>) -> Color {
    Color {
        r: (sum_r(s) / s.len() as int) as u8,
        g: (sum_g(s) / s.len() as int) as u8,
        b: (sum_b(s) / s.len() as int) as u8,
    }
}

/// A truncated average of channel values is itself a channel value.
pub proof fn lemma_average_in_range(s: Seq<Color>)
    requires
        s.len() > 0,
    ensures
        0 <= sum_r(s) / s.len() as int <= 255,
        0 <= sum_g(s) / s.len() as int <= 255,
        0 <= sum_b(s) / s.len() as int <= 255,
{
    lemma_channel_sum_bounds(s);
    let n = s.len() as int;
    assert(sum_r(s) / n <= 255 && sum_g(s) / n <= 255 && sum_b(s) / n <= 255)
        by (nonlinear_arith)
        requires
            1 <= n,
            0 <= sum_r(s) <= 255 * n,
            0 <= sum_g(s) <= 255 * n,
            0 <= sum_b(s) <= 255 * n,
    ;
}

/// The flat channel-interleaved byte form of a sample sequence: four bytes
/// R, G, B, 255 per sample, in sample order, fit for any standard image
/// encoder that takes 8-bit RGBA rows.
pub open spec fn rgba_bytes_of(s: Seq<Color>) -> Seq<u8> {
    Seq::new(
        (4 * s.len()) as nat,
        |i: int|
            {
                let p = s[i / 4];
                if i % 4 == 0 {
                    p.r
                } else if i % 4 == 1 {
                    p.g
                } else if i % 4 == 2 {
                    p.b
                } else {
                    255u8
                }
            },
    )
}

/// The channel-wise average of a slice of colors, truncated toward zero.
pub fn get_average_colour(colours: &[Color]) -> (c: Color)
    requires
        1 <= colours.len() <= u32::MAX,
    ensures
        c == average_of(colours@),
{
    let n = colours.len();
    let mut r: u64 = 0;
    let mut g: u64 = 0;
    let mut b: u64 = 0;
    let mut i: usize = 0;
    while i < n
        invariant
            i <= n,
            n == colours.len() <= u32::MAX,
            r == sum_r(colours@.subrange(0, i as int)),
            g == sum_g(colours@.subrange(0, i as int)),
            b == sum_b(colours@.subrange(0, i as int)),
        decreases n - i,
    {
        proof {
            lemma_channel_sum_bounds(colours@.subrange(0, i as int));
            assert(colours@.subrange(0, i + 1).drop_last() =~= colours@.subrange(0, i as int));
        }
        let p = colours[i];
        r += p.r as u64;
        g += p.g as u64;
        b += p.b as u64;
        i += 1;
    }
    proof {
        assert(colours@.subrange(0, n as int) =~= colours@);
        lemma_average_in_range(colours@);
    }
    let r = (r / n as u64) as u8;
    let g = (g / n as u64) as u8;
    let b = (b / n as u64) as u8;
    Color::new(r, g, b)
}

impl Image {
    /// The buffer holds exactly one sample per coordinate pair.
    pub open spec fn wf(self) -> bool {
        self.pixels.len() == self.width * self.height
    }

    /// The sample at `(x, y)`.
    pub open spec fn pix(self, x: int, y: int) -> Color {
        self.pixels[y * self.width + x]
    }

    /// `other` has the same dimensions as `self`.
    pub open spec fn same_dims(self, other: Image) -> bool {
        self.width == other.width && self.height == other.height
    }

    /// Create a buffer of the given dimensions, every sample set to `fill`.
    pub fn new(width: usize, height: usize, fill: Color) -> (img: Image)
        requires
            width * height <= usize::MAX,
        ensures
            img.wf(),
            img.width == width,
            img.height == height,
            forall|i: int| 0 <= i < img.pixels.len() ==> img.pixels[i] == fill,
    {
        proof {
            crate::math::lemma_mul_bound(width as int, width as int, height as int, height as int);
        }
        let total = width * height;
        let mut pixels: Vec<Color> = Vec::new();
        let mut i: usize = 0;
        while i < total
            invariant
                i <= total,
                pixels.len() == i,
                forall|j: int| 0 <= j < i ==> pixels[j] == fill,
            decreases total - i,
        {
            pixels.push(fill);
            i += 1;
        }
        Image { width, height, pixels }
    }

    /// The buffer's samples as flat channel-interleaved bytes, four per
    /// sample (R, G, B and an opaque alpha), row-major.
    pub fn to_rgba_bytes(&self) -> (bytes: Vec<u8>)
        requires
            self.pixels.len() * 4 <= usize::MAX,
        ensures
            bytes@ == rgba_bytes_of(self.pixels@),
    {
        let n = self.pixels.len();
        let mut bytes: Vec<u8> = Vec::new();
        let mut i: usize = 0;
        while i < n
            invariant
                i <= n,
                n == self.pixels.len(),
                n * 4 <= usize::MAX,
                bytes.len() == 4 * i,
                forall|j: int| 0 <= j < 4 * i ==> bytes[j] == rgba_bytes_of(self.pixels@)[j],
            decreases n - i,
        {
            let p = self.pixels[i];
            bytes.push(p.r);
            bytes.push(p.g);
            bytes.push(p.b);
            bytes.push(255);
            proof {
                vstd::arithmetic::div_mod::lemma_fundamental_div_mod_converse(
                    4 * i as int,
                    4,
                    i as int,
                    0,
                );
                vstd::arithmetic::div_mod::lemma_fundamental_div_mod_converse(
                    4 * i as int + 1,
                    4,
                    i as int,
                    1,
                );
                vstd::arithmetic::div_mod::lemma_fundamental_div_mod_converse(
                    4 * i as int + 2,
                    4,
                    i as int,
                    2,
                );
                vstd::arithmetic::div_mod::lemma_fundamental_div_mod_converse(
                    4 * i as int + 3,
                    4,
                    i as int,
                    3,
                );
            }
            i += 1;
        }
        proof {
            assert(bytes@ =~= rgba_bytes_of(self.pixels@));
        }
        bytes
    }

    /// Overwrite every sample of `self` with the corresponding sample of
    /// `src`, leaving the dimensions alone.
    pub fn copy_pixels_from(&mut self, src: &Image)
        requires
            old(self).pixels.len() == src.pixels.len(),
        ensures
            final(self).width == old(self).width,
            final(self).height == old(self).height,
            final(self).pixels@ == src.pixels@,
    {
        let ghost s0 = *self;
        let n = src.pixels.len();
        let mut i: usize = 0;
        while i < n
            invariant
                i <= n,
                n == src.pixels.len(),
                self.pixels.len() == n,
                self.width == s0.width,
                self.height == s0.height,
                forall|j: int| 0 <= j < i ==> self.pixels[j] == src.pixels[j],
            decreases n - i,
        {
            let c = src.pixels[i];
            self.pixels.set(i, c);
            i += 1;
        }
        proof {
            assert(self.pixels@ =~= src.pixels@);
        }
    }

    /// Read the sample at `(x, y)`.
    pub fn get(&self, x: usize, y: usize) -> (c: Color)
        requires
            self.wf(),
            x < self.width,
            y < self.height,
        ensures
            c == self.pix(x as int, y as int),
    {
        proof {
            lemma_row_major_index(x as int, y as int, self.width as int, self.height as int);
        }
        self.pixels[y * self.width + x]
    }

    /// Overwrite the sample at `(x, y)`.
    pub fn set(&mut self, x: usize, y: usize, c: Color)
        requires
            old(self).wf(),
            x < old(self).width,
            y < old(self).height,
        ensures
            final(self).wf(),
            final(self).width == old(self).width,
            final(self).height == old(self).height,
            final(self).pixels@ == old(self).pixels@.update(
                y * old(self).width + x,
                c,
            ),
    {
        proof {
            lemma_row_major_index(x as int, y as int, self.width as int, self.height as int);
        }
        let idx = y * self.width + x;
        self.pixels.set(idx, c);
    }
}

} // verus!

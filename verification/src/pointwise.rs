use vstd::prelude::*;

verus! {

use crate::color::Color;
use crate::image::Image;
use crate::math::{lemma_row_major_distinct, lemma_row_major_index, lemma_scaled_index_bound};
use crate::pixel_traits::{Illuminator, brightness_of};
use vstd::pervasive::VecAdditionalExecFns;

/// The grey color whose three channels all hold the brightness of `p`.
pub open spec fn grey_of(p: Color) -> Color {
    let v = brightness_of(p) as u8;
    Color { r: v, g: v, b: v }
}

/// White when the brightness of `p` reaches `threshold`, black otherwise.
pub open spec fn threshold_of(p: Color, threshold: u8) -> Color {
    if brightness_of(p) >= threshold {
        Color { r: 255, g: 255, b: 255 }
    } else {
        Color { r: 0, g: 0, b: 0 }
    }
}

/// Each channel independently becomes 255 when it reaches `threshold`, else 0.
pub open spec fn threshold_colour_of(p: Color, threshold: u8) -> Color {
    Color {
        r: if p.r >= threshold {
            255
        } else {
            0
        },
        g: if p.g >= threshold {
            255
        } else {
            0
        },
        b: if p.b >= threshold {
            255
        } else {
            0
        },
    }
}

/// The sample that `chromatic_aberration` writes at `(x, y)`: the red channel
/// read `offset` pixels down-right, the blue channel read `offset` pixels
/// up-left, the green channel in place; 0 where the shifted read would leave
/// the buffer.
pub open spec fn aberrated(src: Image, offset: int, x: int, y: int) -> Color {
    Color {
        r: if y < src.height - offset && x < src.width - offset {
            src.pix(x + offset, y + offset).r
        } else {
            0
        },
        g: src.pix(x, y).g,
        b: if offset <= y && offset <= x {
            src.pix(x - offset, y - offset).b
        } else {
            0
        },
    }
}

/// The number of distinguishable brightness levels a palette of `len`
/// entries offers: at most 255.
pub open spec fn palette_cap(len: int) -> int {
    if len < 255 {
        len
    } else {
        255
    }
}

/// The divisor that maps a brightness in `[0, 255]` onto an index into a
/// palette of `len` entries.
pub open spec fn palette_divisor(len: int) -> int {
    255int / palette_cap(len) + 1
}

/// The palette entry that stands for the brightness of `p`.
pub open spec fn palette_pick(palette: Seq<Color>, p: Color) -> Color {
    palette[brightness_of(p) / palette_divisor(palette.len() as int)]
}

impl Image {
    /// Apply a pure per-sample transform to every sample of `self`, writing
    /// the results into `target`. No neighborhood access: sample `i` of the
    /// output depends only on sample `i` of the input.
    pub fn map<F: Fn(Color) -> Color>(&self, target: &mut Image, transformer: F)
        requires
            old(target).pixels.len() == self.pixels.len(),
            forall|i: int|
                0 <= i < self.pixels.len() ==> call_requires(transformer, (self.pixels[i],)),
        ensures
            final(target).width == old(target).width,
            final(target).height == old(target).height,
            final(target).pixels.len() == old(target).pixels.len(),
            forall|i: int|
                0 <= i < self.pixels.len() ==> call_ensures(
                    transformer,
                    (self.pixels[i],),
                    #[trigger] final(target).pixels[i],
                ),
    {
        let ghost t0 = *target;
        let n = self.pixels.len();
        let mut i: usize = 0;
        while i < n
            invariant
                i <= n,
                n == self.pixels.len(),
                target.pixels.len() == t0.pixels.len() == n,
                target.width == t0.width,
                target.height == t0.height,
                forall|j: int|
                    0 <= j < self.pixels.len() ==> call_requires(transformer, (self.pixels[j],)),
                forall|j: int|
                    0 <= j < i ==> call_ensures(
                        transformer,
                        (self.pixels[j],),
                        #[trigger] target.pixels[j],
                    ),
            decreases n - i,
        {
            let p = self.pixels[i];
            let q = transformer(p);
            target.pixels.set(i, q);
            i += 1;
        }
    }

    /// Replace every sample by the grey of its brightness.
    pub fn greyscale(&self, target: &mut Image)
        requires
            old(target).pixels.len() == self.pixels.len(),
        ensures
            final(target).width == old(target).width,
            final(target).height == old(target).height,
            final(target).pixels.len() == old(target).pixels.len(),
            forall|i: int|
                0 <= i < self.pixels.len() ==> final(target).pixels[i] == grey_of(
                    #[trigger] self.pixels[i],
                ),
    {
        self.map(
            target,
            (|p: Color| -> (c: Color)
                ensures
                    c == grey_of(p),
                {
                    let brt = p.brightness();
                    Color::new(brt, brt, brt)
                }),
        );
    }

    /// Whole-pixel threshold: compare the brightness once and write plain
    /// white or plain black.
    pub fn threshold(&self, target: &mut Image, threshold: u8)
        requires
            old(target).pixels.len() == self.pixels.len(),
        ensures
            final(target).width == old(target).width,
            final(target).height == old(target).height,
            final(target).pixels.len() == old(target).pixels.len(),
            forall|i: int|
                0 <= i < self.pixels.len() ==> final(target).pixels[i] == threshold_of(
                    #[trigger] self.pixels[i],
                    threshold,
                ),
    {
        self.map(
            target,
            (|p: Color| -> (c: Color)
                ensures
                    c == threshold_of(p, threshold),
                {
                    let brt = p.brightness();
                    if brt >= threshold {
                        Color::new(255, 255, 255)
                    } else {
                        Color::new(0, 0, 0)
                    }
                }),
        );
    }

    /// Per-channel threshold: each channel independently becomes 0 or 255.
    pub fn threshold_colour(&self, target: &mut Image, threshold: u8)
        requires
            old(target).pixels.len() == self.pixels.len(),
        ensures
            final(target).width == old(target).width,
            final(target).height == old(target).height,
            final(target).pixels.len() == old(target).pixels.len(),
            forall|i: int|
                0 <= i < self.pixels.len() ==> final(target).pixels[i] == threshold_colour_of(
                    #[trigger] self.pixels[i],
                    threshold,
                ),
    {
        self.map(
            target,
            (|p: Color| -> (c: Color)
                ensures
                    c == threshold_colour_of(p, threshold),
                {
                    let r: u8 = if p.r >= threshold {
                        255
                    } else {
                        0
                    };
                    let g: u8 = if p.g >= threshold {
                        255
                    } else {
                        0
                    };
                    let b: u8 = if p.b >= threshold {
                        255
                    } else {
                        0
                    };
                    Color::new(r, g, b)
                }),
        );
    }

    /// Replace every sample by the palette entry that stands for its
    /// brightness: darker samples pick earlier entries, brighter samples
    /// later ones.
    pub fn map_brightness_to_colour_pallette(&self, target: &mut Image, colour_palette: &[Color])
        requires
            self.wf(),
            old(target).wf(),
            self.same_dims(*old(target)),
            colour_palette.len() >= 1,
        ensures
            final(target).wf(),
            final(target).width == old(target).width,
            final(target).height == old(target).height,
            forall|x: int, y: int|
                0 <= x < self.width && 0 <= y < self.height ==> final(target).pix(x, y)
                    == palette_pick(colour_palette@, #[trigger] self.pix(x, y)),
    {
        let w = self.width;
        let h = self.height;
        let m = if colour_palette.len() < 255 {
            colour_palette.len()
        } else {
            255
        };
        let divisor = 255 / m + 1;
        let mut y: usize = 0;
        while y < h
            invariant
                y <= h,
                w == self.width,
                h == self.height,
                self.wf(),
                target.wf(),
                target.width == w,
                target.height == h,
                colour_palette.len() >= 1,
                1 <= m <= 255,
                m <= colour_palette.len(),
                m == palette_cap(colour_palette.len() as int),
                divisor == palette_divisor(colour_palette.len() as int),
                forall|xx: int, yy: int|
                    0 <= xx < w && 0 <= yy < y ==> #[trigger] target.pix(xx, yy) == palette_pick(
                        colour_palette@,
                        self.pix(xx, yy),
                    ),
            decreases h - y,
        {
            let mut x: usize = 0;
            while x < w
                invariant
                    x <= w,
                    y < h,
                    w == self.width,
                    h == self.height,
                    self.wf(),
                    target.wf(),
                    target.width == w,
                    target.height == h,
                    colour_palette.len() >= 1,
                    1 <= m <= 255,
                    m <= colour_palette.len(),
                    m == palette_cap(colour_palette.len() as int),
                    divisor == palette_divisor(colour_palette.len() as int),
                    forall|xx: int, yy: int|
                        0 <= xx < w && 0 <= yy < y ==> #[trigger] target.pix(xx, yy)
                            == palette_pick(colour_palette@, self.pix(xx, yy)),
                    forall|xx: int|
                        0 <= xx < x ==> #[trigger] target.pix(xx, y as int) == palette_pick(
                            colour_palette@,
                            self.pix(xx, y as int),
                        ),
                decreases w - x,
            {
                let ghost before = *target;
                let p = self.get(x, y);
                let brt = p.brightness();
                proof {
                    lemma_scaled_index_bound(brt as int, m as int);
                }
                let c = colour_palette[brt as usize / divisor];
                target.set(x, y, c);
                proof {
                    lemma_row_major_index(x as int, y as int, w as int, h as int);
                    assert forall|xx: int, yy: int|
                        (0 <= xx < w && 0 <= yy < y) || (0 <= xx < x && yy == y) implies #[trigger]
                        target.pix(xx, yy) == before.pix(xx, yy) by {
                        lemma_row_major_index(xx, yy, w as int, h as int);
                        lemma_row_major_distinct(xx, yy, x as int, y as int, w as int);
                    }
                }
                x += 1;
            }
            y += 1;
        }
    }

    /// Shift the red channel up-left and the blue channel down-right by
    /// `offset` pixels, keeping the green channel in place; samples whose
    /// shifted source falls outside the buffer get 0 in that channel.
    pub fn chromatic_aberration(&self, target: &mut Image, offset: usize)
        requires
            self.wf(),
            old(target).wf(),
            self.same_dims(*old(target)),
            offset <= self.width,
            offset <= self.height,
        ensures
            final(target).wf(),
            final(target).width == old(target).width,
            final(target).height == old(target).height,
            forall|x: int, y: int|
                0 <= x < self.width && 0 <= y < self.height ==> final(target).pix(x, y)
                    == aberrated(*self, offset as int, x, y),
    {
        let w = self.width;
        let h = self.height;
        let mut y: usize = 0;
        while y < h
            invariant
                y <= h,
                w == self.width,
                h == self.height,
                self.wf(),
                target.wf(),
                target.width == w,
                target.height == h,
                offset <= w,
                offset <= h,
                forall|xx: int, yy: int|
                    0 <= xx < w && 0 <= yy < y ==> #[trigger] target.pix(xx, yy) == aberrated(
                        *self,
                        offset as int,
                        xx,
                        yy,
                    ),
            decreases h - y,
        {
            let mut x: usize = 0;
            while x < w
                invariant
                    x <= w,
                    y < h,
                    w == self.width,
                    h == self.height,
                    self.wf(),
                    target.wf(),
                    target.width == w,
                    target.height == h,
                    offset <= w,
                    offset <= h,
                    forall|xx: int, yy: int|
                        0 <= xx < w && 0 <= yy < y ==> #[trigger] target.pix(xx, yy) == aberrated(
                            *self,
                            offset as int,
                            xx,
                            yy,
                        ),
                    forall|xx: int|
                        0 <= xx < x ==> #[trigger] target.pix(xx, y as int) == aberrated(
                            *self,
                            offset as int,
                            xx,
                            y as int,
                        ),
                decreases w - x,
            {
                let ghost before = *target;
                let r: u8 = if y < h - offset && x < w - offset {
                    self.get(x + offset, y + offset).r
                } else {
                    0
                };
                let g: u8 = self.get(x, y).g;
                let b: u8 = if offset <= y && offset <= x {
                    self.get(x - offset, y - offset).b
                } else {
                    0
                };
                target.set(x, y, Color::new(r, g, b));
                proof {
                    lemma_row_major_index(x as int, y as int, w as int, h as int);
                    assert forall|xx: int, yy: int|
                        (0 <= xx < w && 0 <= yy < y) || (0 <= xx < x && yy == y) implies #[trigger]
                        target.pix(xx, yy) == before.pix(xx, yy) by {
                        lemma_row_major_index(xx, yy, w as int, h as int);
                        lemma_row_major_distinct(xx, yy, x as int, y as int, w as int);
                    }
                }
                x += 1;
            }
            y += 1;
        }
    }
}

} // verus!

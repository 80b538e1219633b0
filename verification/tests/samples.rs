use pixel_filters::color::Color;
use pixel_filters::image::Image;
use pixel_filters::pixel_traits::{
    DistanceSquared, Illuminator, MagnitudeSquared, PixelArithmetic, temporal_denoising,
    time_blend,
};

fn uniform(width: usize, height: usize, c: Color) -> Image {
    Image::new(width, height, c)
}

#[test]
fn brightness_fixed_point() {
    assert_eq!(Color::new(100, 150, 200).brightness(), 29 + 88 + 22);
    assert_eq!(Color::new(255, 255, 255).brightness(), 76 + 149 + 29);
    assert_eq!(Color::new(0, 0, 0).brightness(), 0);
}

#[test]
fn mag2_sums_squared_channels() {
    assert_eq!(Color::new(3, 4, 5).mag2(), 9 + 16 + 25);
    assert_eq!(Color::new(255, 255, 255).mag2(), 3 * 255 * 255);
}

#[test]
fn distance_squared_sums_channel_differences() {
    let a = Color::new(10, 20, 30);
    let b = Color::new(13, 24, 35);
    assert_eq!(a.distance_squared(&b), 9 + 16 + 25);
    assert_eq!(b.distance_squared(&a), 9 + 16 + 25);
}

#[test]
fn clamping_add_saturates_at_255() {
    let c = Color::new(200, 100, 0).clamping_add(&Color::new(100, 100, 0));
    assert_eq!((c.r, c.g, c.b), (255, 200, 0));
}

#[test]
fn clamping_sub_clamps_at_zero() {
    let c = Color::new(10, 200, 5).clamping_sub(&Color::new(20, 100, 5));
    assert_eq!((c.r, c.g, c.b), (0, 100, 0));
}

#[test]
fn clamping_mul_saturates_at_255() {
    let c = Color::new(100, 2, 0).clamping_mul(3);
    assert_eq!((c.r, c.g, c.b), (255, 6, 0));
}

#[test]
fn clamping_div_truncates() {
    let c = Color::new(100, 99, 255).clamping_div(10);
    assert_eq!((c.r, c.g, c.b), (10, 9, 25));
}

#[test]
fn normalised_mul_rescales() {
    let c = Color::new(255, 128, 100).normalised_mul(&Color::new(255, 255, 51));
    assert_eq!((c.r, c.g, c.b), (255, 128, 20));
}

#[test]
fn clamping_fraction_mul_scales_by_fraction() {
    let c = Color::new(32, 16, 160).clamping_fraction_mul((7, 16));
    assert_eq!((c.r, c.g, c.b), (14, 7, 70));
}

#[test]
fn temporal_denoising_follows_next_frame_when_far() {
    let current = Color::new(0, 0, 0);
    let next = Color::new(200, 200, 200);
    let out = temporal_denoising(current, next);
    assert_eq!((out.r, out.g, out.b), (200, 200, 200));
}

#[test]
fn temporal_denoising_blends_when_near() {
    let current = Color::new(100, 100, 100);
    let next = Color::new(110, 110, 110);
    // squared distance 300, isqrt 17, fraction (17/4).min(9) + 1 = 5 of 10
    let out = temporal_denoising(current, next);
    assert_eq!((out.r, out.g, out.b), (105, 105, 105));
}

#[test]
fn time_blend_keeps_four_fifths() {
    let out = time_blend(Color::new(100, 0, 250), Color::new(200, 100, 0));
    assert_eq!((out.r, out.g, out.b), (120, 20, 200));
}

#[test]
fn image_new_fills_every_sample() {
    let img = uniform(3, 2, Color::new(9, 8, 7));
    assert_eq!(img.width, 3);
    assert_eq!(img.height, 2);
    assert_eq!(img.pixels.len(), 6);
    for p in &img.pixels {
        assert_eq!((p.r, p.g, p.b), (9, 8, 7));
    }
}

#[test]
fn image_set_then_get_round_trips() {
    let mut img = uniform(4, 3, Color::new(0, 0, 0));
    img.set(2, 1, Color::new(1, 2, 3));
    let got = img.get(2, 1);
    assert_eq!((got.r, got.g, got.b), (1, 2, 3));
    let untouched = img.get(1, 2);
    assert_eq!((untouched.r, untouched.g, untouched.b), (0, 0, 0));
}

#[test]
fn rgba_bytes_interleave_with_opaque_alpha() {
    let mut img = uniform(2, 1, Color::new(0, 0, 0));
    img.set(0, 0, Color::new(1, 2, 3));
    img.set(1, 0, Color::new(4, 5, 6));
    assert_eq!(img.to_rgba_bytes(), vec![1, 2, 3, 255, 4, 5, 6, 255]);
}

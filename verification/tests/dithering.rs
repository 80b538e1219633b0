use pixel_filters::color::Color;
use pixel_filters::image::Image;

fn uniform(width: usize, height: usize, c: Color) -> Image {
    Image::new(width, height, c)
}

fn varied(width: usize, height: usize) -> Image {
    let mut img = Image::new(width, height, Color::new(0, 0, 0));
    for y in 0..height {
        for x in 0..width {
            let v = ((x * 53 + y * 101 + 7) % 256) as u8;
            img.set(x, y, Color::new(v, 255 - v, v.wrapping_mul(5)));
        }
    }
    img
}

#[test]
fn floyd_steinberg_at_eight_bits_is_a_no_op() {
    let src = varied(5, 4);
    let mut dst = uniform(5, 4, Color::new(9, 9, 9));
    src.floyd_steinberg_dithering(&mut dst, 8);
    assert_eq!(src.pixels, dst.pixels);
}

#[test]
fn floyd_steinberg_at_eight_bits_is_a_no_op_on_one_pixel() {
    let src = uniform(1, 1, Color::new(123, 45, 67));
    let mut dst = uniform(1, 1, Color::new(0, 0, 0));
    src.floyd_steinberg_dithering(&mut dst, 8);
    assert_eq!(src.pixels, dst.pixels);
}

#[test]
fn floyd_steinberg_at_one_bit_makes_interior_channels_extreme() {
    let src = varied(6, 5);
    let mut dst = uniform(6, 5, Color::new(0, 0, 0));
    src.floyd_steinberg_dithering(&mut dst, 1);
    for y in 1..4 {
        for x in 1..5 {
            let p = dst.get(x, y);
            assert!(p.r == 0 || p.r == 255);
            assert!(p.g == 0 || p.g == 255);
            assert!(p.b == 0 || p.b == 255);
        }
    }
}

#[test]
fn floyd_steinberg_diffuses_error_with_documented_weights() {
    let src = uniform(3, 3, Color::new(200, 200, 200));
    let mut dst = uniform(3, 3, Color::new(0, 0, 0));
    src.floyd_steinberg_dithering(&mut dst, 1);
    // (1,1) quantizes 200 down to 0 with error 200; the four neighbors gain
    // 200*7/16 = 87, 200*3/16 = 37, 200*5/16 = 62 and 200*1/16 = 12,
    // saturating at 255
    assert_eq!(dst.get(1, 1).r, 0);
    assert_eq!(dst.get(2, 1).r, 255); // 200 + 87 saturates
    assert_eq!(dst.get(0, 2).r, 237); // 200 + 37
    assert_eq!(dst.get(1, 2).r, 255); // 200 + 62 saturates
    assert_eq!(dst.get(2, 2).r, 212); // 200 + 12
    assert_eq!(dst.get(0, 0).r, 200); // border keeps the copy
}

#[test]
fn floyd_steinberg_palette_picks_dominated_nearest() {
    let palette = [Color::new(0, 0, 0), Color::new(100, 100, 100)];
    let src = uniform(3, 3, Color::new(150, 150, 150));
    let mut dst = uniform(3, 3, Color::new(0, 0, 0));
    src.floyd_steinberg_with_custom_colour_palette(&mut dst, &palette);
    assert_eq!(dst.get(1, 1).r, 100);
    assert_eq!(dst.get(2, 1).r, 171); // 150 + 50*7/16 = 150 + 21
}

#[test]
fn floyd_steinberg_palette_falls_back_to_black() {
    // no palette entry is channel-wise below the sample
    let palette = [Color::new(200, 200, 200)];
    let src = uniform(3, 3, Color::new(150, 150, 150));
    let mut dst = uniform(3, 3, Color::new(0, 0, 0));
    src.floyd_steinberg_with_custom_colour_palette(&mut dst, &palette);
    assert_eq!(dst.get(1, 1).r, 0);
    assert_eq!(dst.get(2, 1).r, 215); // 150 + 150*7/16 = 150 + 65
}

#[test]
fn patterned_dithering_bias_pattern_values() {
    // one bit per channel: step 255; at (0,0) every parity matches and the
    // bias saturates the sample up to the top level, at (1,1) only the joint
    // parity term applies
    let src = uniform(2, 2, Color::new(20, 20, 20));
    let mut dst = uniform(2, 2, Color::new(9, 9, 9));
    src.patterned_dithering(&mut dst, 1);
    assert_eq!(dst.get(0, 0).r, 255);
    assert_eq!(dst.get(1, 1).r, 0);
}

#[test]
fn patterned_dithering_writes_multiples_of_the_step() {
    let src = varied(6, 6);
    let mut dst = uniform(6, 6, Color::new(0, 0, 0));
    // three bits per channel: 8 levels, step 255/7 = 36
    src.patterned_dithering(&mut dst, 3);
    for p in &dst.pixels {
        assert_eq!(p.r % 36, 0);
        assert_eq!(p.g % 36, 0);
        assert_eq!(p.b % 36, 0);
    }
}

#[test]
fn random_bias_dithering_writes_multiples_of_the_step() {
    let src = varied(6, 6);
    let mut dst = uniform(6, 6, Color::new(0, 0, 0));
    // two bits per channel: 4 levels, step 255/3 = 85
    src.random_bias_dithering(&mut dst, 2);
    for p in &dst.pixels {
        assert_eq!(p.r % 85, 0);
        assert_eq!(p.g % 85, 0);
        assert_eq!(p.b % 85, 0);
    }
}

#[test]
fn random_bias_dithering_at_eight_bits_is_exact() {
    // at step 1 the bias limit is 1, so the only possible bias is 0 and the
    // output must equal the source sample for sample
    let src = varied(5, 5);
    let mut dst = uniform(5, 5, Color::new(9, 9, 9));
    src.random_bias_dithering(&mut dst, 8);
    assert_eq!(src.pixels, dst.pixels);
}

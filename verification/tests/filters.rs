use pixel_filters::color::Color;
use pixel_filters::image::Image;

fn uniform(width: usize, height: usize, c: Color) -> Image {
    Image::new(width, height, c)
}

fn varied(width: usize, height: usize) -> Image {
    let mut img = Image::new(width, height, Color::new(0, 0, 0));
    for y in 0..height {
        for x in 0..width {
            let v = ((x * 37 + y * 91) % 256) as u8;
            img.set(x, y, Color::new(v, v.wrapping_mul(3), 255 - v));
        }
    }
    img
}

#[test]
fn map_with_identity_transform_copies_exactly() {
    let src = varied(5, 4);
    let mut dst = uniform(5, 4, Color::new(1, 1, 1));
    src.map(&mut dst, |p| p);
    assert_eq!(src.pixels, dst.pixels);
}

#[test]
fn greyscale_writes_brightness_in_every_channel() {
    let src = uniform(2, 2, Color::new(100, 150, 200));
    let mut dst = uniform(2, 2, Color::new(0, 0, 0));
    src.greyscale(&mut dst);
    for p in &dst.pixels {
        assert_eq!((p.r, p.g, p.b), (139, 139, 139));
    }
}

#[test]
fn threshold_compares_brightness_once() {
    let src = uniform(1, 1, Color::new(100, 150, 200));  // brightness 139
    let mut dst = uniform(1, 1, Color::new(7, 7, 7));
    src.threshold(&mut dst, 139);
    assert_eq!((dst.pixels[0].r, dst.pixels[0].g, dst.pixels[0].b), (255, 255, 255));
    src.threshold(&mut dst, 140);
    assert_eq!((dst.pixels[0].r, dst.pixels[0].g, dst.pixels[0].b), (0, 0, 0));
}

#[test]
fn threshold_colour_compares_each_channel() {
    let src = uniform(1, 1, Color::new(100, 150, 200));
    let mut dst = uniform(1, 1, Color::new(0, 0, 0));
    src.threshold_colour(&mut dst, 150);
    assert_eq!((dst.pixels[0].r, dst.pixels[0].g, dst.pixels[0].b), (0, 255, 255));
}

#[test]
fn convolve_with_delta_kernel_reproduces_interior() {
    let src = varied(5, 4);
    let border_fill = Color::new(9, 9, 9);
    let mut dst = uniform(5, 4, border_fill);
    src.convolve(
        &mut dst,
        3,
        |_s, (kx, ky)| if kx == 1 && ky == 1 { 4 } else { 0 },
        4,
    );
    for y in 0..4 {
        for x in 0..5 {
            let interior = (1..4).contains(&x) && (1..3).contains(&y);
            let got = dst.get(x, y);
            let want = if interior { src.get(x, y) } else { border_fill };
            assert_eq!((got.r, got.g, got.b), (want.r, want.g, want.b));
        }
    }
}

#[test]
fn gaussian_blur_averages_center_spike() {
    let mut src = uniform(3, 3, Color::new(0, 0, 0));
    src.set(1, 1, Color::new(16, 16, 16));
    let mut dst = uniform(3, 3, Color::new(0, 0, 0));
    src.gaussian_blur_3x3(&mut dst);
    // interior: only the center weight 4 sees a nonzero sample: 4*16/16 = 4
    let center = dst.get(1, 1);
    assert_eq!((center.r, center.g, center.b), (4, 4, 4));
    // border carries the source through
    let corner = dst.get(0, 0);
    assert_eq!((corner.r, corner.g, corner.b), (0, 0, 0));
}

#[test]
fn sharpen_on_uniform_buffer_keeps_brightness() {
    let src = uniform(3, 3, Color::new(100, 100, 100));  // brightness 98
    let mut dst = uniform(3, 3, Color::new(7, 7, 7));
    src.sharpen(&mut dst);
    let center = dst.get(1, 1);
    assert_eq!((center.r, center.g, center.b), (98, 98, 98));
    let corner = dst.get(0, 0);
    assert_eq!((corner.r, corner.g, corner.b), (0, 0, 0));
}

#[test]
fn sharpen_colour_on_uniform_buffer_is_identity() {
    let src = uniform(3, 3, Color::new(100, 120, 140));
    let mut dst = uniform(3, 3, Color::new(0, 0, 0));
    src.sharpen_colour(&mut dst);
    let center = dst.get(1, 1);
    assert_eq!((center.r, center.g, center.b), (100, 120, 140));
    let corner = dst.get(0, 0);
    assert_eq!((corner.r, corner.g, corner.b), (100, 120, 140));
}

#[test]
fn emboss_on_uniform_buffer_keeps_color() {
    // the emboss weights sum to 1, so a flat region passes through
    let src = uniform(3, 3, Color::new(100, 120, 140));
    let mut dst = uniform(3, 3, Color::new(0, 0, 0));
    src.emboss(&mut dst);
    let center = dst.get(1, 1);
    assert_eq!((center.r, center.g, center.b), (100, 120, 140));
}

#[test]
fn outline_on_uniform_buffer_is_black_inside() {
    // the outline weights sum to 0, so a flat region cancels to black
    let src = uniform(3, 3, Color::new(100, 120, 140));
    let mut dst = uniform(3, 3, Color::new(9, 9, 9));
    src.outline(&mut dst);
    let center = dst.get(1, 1);
    assert_eq!((center.r, center.g, center.b), (0, 0, 0));
    let edge = dst.get(0, 1);
    assert_eq!((edge.r, edge.g, edge.b), (100, 120, 140));
}

#[test]
fn edge_filters_accept_empty_buffers() {
    let src = uniform(0, 0, Color::new(0, 0, 0));
    let mut dst = uniform(0, 0, Color::new(0, 0, 0));
    src.sharpen(&mut dst);
    src.sobel_edge_detection_3x3(&mut dst);
    let mut src = src;
    src.sobel_edge_detection_3x3_colour(&mut dst);
    assert_eq!(dst.pixels.len(), 0);
}

#[test]
fn sobel_spikes_at_gradient_transition() {
    // columns 0..3 black, columns 3..6 white: a hard transition
    let mut src = uniform(6, 3, Color::new(0, 0, 0));
    for y in 0..3 {
        for x in 3..6 {
            src.set(x, y, Color::new(255, 255, 255));
        }
    }
    let mut dst = uniform(6, 3, Color::new(0, 0, 0));
    src.sobel_edge_detection_3x3(&mut dst);
    assert_eq!(dst.get(1, 1).r, 0);
    assert_eq!(dst.get(2, 1).r, 255);
    assert_eq!(dst.get(3, 1).r, 255);
    assert_eq!(dst.get(4, 1).r, 0);
    assert_eq!(dst.get(0, 0).r, 0);
}

#[test]
fn sobel_colour_spikes_per_channel() {
    // a red-only transition spikes only the red channel
    let mut src = uniform(6, 3, Color::new(0, 10, 10));
    for y in 0..3 {
        for x in 3..6 {
            src.set(x, y, Color::new(200, 10, 10));
        }
    }
    let mut dst = uniform(6, 3, Color::new(0, 0, 0));
    src.sobel_edge_detection_3x3_colour(&mut dst);
    let spike = dst.get(2, 1);
    assert_eq!((spike.r, spike.g, spike.b), (255, 0, 0));
    let flat = dst.get(1, 1);
    assert_eq!((flat.r, flat.g, flat.b), (0, 0, 0));
}

#[test]
fn cross_blur_on_uniform_buffer_writes_brightness_inside() {
    let mut src = uniform(3, 3, Color::new(100, 100, 100));  // brightness 98
    let mut dst = uniform(3, 3, Color::new(7, 7, 7));
    src.cross_blur(&mut dst);
    let center = dst.get(1, 1);
    assert_eq!((center.r, center.g, center.b), (98, 98, 98));
    // the border ring of the destination is left untouched
    let corner = dst.get(0, 0);
    assert_eq!((corner.r, corner.g, corner.b), (7, 7, 7));
}

#[test]
fn chromatic_aberration_shifts_red_and_blue() {
    let mut src = uniform(3, 3, Color::new(0, 0, 0));
    for y in 0..3 {
        for x in 0..3 {
            src.set(x, y, Color::new((10 * x + y) as u8, (100 + x) as u8, (10 * y + x) as u8));
        }
    }
    let mut dst = uniform(3, 3, Color::new(9, 9, 9));
    src.chromatic_aberration(&mut dst, 1);
    // (1,1): red from (2,2), green in place, blue from (0,0)
    let p = dst.get(1, 1);
    assert_eq!((p.r, p.g, p.b), (22, 101, 0));
    // (2,2): red source out of range -> 0
    let q = dst.get(2, 2);
    assert_eq!(q.r, 0);
    assert_eq!(q.b, src.get(1, 1).b);
    // (0,0): blue source out of range -> 0
    let r = dst.get(0, 0);
    assert_eq!(r.b, 0);
    assert_eq!(r.r, src.get(1, 1).r);
}

#[test]
fn map_brightness_picks_palette_entry_by_brightness() {
    let palette = [Color::new(1, 1, 1), Color::new(2, 2, 2)];
    let mut src = uniform(2, 1, Color::new(0, 0, 0));
    src.set(1, 0, Color::new(255, 255, 255));
    let mut dst = uniform(2, 1, Color::new(0, 0, 0));
    src.map_brightness_to_colour_pallette(&mut dst, &palette);
    assert_eq!(dst.get(0, 0).r, 1);
    assert_eq!(dst.get(1, 0).r, 2);
}

#[test]
fn naive_box_blur_averages_window_and_border() {
    let mut src = uniform(3, 3, Color::new(0, 0, 0));
    src.set(1, 1, Color::new(255, 255, 255));
    let mut dst = uniform(3, 3, Color::new(9, 9, 9));
    src.naive_box_blur(&mut dst, 3);
    // interior: 255 / 9 = 28; border: whole-image average, also 28
    assert_eq!(dst.get(1, 1).r, 28);
    assert_eq!(dst.get(0, 0).r, 28);
}

#[test]
fn box_blur_keeps_uniform_interior_and_blackens_border() {
    let mut src = uniform(4, 4, Color::new(100, 100, 100));
    let mut dst = uniform(4, 4, Color::new(9, 9, 9));
    let mut temp = uniform(4, 4, Color::new(0, 0, 0));
    src.efficient_box_blur(&mut dst, &mut temp, 3);
    let inside = dst.get(2, 2);
    assert_eq!((inside.r, inside.g, inside.b), (100, 100, 100));
    let other = dst.get(1, 1);
    assert_eq!((other.r, other.g, other.b), (100, 100, 100));
    let corner = dst.get(0, 0);
    assert_eq!((corner.r, corner.g, corner.b), (0, 0, 0));
}

#[test]
fn box_blur_window_includes_its_right_edge() {
    // middle column of a 0,0,255 row pattern: the 3-wide horizontal window
    // spans all three columns, so its average is (0+0+255)/3 = 85, exactly
    // the naive 3x3 mean on this buffer
    let mut src = uniform(3, 3, Color::new(0, 0, 0));
    for y in 0..3 {
        src.set(2, y, Color::new(255, 255, 255));
    }
    let mut dst = uniform(3, 3, Color::new(9, 9, 9));
    let mut temp = uniform(3, 3, Color::new(0, 0, 0));
    src.efficient_box_blur(&mut dst, &mut temp, 3);
    assert_eq!(dst.get(1, 1).r, 85);
}

#[test]
fn basic_kuwahara_keeps_uniform_color() {
    let src = uniform(5, 5, Color::new(101, 101, 101));
    let mut dst = uniform(5, 5, Color::new(0, 0, 0));
    src.basic_kuwahara_filter(&mut dst, 3);
    let inside = dst.get(2, 2);
    assert_eq!((inside.r, inside.g, inside.b), (101, 101, 101));
    let corner = dst.get(0, 0);
    assert_eq!((corner.r, corner.g, corner.b), (0, 0, 0));
}

#[test]
fn improved_kuwahara_keeps_uniform_color_with_even_channels() {
    let src = uniform(5, 5, Color::new(100, 100, 100));
    let mut dst = uniform(5, 5, Color::new(0, 0, 0));
    src.improved_kuwahara_filter(&mut dst, 3);
    let inside = dst.get(2, 2);
    assert_eq!((inside.r, inside.g, inside.b), (100, 100, 100));
}

#[test]
fn improved_kuwahara_keeps_uniform_color_with_odd_channels() {
    // all quadrant variances tie at 0; blending a color with itself is
    // idempotent, so even odd channel values survive the tie blends
    let src = uniform(5, 5, Color::new(101, 101, 101));
    let mut dst = uniform(5, 5, Color::new(0, 0, 0));
    src.improved_kuwahara_filter(&mut dst, 3);
    let inside = dst.get(2, 2);
    assert_eq!((inside.r, inside.g, inside.b), (101, 101, 101));
}

#[test]
fn improved_kuwahara_normalizes_even_size_down() {
    // an even kernel size falls to the next smaller odd size and stays
    // tie-aware
    let src = varied(5, 5);
    let mut even = uniform(5, 5, Color::new(0, 0, 0));
    let mut odd = uniform(5, 5, Color::new(0, 0, 0));
    src.improved_kuwahara_filter(&mut even, 4);
    src.improved_kuwahara_filter(&mut odd, 3);
    assert_eq!(even.pixels, odd.pixels);
}

#[test]
fn handle_edges_fills_exactly_the_border_ring() {
    let src = uniform(4, 4, Color::new(50, 50, 50));
    let mut dst = uniform(4, 4, Color::new(7, 7, 7));
    src.handle_edges(&mut dst, 3, |_img: &Image, _s, (_x, _y)| Color::new(1, 2, 3));
    for y in 0..4 {
        for x in 0..4 {
            let border = x == 0 || x == 3 || y == 0 || y == 3;
            let p = dst.get(x, y);
            if border {
                assert_eq!((p.r, p.g, p.b), (1, 2, 3));
            } else {
                assert_eq!((p.r, p.g, p.b), (7, 7, 7));
            }
        }
    }
}

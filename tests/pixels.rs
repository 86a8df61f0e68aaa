use way_cooler_bg::color::Color;
use way_cooler_bg::encode::{encode_argb, rgba_conversion, solid_argb};
use way_cooler_bg::layout::{lay_out, render, BackgroundMode};
use way_cooler_bg::raster::{crop, pixel_at, place, tile, PixelImage};

fn image_from(width: u32, height: u32, f: impl Fn(u32, u32) -> [u8; 4]) -> PixelImage {
    let mut data = Vec::new();
    for y in 0..height {
        for x in 0..width {
            data.extend_from_slice(&f(x, y));
        }
    }
    PixelImage { width, height, data }
}

fn px(img: &PixelImage, x: u32, y: u32) -> [u8; 4] {
    let p = pixel_at(img, x, y);
    [p.0, p.1, p.2, p.3]
}

fn gray() -> Color {
    Color::from_u32(0x333333)
}

#[test]
fn test_rgba_conversion() {
    assert_eq!(rgba_conversion(10, 254), 9);
    assert_eq!(rgba_conversion(2, 255), 2);
    // 255 * 500 / 255 = 500 does not fit in a byte: its low 8 bits remain.
    assert_eq!(rgba_conversion(255, 500), 244);
}

#[test]
fn premultiply_edges() {
    for c in 0..=255u8 {
        assert_eq!(rgba_conversion(c, 255), c);
        assert_eq!(rgba_conversion(c, 0), 0);
    }
    assert_eq!(rgba_conversion(200, 128), 100);
    assert_eq!(rgba_conversion(255, 1), 1);
    assert_eq!(rgba_conversion(254, 1), 0);
    assert_eq!(rgba_conversion(255, 1000), (1000u32 % 256) as u8);
}

#[test]
fn encode_premultiplies_then_swaps() {
    let img = PixelImage { width: 2, height: 1, data: vec![200, 100, 50, 128, 10, 20, 30, 255] };
    let out = encode_argb(&img);
    assert_eq!(out, vec![25, 50, 100, 128, 30, 20, 10, 255]);
    let clear = PixelImage { width: 1, height: 1, data: vec![200, 100, 50, 0] };
    assert_eq!(encode_argb(&clear), vec![0, 0, 0, 0]);
}

#[test]
fn solid_bytes_are_little_endian_argb() {
    let out = solid_argb(Color::from_u32(0x80112233), 3, 2);
    assert_eq!(out.len(), 24);
    for p in out.chunks(4) {
        assert_eq!(p, &[0x33, 0x22, 0x11, 0x80]);
    }
}

#[test]
fn crop_takes_window() {
    let src = image_from(4, 3, |x, y| [x as u8, y as u8, 0, 255]);
    let c = crop(&src, 1, 1, 2, 2);
    assert_eq!((c.width, c.height), (2, 2));
    assert_eq!(px(&c, 0, 0), [1, 1, 0, 255]);
    assert_eq!(px(&c, 1, 1), [2, 2, 0, 255]);
}

#[test]
fn place_paints_canvas_opaque() {
    let src = image_from(2, 2, |x, y| [10 + x as u8, 20 + y as u8, 30, 7]);
    let c = place(&src, 4, 3, 1, 1, 0, 0, 2, 2, gray());
    assert_eq!(px(&c, 0, 0), [0x33, 0x33, 0x33, 255]);
    assert_eq!(px(&c, 1, 1), [10, 20, 30, 255]);
    assert_eq!(px(&c, 2, 2), [11, 21, 30, 255]);
    assert_eq!(px(&c, 3, 2), [0x33, 0x33, 0x33, 255]);
}

#[test]
fn every_mode_gives_target_size() {
    let src = image_from(3, 2, |x, y| [x as u8 * 80, y as u8 * 120, 40, 255]);
    let modes = [
        BackgroundMode::Fill,
        BackgroundMode::Fit,
        BackgroundMode::Stretch,
        BackgroundMode::Center,
        BackgroundMode::Tile,
    ];
    for mode in modes {
        for (w, h) in [(7u32, 5u32), (2, 9), (1, 1), (3, 2), (16, 3)] {
            let out = render(&src, w, h, mode, gray()).unwrap();
            assert_eq!((out.width, out.height), (w, h));
            assert_eq!(out.data.len(), (w * h * 4) as usize);
        }
    }
}

#[test]
fn tile_repeats_source_from_top_left() {
    let src = image_from(3, 2, |x, y| [x as u8, y as u8, 9, 200]);
    let out = render(&src, 8, 5, BackgroundMode::Tile, gray()).unwrap();
    for y in 0..2 {
        for x in 0..3 {
            assert_eq!(px(&out, x, y), px(&src, x, y));
        }
    }
    for y in 0..5 {
        for x in 0..8 {
            assert_eq!(px(&out, x, y), px(&src, x % 3, y % 2));
        }
    }
    // ceil(8 / 3) = 3 copies across: the last one shows its first 2 columns.
    assert_eq!(px(&out, 7, 4), px(&src, 1, 0));
}

#[test]
fn center_pads_small_source() {
    let src = image_from(2, 2, |x, y| [100 + x as u8, 100 + y as u8, 0, 50]);
    let out = render(&src, 6, 4, BackgroundMode::Center, gray()).unwrap();
    assert_eq!(px(&out, 0, 0), [0x33, 0x33, 0x33, 255]);
    assert_eq!(px(&out, 2, 1), [100, 100, 0, 255]);
    assert_eq!(px(&out, 3, 2), [101, 101, 0, 255]);
    assert_eq!(px(&out, 4, 2), [0x33, 0x33, 0x33, 255]);
}

#[test]
fn center_crops_large_source() {
    let src = image_from(6, 5, |x, y| [x as u8, y as u8, 1, 255]);
    let out = render(&src, 2, 3, BackgroundMode::Center, gray()).unwrap();
    assert_eq!(px(&out, 0, 0), [2, 1, 1, 255]);
    assert_eq!(px(&out, 1, 2), [3, 3, 1, 255]);
}

#[test]
fn fit_centers_on_both_axes() {
    let src = image_from(2, 1, |_, _| [200, 10, 10, 255]);
    let out = render(&src, 4, 4, BackgroundMode::Fit, gray()).unwrap();
    for x in 0..4 {
        assert_eq!(px(&out, x, 0), [0x33, 0x33, 0x33, 255]);
        assert_eq!(px(&out, x, 1), [200, 10, 10, 255]);
        assert_eq!(px(&out, x, 2), [200, 10, 10, 255]);
        assert_eq!(px(&out, x, 3), [0x33, 0x33, 0x33, 255]);
    }
    let tall = image_from(1, 2, |_, _| [5, 6, 7, 255]);
    let out = render(&tall, 6, 2, BackgroundMode::Fit, gray()).unwrap();
    assert_eq!(px(&out, 0, 0), [0x33, 0x33, 0x33, 255]);
    // Scaled to 1 x 2 and placed at x = (6 - 1) / 2.
    assert_eq!(px(&out, 2, 0), [5, 6, 7, 255]);
    assert_eq!(px(&out, 2, 1), [5, 6, 7, 255]);
    assert_eq!(px(&out, 3, 1), [0x33, 0x33, 0x33, 255]);
}

#[test]
fn fill_covers_and_keeps_uniform_color() {
    let src = image_from(2, 1, |_, _| [90, 80, 70, 255]);
    let out = render(&src, 3, 3, BackgroundMode::Fill, gray()).unwrap();
    assert_eq!((out.width, out.height), (3, 3));
    for y in 0..3 {
        for x in 0..3 {
            assert_eq!(px(&out, x, y), [90, 80, 70, 255]);
        }
    }
}

#[test]
fn stretch_resamples_to_target() {
    let src = image_from(1, 1, |_, _| [1, 2, 3, 255]);
    let out = render(&src, 5, 2, BackgroundMode::Stretch, gray()).unwrap();
    assert_eq!((out.width, out.height), (5, 2));
    assert_eq!(out.data.len(), 40);
    for y in 0..2 {
        for x in 0..5 {
            assert_eq!(px(&out, x, y), [1, 2, 3, 255]);
        }
    }
}

#[test]
fn oversized_scaling_is_refused() {
    let src = image_from(1, 1, |_, _| [0, 0, 0, 255]);
    let wide = image_from(1, 2, |_, _| [0, 0, 0, 255]);
    assert!(render(&src, 1, 1, BackgroundMode::Fill, gray()).is_some());
    let thin = image_from(1, 2, |_, _| [0, 0, 0, 255]);
    // Fill would scale the 1 x 2 source to 4000000000 x 8000000000 pixels.
    assert!(render(&thin, 4_000_000_000, 1, BackgroundMode::Fill, gray()).is_none());
    assert!(render(&wide, 4, 4, BackgroundMode::Tile, gray()).is_some());
}

#[test]
fn tile_matches_direct_call() {
    let src = image_from(2, 3, |x, y| [x as u8, y as u8, 3, 4]);
    let a = tile(&src, 5, 4);
    let b = render(&src, 5, 4, BackgroundMode::Tile, gray()).unwrap();
    assert_eq!(a.data, b.data);
}

#[test]
fn lay_out_draws_a_given_scaled_raster() {
    let scaled = image_from(4, 2, |x, y| [x as u8, y as u8, 7, 255]);
    // Fill crops the 4 x 2 raster centrally to 2 x 2.
    let fill = lay_out(&scaled, 2, 2, BackgroundMode::Fill, gray());
    assert_eq!(px(&fill, 0, 0), [1, 0, 7, 255]);
    assert_eq!(px(&fill, 1, 1), [2, 1, 7, 255]);
    // Fit centers it on a 4 x 4 canvas.
    let fit = lay_out(&scaled, 4, 4, BackgroundMode::Fit, gray());
    assert_eq!(px(&fit, 0, 0), [0x33, 0x33, 0x33, 255]);
    assert_eq!(px(&fit, 3, 1), [3, 0, 7, 255]);
    assert_eq!(px(&fit, 0, 2), [0, 1, 7, 255]);
    // Stretch copies a raster of the output's size.
    let stretch = lay_out(&scaled, 4, 2, BackgroundMode::Stretch, gray());
    assert_eq!(stretch.data, scaled.data);
}

use std::io::Cursor;

use way_cooler_bg::color::Color;
use way_cooler_bg::layout::BackgroundMode;
use way_cooler_bg::raster::PixelImage;
use way_cooler_bg::resolution::Resolution;
use way_cooler_bg::session::{
    choose_background, cursor_buffer, output_buffer, output_buffers, prepare_source, BgError, Source,
};
use way_cooler_bg::shm::shm_layout;

fn png(width: u32, height: u32, rgba: [u8; 4]) -> Vec<u8> {
    let img = image::RgbaImage::from_pixel(width, height, image::Rgba(rgba));
    let mut out = Cursor::new(Vec::new());
    img.write_to(&mut out, image::ImageFormat::Png).unwrap();
    out.into_inner()
}

fn res(w: u32, h: u32) -> Resolution {
    let mut r = Resolution::new();
    r.mode(1, w as i32, h as i32);
    r
}

#[test]
fn layout_geometry() {
    let l = shm_layout(800, 600).unwrap();
    assert_eq!((l.width, l.height, l.stride, l.size), (800, 600, 3200, 1_920_000));
    assert!(shm_layout(0, 600).is_none());
    assert!(shm_layout(800, 0).is_none());
    assert!(shm_layout(40_000, 40_000).is_none());
    // The size field is a signed 32-bit integer.
    let largest = shm_layout(536_870_911, 1).unwrap();
    assert_eq!(largest.size, 2_147_483_644);
    assert!(shm_layout(536_870_912, 1).is_none());
}

#[test]
fn zero_resolution_is_refused() {
    let src = Source::Solid(Color::from_u32(0x333333));
    assert!(matches!(output_buffer(&src, Resolution::new()), Err(BgError::ZeroResolution)));
    assert!(matches!(output_buffer(&src, res(100_000, 100_000)), Err(BgError::TooLarge)));
}

#[test]
fn user_picture_is_decoded() {
    let s = choose_background(None, Some("pic.png"), Some("stretch")).unwrap();
    let user = png(3, 2, [10, 20, 30, 255]);
    let bundled = png(5, 5, [0, 0, 0, 255]);
    match prepare_source(&s, Some(&user), &bundled).unwrap() {
        Source::Picture { image, mode, fill } => {
            assert_eq!((image.width, image.height), (3, 2));
            assert_eq!(&image.data[0..4], &[10, 20, 30, 255]);
            assert_eq!(mode, BackgroundMode::Stretch);
            assert_eq!(fill.to_u32(), 0x333333);
        },
        Source::Solid(_) => panic!("expected a picture"),
    }
}

#[test]
fn unreadable_image_falls_back_to_bundled() {
    let s = choose_background(None, Some("/no/such/file.png"), None).unwrap();
    let bundled = png(4, 3, [200, 100, 50, 255]);
    for file in [None, Some(&b"not an image"[..])] {
        let src = prepare_source(&s, file, &bundled).unwrap();
        match &src {
            Source::Picture { image, .. } => assert_eq!((image.width, image.height), (4, 3)),
            Source::Solid(_) => panic!("expected a picture"),
        }
        let b = output_buffer(&src, res(64, 48)).unwrap();
        assert_eq!((b.layout.width, b.layout.height, b.layout.stride), (64, 48, 256));
        assert_eq!(b.bytes.len(), 64 * 48 * 4);
        assert_eq!(&b.bytes[0..4], &[50, 100, 200, 255]);
    }
    assert!(matches!(prepare_source(&s, None, b"junk"), Err(BgError::BundledImageUnusable)));
}

#[test]
fn solid_color_needs_no_picture() {
    let s = choose_background(Some("00ff8040"), None, None).unwrap();
    let src = prepare_source(&s, None, b"junk").unwrap();
    let b = output_buffer(&src, res(3, 2)).unwrap();
    assert_eq!(b.bytes, [0x40, 0x80, 0xff, 0x00].repeat(6));
}

#[test]
fn each_output_gets_its_own_buffer() {
    let image = PixelImage { width: 2, height: 2, data: [9, 8, 7, 255].repeat(4) };
    let src = Source::Picture { image, mode: BackgroundMode::Tile, fill: Color::from_u32(0x333333) };
    let outputs = vec![res(800, 600), res(1920, 1080)];
    let buffers = output_buffers(&src, &outputs).unwrap();
    assert_eq!(buffers.len(), 2);
    assert_eq!((buffers[0].layout.width, buffers[0].layout.height), (800, 600));
    assert_eq!(buffers[0].bytes.len(), 800 * 600 * 4);
    assert_eq!((buffers[1].layout.width, buffers[1].layout.height), (1920, 1080));
    assert_eq!(buffers[1].bytes.len(), 1920 * 1080 * 4);
    assert_ne!(buffers[0].bytes.as_ptr(), buffers[1].bytes.as_ptr());
    let failing = vec![res(10, 10), Resolution::new()];
    assert!(matches!(output_buffers(&src, &failing), Err(BgError::ZeroResolution)));
}

#[test]
fn cursor_is_encoded_at_its_size() {
    let b = cursor_buffer(&png(3, 4, [255, 0, 0, 128])).unwrap();
    assert_eq!((b.layout.width, b.layout.height, b.layout.stride, b.layout.size), (3, 4, 12, 48));
    assert_eq!(&b.bytes[0..4], &[0, 0, 128, 128]);
    assert!(matches!(cursor_buffer(b"nope"), Err(BgError::CursorUnusable)));
}

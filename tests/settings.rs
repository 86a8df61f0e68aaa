use way_cooler_bg::color::{parse_color, Color};
use way_cooler_bg::layout::BackgroundMode;
use way_cooler_bg::resolution::{Resolution, CURRENT_MODE};
use way_cooler_bg::session::{choose_background, surface_title, ConfigError, Settings};
use way_cooler_bg::text::{parse_u32_radix, str_eq};

#[test]
fn color_round_trip() {
    for x in [0u32, 1, 0x333333, 0x80ff0010, 0xffffffff, 0x12345678, 0x00ff00ff] {
        assert_eq!(Color::from_u32(x).to_u32(), x);
    }
    let c = Color::from_u32(0xaabbccdd);
    assert_eq!((c.a, c.r, c.g, c.b), (0xaa, 0xbb, 0xcc, 0xdd));
}

#[test]
fn hex_and_decimal_colors() {
    let hex = Color::from_u32(parse_u32_radix("333333", 16).unwrap());
    assert_eq!((hex.r, hex.g, hex.b), (0x33, 0x33, 0x33));
    // Decimal comes first: "333333" as a color is three hundred thousand and odd.
    assert_eq!(parse_color("333333").unwrap().to_u32(), 333333);
    let dec = parse_color("3355443").unwrap();
    assert_eq!(dec.to_u32(), 3355443);
    assert_eq!((dec.r, dec.g, dec.b), (0x33, 0x33, 0x33));
    // Decimal comes first: "100" is one hundred, not 0x100.
    assert_eq!(parse_color("100").unwrap().to_u32(), 100);
    assert_eq!(parse_color("ffffff").unwrap().to_u32(), 0xffffff);
    assert_eq!(parse_color("FFFFFF").unwrap().to_u32(), 0xffffff);
    assert_eq!(parse_color("#ffffff"), None);
    assert_eq!(parse_color(""), None);
    assert_eq!(parse_color("123456789ab"), None);
}

#[test]
fn radix_parsing_follows_std() {
    for s in ["0", "+7", "4294967295", "4294967296", "", "+", "-1", "12a", "007"] {
        assert_eq!(parse_u32_radix(s, 10), u32::from_str_radix(s, 10).ok(), "{}", s);
    }
    for s in ["ff", "+FF", "ffffffff", "100000000", "g", "0x10", "DeadBeef"] {
        assert_eq!(parse_u32_radix(s, 16), u32::from_str_radix(s, 16).ok(), "{}", s);
    }
}

#[test]
fn string_equality() {
    assert!(str_eq("tile", "tile"));
    assert!(!str_eq("tile", "tiles"));
    assert!(!str_eq("Tile", "tile"));
    assert!(str_eq("", ""));
}

#[test]
fn mode_tokens() {
    assert_eq!(BackgroundMode::parse("fill"), Some(BackgroundMode::Fill));
    assert_eq!(BackgroundMode::parse("fit"), Some(BackgroundMode::Fit));
    assert_eq!(BackgroundMode::parse("stretch"), Some(BackgroundMode::Stretch));
    assert_eq!(BackgroundMode::parse("center"), Some(BackgroundMode::Center));
    assert_eq!(BackgroundMode::parse("tile"), Some(BackgroundMode::Tile));
    assert_eq!(BackgroundMode::parse("Fill"), None);
    assert_eq!(BackgroundMode::parse("zoom"), None);
    assert_eq!("tile".parse::<BackgroundMode>(), Ok(BackgroundMode::Tile));
    assert_eq!("tiles".parse::<BackgroundMode>(), Err("tiles".to_string()));
    assert_eq!("fill".parse::<BackgroundMode>(), Ok(BackgroundMode::Fill));
    for bad in ["Fill", "TILE", " fit", ""] {
        assert_eq!(bad.parse::<BackgroundMode>(), Err(bad.to_string()));
    }
}

fn image_of(s: &Settings) -> Option<(String, BackgroundMode)> {
    s.image.as_ref().map(|ic| (ic.path.clone(), ic.mode))
}

#[test]
fn mode_without_image_is_refused() {
    let r = choose_background(None, None, Some("tile"));
    assert!(matches!(r, Err(ConfigError::ModeWithoutImage)));
    let r = choose_background(Some("ffffff"), None, Some("fill"));
    assert!(matches!(r, Err(ConfigError::ModeWithoutImage)));
}

#[test]
fn command_line_choices() {
    let s = choose_background(None, None, None).unwrap();
    assert_eq!(s.color.to_u32(), 0x333333);
    assert_eq!(image_of(&s), Some((String::new(), BackgroundMode::Fill)));

    let s = choose_background(Some("ff0000"), None, None).unwrap();
    assert_eq!(s.color.to_u32(), 0xff0000);
    assert!(s.image.is_none());

    let s = choose_background(Some("ff0000"), Some("/tmp/a.png"), None).unwrap();
    assert_eq!(s.color.to_u32(), 0x333333);
    assert_eq!(image_of(&s), Some(("/tmp/a.png".to_string(), BackgroundMode::Fill)));

    let s = choose_background(None, Some("b.jpg"), Some("center")).unwrap();
    assert_eq!(image_of(&s), Some(("b.jpg".to_string(), BackgroundMode::Center)));

    assert!(matches!(choose_background(None, Some("b.jpg"), Some("zoom")), Err(ConfigError::InvalidMode)));
    assert!(matches!(choose_background(Some("xyz"), None, None), Err(ConfigError::InvalidColor)));
}

#[test]
fn titles() {
    let s = choose_background(Some("3355443"), None, None).unwrap();
    assert_eq!(surface_title(&s), "Background Color: 333333");
    let s = choose_background(Some("ff0000"), None, None).unwrap();
    assert_eq!(surface_title(&s), "Background Color: ff0000");
    let s = choose_background(Some("80a0b0c0"), None, None).unwrap();
    assert_eq!(surface_title(&s), "Background Color: 80a0b0c0");
    let s = choose_background(Some("15"), None, None).unwrap();
    assert_eq!(surface_title(&s), "Background Color: 00000f");
    let s = choose_background(None, None, None).unwrap();
    assert_eq!(surface_title(&s), "Official background");
    let s = choose_background(None, Some("/x/y.png"), None).unwrap();
    assert_eq!(surface_title(&s), "Background Image: /x/y.png");
}

#[test]
fn resolution_tracks_current_mode_only() {
    let mut r = Resolution::new();
    assert_eq!((r.w, r.h), (0, 0));
    assert!(!r.is_known());
    r.mode(0x2, 640, 480);
    assert_eq!((r.w, r.h), (0, 0));
    r.mode(CURRENT_MODE | 0x2, 1920, 1080);
    assert_eq!((r.w, r.h), (1920, 1080));
    r.mode(0, 800, 600);
    assert_eq!((r.w, r.h), (1920, 1080));
    assert!(r.is_known());
}

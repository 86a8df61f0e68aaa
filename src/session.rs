//! The session's decisions: what the command line asks for, which picture
//! is shown, and the buffer each output and the cursor get.

use vstd::prelude::*;
use crate::color::{Color, color_of, color_named, parse_color, packed};
use crate::encode::{argb_byte, argb_of, argb_fn, solid_fn, encode_argb, solid_argb, lemma_encoded_pixels};
use crate::layout::{BackgroundMode, mode_named, layout_fn, layout_fits, render, drawn_from};
use vstd::arithmetic::div_mod::lemma_small_mod;
use crate::raster::{PixelImage, RasterView, has_pixels, decoded, decode_rgba};
use crate::resolution::Resolution;
use crate::shm::{ShmBuffer, layout_ok, layout_for, shm_layout};

verus! {

/// The color used when the command line gives none: `0x333333`.
pub const DEFAULT_COLOR: u32 = 0x333333;

/// A command line that cannot be followed.
#[derive(Clone, Copy, Debug, PartialEq, Eq, Structural)]
pub enum ConfigError {
    /// The mode token is not one of the five modes.
    InvalidMode,
    /// The color is neither a decimal nor a hexadecimal 32-bit integer.
    InvalidColor,
    /// A mode was given without an image.
    ModeWithoutImage,
}

/// A background that cannot be produced.
#[derive(Clone, Copy, Debug, PartialEq, Eq, Structural)]
pub enum BgError {
    /// The output's resolution is still unknown (zero area).
    ZeroResolution,
    /// The buffer, or the work to fill it, does not fit in memory or in the
    /// protocol's 32-bit size.
    TooLarge,
    /// The bundled picture could not be decoded.
    BundledImageUnusable,
    /// The cursor picture could not be decoded or is too large.
    CursorUnusable,
}

/// A picture to show and how to lay it out. The empty path stands for the
/// bundled picture.
pub struct ImageChoice {
    pub path: String,
    pub mode: BackgroundMode,
}

/// What the command line asks for.
pub struct Settings {
    /// The whole background when there is no image; the canvas color otherwise.
    pub color: Color,
    /// The picture, when one is shown.
    pub image: Option<ImageChoice>,
}

/// Decides the background from the `--color`, `--image` and `--mode` values.
/// Without any of them the bundled picture is shown in Fill mode. With an
/// image the color is the default canvas color and the mode defaults to
/// Fill. A mode without an image is refused.
pub fn choose_background(color: Option<&str>, image: Option<&str>, mode: Option<&str>) -> (r: Result<
    Settings,
    ConfigError,
>)
    ensures
        image is None && mode is Some ==> (r matches Err(e) && e == ConfigError::ModeWithoutImage),
        image is None && mode is None && color is None ==> (r matches Ok(s) && s.color == color_of(
            DEFAULT_COLOR,
        ) && (s.image matches Some(ic) && ic.path@.len() == 0 && ic.mode == BackgroundMode::Fill)),
        image is None && mode is None ==> (color matches Some(c) ==> match color_named(c@) {
            Some(k) => (r matches Ok(s) && s.color == k && s.image is None),
            None => (r matches Err(e) && e == ConfigError::InvalidColor),
        }),
        image matches Some(p) ==> match mode {
            None => (r matches Ok(s) && s.color == color_of(DEFAULT_COLOR) && (s.image matches Some(ic) && ic.path@ == p@
                && ic.mode == BackgroundMode::Fill)),
            Some(m) => match mode_named(m@) {
                Some(k) => (r matches Ok(s) && s.color == color_of(DEFAULT_COLOR) && (s.image matches Some(ic) && ic.path@
                    == p@ && ic.mode == k)),
                None => (r matches Err(e) && e == ConfigError::InvalidMode),
            },
        },
{
    let default_color = Color::from_u32(DEFAULT_COLOR);
    match image {
        Some(p) => {
            let m = match mode {
                None => BackgroundMode::Fill,
                Some(t) => match BackgroundMode::parse(t) {
                    Some(k) => k,
                    None => {
                        return Err(ConfigError::InvalidMode);
                    },
                },
            };
            Ok(Settings { color: default_color, image: Some(ImageChoice { path: p.to_owned(), mode: m }) })
        },
        None => match mode {
            Some(_) => Err(ConfigError::ModeWithoutImage),
            None => match color {
                None => Ok(
                    Settings {
                        color: default_color,
                        image: Some(ImageChoice { path: String::new(), mode: BackgroundMode::Fill }),
                    },
                ),
                Some(c) => match parse_color(c) {
                    Some(k) => Ok(Settings { color: k, image: None }),
                    None => Err(ConfigError::InvalidColor),
                },
            },
        },
    }
}

/// A decoded picture that layout can work on: well formed, at least 1 x 1.
pub open spec fn usable(v: Option<RasterView>) -> bool {
    v matches Some(img) && img.wf() && img.width >= 1 && img.height >= 1
}

/// The picture shown: the user's file where its bytes decode to a usable
/// picture, the bundled picture otherwise.
pub open spec fn picked(file: Option<Seq<u8>>, bundled: Seq<u8>) -> Option<RasterView> {
    match file {
        Some(b) => if usable(decoded(b)) {
            decoded(b)
        } else {
            decoded(bundled)
        },
        None => decoded(bundled),
    }
}

pub open spec fn bytes_of(file: Option<&[u8]>) -> Option<Seq<u8>> {
    match file {
        Some(b) => Some(b@),
        None => None,
    }
}

/// Decodes `bytes` and keeps the result where layout can use it.
fn decode_usable(bytes: &[u8]) -> (r: Option<PixelImage>)
    ensures
        usable(decoded(bytes@)) ==> (r matches Some(img) && decoded(bytes@) == Some(img@)),
        !usable(decoded(bytes@)) ==> r is None,
{
    match decode_rgba(bytes) {
        Ok(img) => {
            let len = img.data.len();
            assert(img.width * img.height * 4 <= u32::MAX * u32::MAX * 4) by (nonlinear_arith);
            if img.width >= 1 && img.height >= 1 && (img.width as u128) * (img.height as u128) * 4
                == len as u128 {
                Some(img)
            } else {
                None
            }
        },
        Err(_) => None,
    }
}

/// What each output shows.
pub enum Source {
    /// One color, unscaled by its alpha.
    Solid(Color),
    /// A picture laid out in a mode on a canvas of the fill color.
    Picture { image: PixelImage, mode: BackgroundMode, fill: Color },
}

impl Source {
    pub open spec fn wf(&self) -> bool {
        match self {
            Source::Solid(_) => true,
            Source::Picture { image, .. } => usable(Some(image@)),
        }
    }
}

/// Settles the background: a solid color, or the chosen picture decoded.
/// `file` holds the bytes of the user's picture (`None` where it could not
/// be read); where they do not decode to a usable picture, the bundled
/// picture stands in.
pub fn prepare_source(settings: &Settings, file: Option<&[u8]>, bundled: &[u8]) -> (r: Result<
    Source,
    BgError,
>)
    ensures
        r matches Ok(s) ==> s.wf(),
        settings.image is None ==> (r matches Ok(Source::Solid(c)) && c == settings.color),
        settings.image matches Some(ic) ==> {
            let chosen = picked(bytes_of(file), bundled@);
            &&& usable(chosen) ==> (r matches Ok(Source::Picture { image, mode, fill }) && Some(image@)
                == chosen && mode == ic.mode && fill == settings.color)
            &&& !usable(chosen) ==> (r matches Err(e) && e == BgError::BundledImageUnusable)
        },
{
    match &settings.image {
        None => Ok(Source::Solid(settings.color)),
        Some(ic) => {
            let user = match file {
                Some(b) => decode_usable(b),
                None => None,
            };
            let picture = match user {
                Some(img) => Some(img),
                None => decode_usable(bundled),
            };
            match picture {
                Some(image) => Ok(Source::Picture { image, mode: ic.mode, fill: settings.color }),
                None => Err(BgError::BundledImageUnusable),
            }
        },
    }
}

/// Why an output of resolution `res` gets no buffer, if it does not.
pub open spec fn buffer_error(src: Source, res: Resolution) -> Option<BgError> {
    if res.w == 0 || res.h == 0 {
        Some(BgError::ZeroResolution)
    } else if !layout_ok(res.w as int, res.h as int) {
        Some(BgError::TooLarge)
    } else {
        match src {
            Source::Solid(_) => None,
            Source::Picture { image, mode, .. } => if layout_fits(
                image.width as int,
                image.height as int,
                res.w as int,
                res.h as int,
                mode,
            ) {
                None
            } else {
                Some(BgError::TooLarge)
            },
        }
    }
}

/// The output's pixels as a raster over the buffer's bytes.
pub open spec fn buffer_view(res: Resolution, b: ShmBuffer) -> RasterView {
    RasterView { width: res.w as nat, height: res.h as nat, data: b.bytes@ }
}

/// `b` is the buffer an output of resolution `res` shows: the solid color,
/// or the picture laid out from some raster it may be drawn from (the
/// resampled picture, whatever the resampler produced, in Fill, Fit and
/// Stretch; the picture itself otherwise), encoded for the wire.
pub open spec fn buffer_shows(src: Source, res: Resolution, b: ShmBuffer) -> bool {
    &&& layout_for(b.layout, res.w as int, res.h as int)
    &&& b.wf()
    &&& match src {
        Source::Solid(c) => has_pixels(buffer_view(res, b), res.w as nat, res.h as nat, solid_fn(c)),
        Source::Picture { image, mode, fill } => exists|s: RasterView|
            #[trigger] drawn_from(image@, s, res.w as int, res.h as int, mode) && has_pixels(
                buffer_view(res, b),
                res.w as nat,
                res.h as nat,
                argb_of(layout_fn(s, res.w as int, res.h as int, mode, fill)),
            ),
    }
}

/// An output's buffer has exactly the output's size: width, height, a
/// stride of four bytes per pixel, and `4 w h` bytes.
pub proof fn lemma_buffer_geometry(src: Source, res: Resolution, b: ShmBuffer)
    requires
        buffer_shows(src, res, b),
    ensures
        b.layout.width == res.w,
        b.layout.height == res.h,
        b.layout.stride == 4 * res.w,
        b.layout.size == 4 * res.w * res.h,
        b.bytes@.len() == 4 * res.w * res.h,
{
    assert(res.w * 4 * res.h == 4 * res.w * res.h) by (nonlinear_arith);
}

/// In Tile mode the buffer repeats the encoded source from the top-left
/// corner: pixel `(x, y)` is source pixel `(x % w0, y % h0)`, so the
/// top-left `w0` x `h0` block (as far as the output reaches) is the source
/// itself.
pub proof fn lemma_tile_buffer(src: Source, res: Resolution, b: ShmBuffer)
    requires
        src.wf(),
        src matches Source::Picture { mode, .. } && mode == BackgroundMode::Tile,
        buffer_shows(src, res, b),
    ensures
        ({
            let img = src->image@;
            let out = buffer_view(res, b);
            &&& forall|x: int, y: int, c: int|
                0 <= x < res.w && 0 <= y < res.h && 0 <= c < 4 ==> #[trigger] out.at(x, y, c) == argb_byte(
                    img.at(x % (img.width as int), y % (img.height as int), 0),
                    img.at(x % (img.width as int), y % (img.height as int), 1),
                    img.at(x % (img.width as int), y % (img.height as int), 2),
                    img.at(x % (img.width as int), y % (img.height as int), 3),
                    c,
                )
            &&& forall|x: int, y: int, c: int|
                0 <= x < res.w && x < img.width && 0 <= y < res.h && y < img.height && 0 <= c < 4
                    ==> #[trigger] out.at(x, y, c) == argb_byte(
                    img.at(x, y, 0),
                    img.at(x, y, 1),
                    img.at(x, y, 2),
                    img.at(x, y, 3),
                    c,
                )
        }),
{
    let img = src->image@;
    let out = buffer_view(res, b);
    let fill = src->fill;
    let s = choose|s: RasterView|
        #[trigger] drawn_from(img, s, res.w as int, res.h as int, BackgroundMode::Tile) && has_pixels(
            out,
            res.w as nat,
            res.h as nat,
            argb_of(layout_fn(s, res.w as int, res.h as int, BackgroundMode::Tile, fill)),
        );
    assert(s == img);
    assert forall|x: int, y: int, c: int|
        0 <= x < res.w && x < img.width && 0 <= y < res.h && y < img.height && 0 <= c < 4 implies #[trigger] out.at(
        x,
        y,
        c,
    ) == argb_byte(img.at(x, y, 0), img.at(x, y, 1), img.at(x, y, 2), img.at(x, y, 3), c) by {
        lemma_small_mod(x as nat, img.width);
        lemma_small_mod(y as nat, img.height);
    }
}

/// In Stretch mode the buffer is a raster of exactly the output's size
/// (the resampled source), encoded pixel by pixel: no crop, no padding,
/// whatever the aspect ratios.
pub proof fn lemma_stretch_buffer(src: Source, res: Resolution, b: ShmBuffer)
    requires
        src matches Source::Picture { mode, .. } && mode == BackgroundMode::Stretch,
        buffer_shows(src, res, b),
    ensures
        exists|s: RasterView|
            #![trigger s.wf()]
            s.wf() && s.width == res.w && s.height == res.h && forall|x: int, y: int, c: int|
                0 <= x < res.w && 0 <= y < res.h && 0 <= c < 4 ==> #[trigger] buffer_view(res, b).at(x, y, c)
                    == argb_byte(s.at(x, y, 0), s.at(x, y, 1), s.at(x, y, 2), s.at(x, y, 3), c),
{
    let out = buffer_view(res, b);
    let fill = src->fill;
    let s = choose|s: RasterView|
        #[trigger] drawn_from(src->image@, s, res.w as int, res.h as int, BackgroundMode::Stretch) && has_pixels(
            out,
            res.w as nat,
            res.h as nat,
            argb_of(layout_fn(s, res.w as int, res.h as int, BackgroundMode::Stretch, fill)),
        );
    assert forall|x: int, y: int, c: int| 0 <= x < res.w && 0 <= y < res.h && 0 <= c < 4 implies #[trigger] out.at(
        x,
        y,
        c,
    ) == argb_byte(s.at(x, y, 0), s.at(x, y, 1), s.at(x, y, 2), s.at(x, y, 3), c) by {
        assert(x + 0 == x && y + 0 == y);
    }
    assert(s.wf());
}

/// The buffer of one output: the background laid out at the output's
/// resolution and encoded for the wire.
pub fn output_buffer(src: &Source, res: Resolution) -> (r: Result<ShmBuffer, BgError>)
    requires
        src.wf(),
    ensures
        match buffer_error(*src, res) {
            Some(e) => (r matches Err(x) && x == e),
            None => (r matches Ok(b) && buffer_shows(*src, res, b)),
        },
{
    if !res.is_known() {
        return Err(BgError::ZeroResolution);
    }
    let layout = match shm_layout(res.w, res.h) {
        Some(l) => l,
        None => {
            return Err(BgError::TooLarge);
        },
    };
    assert(res.w * res.h * 4 == layout.size) by (nonlinear_arith)
        requires
            layout.size == res.w * 4 * res.h,
    ;
    match src {
        Source::Solid(c) => {
            let bytes = solid_argb(*c, res.w, res.h);
            Ok(ShmBuffer { layout, bytes })
        },
        Source::Picture { image, mode, fill } => {
            match render(image, res.w, res.h, *mode, *fill) {
                Some(img) => {
                    let bytes = encode_argb(&img);
                    let b = ShmBuffer { layout, bytes };
                    proof {
                        let (w, h) = (res.w as int, res.h as int);
                        let s = choose|s: RasterView|
                            #[trigger] drawn_from(image@, s, w, h, *mode) && has_pixels(
                                img@,
                                w as nat,
                                h as nat,
                                layout_fn(s, w, h, *mode, *fill),
                            );
                        lemma_encoded_pixels(
                            img@,
                            buffer_view(res, b),
                            w as nat,
                            h as nat,
                            layout_fn(s, w, h, *mode, *fill),
                        );
                        assert(drawn_from(image@, s, w, h, *mode));
                    }
                    Ok(b)
                },
                None => Err(BgError::TooLarge),
            }
        },
    }
}

/// The buffers of all outputs, each at its own resolution; the error of
/// the first output that cannot have one otherwise.
pub fn output_buffers(src: &Source, resolutions: &Vec<Resolution>) -> (r: Result<Vec<ShmBuffer>, BgError>)
    requires
        src.wf(),
    ensures
        r is Ok <==> forall|i: int| 0 <= i < resolutions.len() ==> #[trigger] buffer_error(*src, resolutions@[i]) is None,
        r matches Ok(v) ==> (v.len() == resolutions.len() && forall|i: int|
            0 <= i < v.len() ==> #[trigger] buffer_shows(*src, resolutions@[i], v@[i])),
        r matches Err(e) ==> (exists|i: int|
            0 <= i < resolutions.len() && #[trigger] buffer_error(*src, resolutions@[i]) == Some(e)
                && forall|j: int| 0 <= j < i ==> #[trigger] buffer_error(*src, resolutions@[j]) is None),
{
    let mut out: Vec<ShmBuffer> = Vec::new();
    let mut i: usize = 0;
    while i < resolutions.len()
        invariant
            src.wf(),
            i <= resolutions.len(),
            out.len() == i,
            forall|j: int| 0 <= j < i ==> #[trigger] buffer_error(*src, resolutions@[j]) is None,
            forall|j: int| 0 <= j < i ==> #[trigger] buffer_shows(*src, resolutions@[j], out@[j]),
        decreases resolutions.len() - i,
    {
        match output_buffer(src, resolutions[i]) {
            Ok(b) => {
                out.push(b);
            },
            Err(e) => {
                assert(buffer_error(*src, resolutions@[i as int]) == Some(e));
                return Err(e);
            },
        }
        i = i + 1;
    }
    Ok(out)
}

/// The cursor's buffer: its picture decoded and encoded at its own size.
pub fn cursor_buffer(png: &[u8]) -> (r: Result<ShmBuffer, BgError>)
    ensures
        match decoded(png@) {
            Some(img) => if usable(Some(img)) && layout_ok(img.width as int, img.height as int) {
                (r matches Ok(b) && layout_for(b.layout, img.width as int, img.height as int) && b.wf()
                    && has_pixels(
                    (RasterView { width: img.width, height: img.height, data: b.bytes@ }),
                    img.width,
                    img.height,
                    argb_fn(img),
                ))
            } else {
                (r matches Err(e) && e == BgError::CursorUnusable)
            },
            None => (r matches Err(e) && e == BgError::CursorUnusable),
        },
{
    let img = match decode_usable(png) {
        Some(img) => img,
        None => {
            return Err(BgError::CursorUnusable);
        },
    };
    let layout = match shm_layout(img.width, img.height) {
        Some(l) => l,
        None => {
            return Err(BgError::CursorUnusable);
        },
    };
    assert(img.width * img.height * 4 == layout.size) by (nonlinear_arith)
        requires
            layout.size == img.width * 4 * img.height,
    ;
    let bytes = encode_argb(&img);
    Ok(ShmBuffer { layout, bytes })
}

/// Hexadecimal digit `d` (0 to 15), lower case.
pub open spec fn hex_digit(d: int) -> char {
    "0123456789abcdef"@[d]
}

/// The `n` lowest hexadecimal digits of `x`, most significant first.
pub open spec fn hex_text(x: nat, n: nat) -> Seq<char>
    decreases n,
{
    if n == 0 {
        Seq::empty()
    } else {
        hex_text(x / 16, (n - 1) as nat).push(hex_digit((x % 16) as int))
    }
}

/// A packed color in hexadecimal: six digits, eight where the alpha byte is set.
pub open spec fn color_hex(c: Color) -> Seq<char> {
    let x = packed(c) as nat;
    hex_text(x, if x < 0x1000000 { 6 } else { 8 })
}

/// The title of a background surface.
pub open spec fn title_of(s: Settings) -> Seq<char> {
    match s.image {
        None => "Background Color: "@ + color_hex(s.color),
        Some(ic) => if ic.path@.len() == 0 {
            "Official background"@
        } else {
            "Background Image: "@ + ic.path@
        },
    }
}

/// Appends the `n` lowest hexadecimal digits of `x`.
fn push_hex(s: &mut String, x: u32, n: usize)
    ensures
        final(s)@ == old(s)@ + hex_text(x as nat, n as nat),
    decreases n,
{
    if n > 0 {
        push_hex(s, x / 16, n - 1);
        let d = (x % 16) as usize;
        let digits = "0123456789abcdef";
        proof {
            reveal_strlit("0123456789abcdef");
        }
        let t = digits.substring_ascii(d, d + 1);
        assert(t@ =~= seq![hex_digit(d as int)]);
        s.append(t);
        assert(s@ =~= old(s)@ + hex_text(x as nat, n as nat));
    }
}

/// The title a background surface carries: the color, the image path, or
/// the bundled picture.
pub fn surface_title(settings: &Settings) -> (t: String)
    ensures
        t@ == title_of(*settings),
{
    match &settings.image {
        None => {
            let mut t = String::from_str("Background Color: ");
            let x = settings.color.to_u32();
            let n: usize = if x < 0x1000000 { 6 } else { 8 };
            push_hex(&mut t, x, n);
            t
        },
        Some(ic) => {
            if ic.path.as_str().unicode_len() == 0 {
                String::from_str("Official background")
            } else {
                let mut t = String::from_str("Background Image: ");
                t.append(ic.path.as_str());
                t
            }
        },
    }
}

} // verus!

//! RGBA rasters: the pixel model every layout step is stated over, the
//! verified copy operations (crop, placement on a canvas, tiling), and the
//! two calls into the `image` crate (decoding and resampling).

use vstd::prelude::*;
use crate::color::Color;

verus! {

/// Byte offset of channel `c` of pixel `(x, y)` in a row-major RGBA raster
/// `w` pixels wide.
pub open spec fn idx(w: int, x: int, y: int, c: int) -> int {
    (y * w + x) * 4 + c
}

/// The mathematical content of a raster.
pub struct RasterView {
    pub width: nat,
    pub height: nat,
    pub data: Seq<u8>,
}

impl RasterView {
    /// The bytes are exactly `width * height` RGBA pixels.
    pub open spec fn wf(self) -> bool {
        self.data.len() == self.width * self.height * 4
    }

    /// Channel `c` (0 = R, 1 = G, 2 = B, 3 = A) of pixel `(x, y)`.
    pub open spec fn at(self, x: int, y: int, c: int) -> u8 {
        self.data[idx(self.width as int, x, y, c)]
    }
}

/// `img` is a well-formed `w` x `h` raster whose channel `c` at `(x, y)` is `f(x, y, c)`.
pub open spec fn has_pixels(img: RasterView, w: nat, h: nat, f: spec_fn(int, int, int) -> u8) -> bool {
    &&& img.width == w
    &&& img.height == h
    &&& img.wf()
    &&& forall|x: int, y: int, c: int|
        0 <= x < w && 0 <= y < h && 0 <= c < 4 ==> #[trigger] img.at(x, y, c) == f(x, y, c)
}

/// An 8-bit RGBA image stored row by row, four bytes per pixel.
pub struct PixelImage {
    pub width: u32,
    pub height: u32,
    pub data: Vec<u8>,
}

impl View for PixelImage {
    type V = RasterView;

    open spec fn view(&self) -> RasterView {
        RasterView { width: self.width as nat, height: self.height as nat, data: self.data@ }
    }
}

impl PixelImage {
    pub open spec fn wf(&self) -> bool {
        self@.wf()
    }
}

/// Every in-range channel offset lies inside the raster.
pub proof fn lemma_idx_bound(w: int, h: int, x: int, y: int, c: int)
    requires
        0 <= x < w,
        0 <= y < h,
        0 <= c < 4,
    ensures
        0 <= y * w + x,
        0 <= idx(w, x, y, c) < w * h * 4,
{
    assert(0 <= y * w) by (nonlinear_arith)
        requires
            0 <= y,
            0 <= w,
    ;
    assert(y * w + x < w * h) by (nonlinear_arith)
        requires
            0 <= x < w,
            0 <= y < h,
    ;
}

/// Pixels before `(x, y)` in row-major order have smaller offsets.
proof fn lemma_idx_before(w: int, xx: int, yy: int, cc: int, x: int, y: int)
    requires
        0 <= xx < w,
        0 <= yy,
        0 <= x,
        0 <= cc < 4,
        yy < y || (yy == y && xx < x),
    ensures
        0 <= idx(w, xx, yy, cc) < idx(w, x, y, 0),
{
    assert(0 <= yy * w) by (nonlinear_arith)
        requires
            0 <= yy,
            0 <= w,
    ;
    if yy < y {
        assert(yy * w + xx < y * w + x) by (nonlinear_arith)
            requires
                0 <= xx < w,
                0 <= yy < y,
                0 <= x,
        ;
    }
}

/// `data` holds, in row-major order, every pixel of a `w`-wide raster
/// before `(x, y)`, with channel values given by `f`.
pub open spec fn filled(data: Seq<u8>, w: int, y: int, x: int, f: spec_fn(int, int, int) -> u8) -> bool {
    &&& data.len() == idx(w, x, y, 0)
    &&& forall|xx: int, yy: int, cc: int|
        0 <= xx < w && 0 <= yy && 0 <= cc < 4 && (yy < y || (yy == y && xx < x))
            ==> #[trigger] data[idx(w, xx, yy, cc)] == f(xx, yy, cc)
}

pub(crate) proof fn lemma_filled_start(w: int, f: spec_fn(int, int, int) -> u8)
    ensures
        filled(Seq::empty(), w, 0, 0, f),
{
}

/// Appending the four channels of pixel `(x, y)` extends the filled prefix by one pixel.
pub(crate) proof fn lemma_filled_push(
    old_data: Seq<u8>,
    new_data: Seq<u8>,
    w: int,
    y: int,
    x: int,
    f: spec_fn(int, int, int) -> u8,
)
    requires
        filled(old_data, w, y, x, f),
        0 <= x < w,
        0 <= y,
        new_data == old_data.push(f(x, y, 0)).push(f(x, y, 1)).push(f(x, y, 2)).push(f(x, y, 3)),
    ensures
        filled(new_data, w, y, x + 1, f),
{
    assert forall|xx: int, yy: int, cc: int|
        0 <= xx < w && 0 <= yy && 0 <= cc < 4 && (yy < y || (yy == y && xx < x + 1)) implies
        #[trigger] new_data[idx(w, xx, yy, cc)] == f(xx, yy, cc) by {
        if yy == y && xx == x {
            assert(idx(w, xx, yy, cc) == old_data.len() + cc);
        } else {
            lemma_idx_before(w, xx, yy, cc, x, y);
            assert(new_data[idx(w, xx, yy, cc)] == old_data[idx(w, xx, yy, cc)]);
        }
    }
}

/// A complete row moves the filled prefix to the start of the next row.
pub(crate) proof fn lemma_filled_next_row(data: Seq<u8>, w: int, y: int, f: spec_fn(int, int, int) -> u8)
    requires
        filled(data, w, y, w, f),
        0 <= y,
    ensures
        filled(data, w, y + 1, 0, f),
{
    assert(idx(w, w, y, 0) == idx(w, 0, y + 1, 0)) by (nonlinear_arith);
}

/// A prefix filled through the last row is the whole raster.
pub(crate) proof fn lemma_filled_done(data: Seq<u8>, w: nat, h: nat, f: spec_fn(int, int, int) -> u8)
    requires
        filled(data, w as int, h as int, 0, f),
    ensures
        has_pixels(RasterView { width: w, height: h, data }, w, h, f),
{
    assert(idx(w as int, 0, h as int, 0) == w * h * 4) by (nonlinear_arith);
}

/// Reads pixel `(x, y)` as its four channels.
pub fn pixel_at(img: &PixelImage, x: u32, y: u32) -> (p: (u8, u8, u8, u8))
    requires
        img.wf(),
        x < img.width,
        y < img.height,
    ensures
        p.0 == img@.at(x as int, y as int, 0),
        p.1 == img@.at(x as int, y as int, 1),
        p.2 == img@.at(x as int, y as int, 2),
        p.3 == img@.at(x as int, y as int, 3),
{
    let len = img.data.len();
    proof {
        lemma_idx_bound(img.width as int, img.height as int, x as int, y as int, 3);
        assert(y * img.width + x < len);
    }
    let base = (y as usize * img.width as usize + x as usize) * 4;
    (img.data[base], img.data[base + 1], img.data[base + 2], img.data[base + 3])
}

pub(crate) fn push_pixel(data: &mut Vec<u8>, p: (u8, u8, u8, u8))
    ensures
        final(data)@ == old(data)@.push(p.0).push(p.1).push(p.2).push(p.3),
{
    data.push(p.0);
    data.push(p.1);
    data.push(p.2);
    data.push(p.3);
}

/// Channel `c` of the opaque canvas color.
pub open spec fn canvas_channel(fill: Color, c: int) -> u8 {
    if c == 0 {
        fill.r
    } else if c == 1 {
        fill.g
    } else if c == 2 {
        fill.b
    } else {
        255
    }
}

/// The `w` x `h` window of `src` whose top-left corner is `(ox, oy)`.
pub open spec fn crop_fn(src: RasterView, ox: int, oy: int) -> spec_fn(int, int, int) -> u8 {
    |x: int, y: int, c: int| src.at(x + ox, y + oy, c)
}

/// A canvas of the opaque fill color with the `pw` x `ph` block of `src` at
/// `(sx, sy)` copied to `(ox, oy)`. The canvas has no alpha channel, so the
/// copied pixels become opaque.
pub open spec fn place_fn(
    src: RasterView,
    ox: int,
    oy: int,
    sx: int,
    sy: int,
    pw: int,
    ph: int,
    fill: Color,
) -> spec_fn(int, int, int) -> u8 {
    |x: int, y: int, c: int|
        if ox <= x < ox + pw && oy <= y < oy + ph {
            if c == 3 {
                255u8
            } else {
                src.at(x - ox + sx, y - oy + sy, c)
            }
        } else {
            canvas_channel(fill, c)
        }
}

/// `src` repeated from the top-left corner in both directions.
pub open spec fn tile_fn(src: RasterView) -> spec_fn(int, int, int) -> u8 {
    |x: int, y: int, c: int| src.at(x % (src.width as int), y % (src.height as int), c)
}

/// Cuts the `w` x `h` window at `(ox, oy)` out of `src`.
pub fn crop(src: &PixelImage, ox: u32, oy: u32, w: u32, h: u32) -> (r: PixelImage)
    requires
        src.wf(),
        ox + w <= src.width,
        oy + h <= src.height,
    ensures
        has_pixels(r@, w as nat, h as nat, crop_fn(src@, ox as int, oy as int)),
{
    let ghost f = crop_fn(src@, ox as int, oy as int);
    let mut data: Vec<u8> = Vec::new();
    proof {
        lemma_filled_start(w as int, f);
    }
    let mut y: u32 = 0;
    while y < h
        invariant
            src.wf(),
            ox + w <= src.width,
            oy + h <= src.height,
            y <= h,
            f == crop_fn(src@, ox as int, oy as int),
            filled(data@, w as int, y as int, 0, f),
        decreases h - y,
    {
        let mut x: u32 = 0;
        while x < w
            invariant
                src.wf(),
                ox + w <= src.width,
                oy + h <= src.height,
                y < h,
                x <= w,
                f == crop_fn(src@, ox as int, oy as int),
                filled(data@, w as int, y as int, x as int, f),
            decreases w - x,
        {
            let p = pixel_at(src, x + ox, y + oy);
            let ghost before = data@;
            push_pixel(&mut data, p);
            proof {
                lemma_filled_push(before, data@, w as int, y as int, x as int, f);
            }
            x = x + 1;
        }
        proof {
            lemma_filled_next_row(data@, w as int, y as int, f);
        }
        y = y + 1;
    }
    proof {
        lemma_filled_done(data@, w as nat, h as nat, f);
    }
    PixelImage { width: w, height: h, data }
}

/// Paints a `w` x `h` canvas with the opaque fill color and copies the
/// `pw` x `ph` block of `src` at `(sx, sy)` onto it at `(ox, oy)`.
pub fn place(
    src: &PixelImage,
    w: u32,
    h: u32,
    ox: u32,
    oy: u32,
    sx: u32,
    sy: u32,
    pw: u32,
    ph: u32,
    fill: Color,
) -> (r: PixelImage)
    requires
        src.wf(),
        ox + pw <= w,
        oy + ph <= h,
        sx + pw <= src.width,
        sy + ph <= src.height,
    ensures
        has_pixels(
            r@,
            w as nat,
            h as nat,
            place_fn(src@, ox as int, oy as int, sx as int, sy as int, pw as int, ph as int, fill),
        ),
{
    let ghost f = place_fn(src@, ox as int, oy as int, sx as int, sy as int, pw as int, ph as int, fill);
    let mut data: Vec<u8> = Vec::new();
    proof {
        lemma_filled_start(w as int, f);
    }
    let mut y: u32 = 0;
    while y < h
        invariant
            src.wf(),
            ox + pw <= w,
            oy + ph <= h,
            sx + pw <= src.width,
            sy + ph <= src.height,
            y <= h,
            f == place_fn(src@, ox as int, oy as int, sx as int, sy as int, pw as int, ph as int, fill),
            filled(data@, w as int, y as int, 0, f),
        decreases h - y,
    {
        let mut x: u32 = 0;
        while x < w
            invariant
                src.wf(),
                ox + pw <= w,
                oy + ph <= h,
                sx + pw <= src.width,
                sy + ph <= src.height,
                y < h,
                x <= w,
                f == place_fn(src@, ox as int, oy as int, sx as int, sy as int, pw as int, ph as int, fill),
                filled(data@, w as int, y as int, x as int, f),
            decreases w - x,
        {
            let p = if ox <= x && x < ox + pw && oy <= y && y < oy + ph {
                let q = pixel_at(src, x - ox + sx, y - oy + sy);
                (q.0, q.1, q.2, 255u8)
            } else {
                (fill.r, fill.g, fill.b, 255u8)
            };
            let ghost before = data@;
            push_pixel(&mut data, p);
            proof {
                lemma_filled_push(before, data@, w as int, y as int, x as int, f);
            }
            x = x + 1;
        }
        proof {
            lemma_filled_next_row(data@, w as int, y as int, f);
        }
        y = y + 1;
    }
    proof {
        lemma_filled_done(data@, w as nat, h as nat, f);
    }
    PixelImage { width: w, height: h, data }
}

/// Covers a `w` x `h` raster with copies of `src` laid edge to edge from the
/// top-left corner.
pub fn tile(src: &PixelImage, w: u32, h: u32) -> (r: PixelImage)
    requires
        src.wf(),
        src.width >= 1,
        src.height >= 1,
    ensures
        has_pixels(r@, w as nat, h as nat, tile_fn(src@)),
{
    let ghost f = tile_fn(src@);
    let mut data: Vec<u8> = Vec::new();
    proof {
        lemma_filled_start(w as int, f);
    }
    let mut y: u32 = 0;
    while y < h
        invariant
            src.wf(),
            src.width >= 1,
            src.height >= 1,
            y <= h,
            f == tile_fn(src@),
            filled(data@, w as int, y as int, 0, f),
        decreases h - y,
    {
        let mut x: u32 = 0;
        while x < w
            invariant
                src.wf(),
                src.width >= 1,
                src.height >= 1,
                y < h,
                x <= w,
                f == tile_fn(src@),
                filled(data@, w as int, y as int, x as int, f),
            decreases w - x,
        {
            let p = pixel_at(src, x % src.width, y % src.height);
            let ghost before = data@;
            push_pixel(&mut data, p);
            proof {
                lemma_filled_push(before, data@, w as int, y as int, x as int, f);
            }
            x = x + 1;
        }
        proof {
            lemma_filled_next_row(data@, w as int, y as int, f);
        }
        y = y + 1;
    }
    proof {
        lemma_filled_done(data@, w as nat, h as nat, f);
    }
    PixelImage { width: w, height: h, data }
}

/// The `image` crate's error type, carried through opaquely.
#[verifier::external_type_specification]
#[verifier::external_body]
pub struct ExImageError(image::ImageError);

/// What the `image` crate decodes from an encoded picture (PNG, JPEG, GIF,
/// BMP), as 8-bit RGBA; `None` where it rejects the bytes.
pub uninterp spec fn decoded(bytes: Seq<u8>) -> Option<RasterView>;

/// Relies on `image::load_from_memory` (format guessed from the leading
/// bytes) and `DynamicImage::to_rgba8`: the picture as 8-bit RGBA rows, or the
/// crate's error; the outcome depends on the bytes alone.
#[verifier::external_body]
pub(crate) fn decode_rgba(bytes: &[u8]) -> (r: Result<PixelImage, image::ImageError>)
    ensures
        match r {
            Ok(img) => decoded(bytes@) == Some(img@),
            Err(_) => decoded(bytes@) is None,
        },
{
    match image::load_from_memory(bytes) {
        Ok(img) => {
            let rgba = img.to_rgba8();
            Ok(PixelImage { width: rgba.width(), height: rgba.height(), data: rgba.into_raw() })
        },
        Err(e) => Err(e),
    }
}

/// Relies on `image::imageops::resize` with `FilterType::Gaussian`: a new
/// buffer of exactly `width` x `height` RGBA pixels (`ImageBuffer::new`).
/// Nothing is claimed of the pixel values: the filter computes in `f32`
/// with `exp`, whose precision std leaves open. The bounds keep
/// its two sampling buffers (`f32` RGBA of `src.width` x `height`, then the
/// result) within what a `Vec` can hold; `RgbaImage::from_raw` accepts the
/// well-formed source buffer.
#[verifier::external_body]
pub(crate) fn resize_gaussian(src: &PixelImage, width: u32, height: u32) -> (r: PixelImage)
    requires
        src.wf(),
        src.width * height * 16 <= isize::MAX,
        width * height * 4 <= isize::MAX,
    ensures
        r.width == width,
        r.height == height,
        r.wf(),
{
    let buf = image::RgbaImage::from_raw(src.width, src.height, src.data.clone()).unwrap();
    let out = image::imageops::resize(&buf, width, height, image::imageops::FilterType::Gaussian);
    PixelImage { width, height, data: out.into_raw() }
}

} // verus!

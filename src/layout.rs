//! The layout engine: how a source image is mapped onto an output of a
//! given size in each of the five background modes.

use vstd::prelude::*;
use vstd::arithmetic::div_mod::{
    lemma_div_is_ordered, lemma_div_by_multiple, lemma_fundamental_div_mod, lemma_small_mod,
};
use crate::color::Color;
use crate::raster::{
    PixelImage, RasterView, has_pixels, crop_fn, place_fn, tile_fn, crop, place, tile,
    resize_gaussian,
};
use crate::text::str_eq;

verus! {

/// How the background image is fitted to the output.
#[derive(Debug, Clone, Copy, PartialEq, Eq, Structural)]
pub enum BackgroundMode {
    /// Scale, keeping the aspect ratio, until the image covers the output;
    /// crop what overflows, equally on both sides.
    Fill,
    /// Scale, keeping the aspect ratio, until the image fits inside the
    /// output; center it on the fill color.
    Fit,
    /// Scale both dimensions to the output's. May distort the image.
    Stretch,
    /// Do not scale; center the image on the fill color, cropping it
    /// equally on both sides where it is larger than the output.
    Center,
    /// Do not scale; repeat the image from the top-left corner.
    Tile,
}

/// The mode a command-line token names; tokens are lower case.
pub open spec fn mode_named(s: Seq<char>) -> Option<BackgroundMode> {
    if s == "fill"@ {
        Some(BackgroundMode::Fill)
    } else if s == "fit"@ {
        Some(BackgroundMode::Fit)
    } else if s == "stretch"@ {
        Some(BackgroundMode::Stretch)
    } else if s == "center"@ {
        Some(BackgroundMode::Center)
    } else if s == "tile"@ {
        Some(BackgroundMode::Tile)
    } else {
        None
    }
}

impl BackgroundMode {
    /// Reads a mode token; an unknown token gives `None`, never a default.
    pub fn parse(s: &str) -> (r: Option<BackgroundMode>)
        ensures
            r == mode_named(s@),
    {
        if str_eq(s, "fill") {
            Some(BackgroundMode::Fill)
        } else if str_eq(s, "fit") {
            Some(BackgroundMode::Fit)
        } else if str_eq(s, "stretch") {
            Some(BackgroundMode::Stretch)
        } else if str_eq(s, "center") {
            Some(BackgroundMode::Center)
        } else if str_eq(s, "tile") {
            Some(BackgroundMode::Tile)
        } else {
            None
        }
    }
}

impl core::str::FromStr for BackgroundMode {
    type Err = String;

    fn from_str(s: &str) -> (r: Result<BackgroundMode, String>)
        ensures
            match r {
                Ok(m) => mode_named(s@) == Some(m),
                Err(e) => mode_named(s@) is None && e@ == s@,
            },
    {
        match BackgroundMode::parse(s) {
            Some(m) => Ok(m),
            None => Err(s.to_owned()),
        }
    }
}

/// The size to which Fill scales a `w0` x `h0` image for a `tw` x `th`
/// output: the ratio is the larger of `tw / w0` and `th / h0`; the scaled
/// dimensions are truncated to whole pixels.
pub open spec fn fill_size(w0: int, h0: int, tw: int, th: int) -> (int, int) {
    if tw * h0 >= th * w0 {
        (tw, tw * h0 / w0)
    } else {
        (th * w0 / h0, th)
    }
}

/// The size to which Fit scales a `w0` x `h0` image for a `tw` x `th`
/// output: the ratio is the smaller of `tw / w0` and `th / h0`.
pub open spec fn fit_size(w0: int, h0: int, tw: int, th: int) -> (int, int) {
    if tw * h0 <= th * w0 {
        (tw, tw * h0 / w0)
    } else {
        (th * w0 / h0, th)
    }
}

/// Offset that centers a length `inner` in a length `outer`; 0 where it does not fit.
pub open spec fn center_offset(outer: int, inner: int) -> int {
    if outer > inner {
        (outer - inner) / 2
    } else {
        0
    }
}

pub open spec fn min(a: int, b: int) -> int {
    if a <= b {
        a
    } else {
        b
    }
}

/// The size of the raster a layout draws from: the source scaled to
/// `fill_size` or `fit_size`, to the output's size (Stretch), or the
/// source's own size (Center and Tile).
pub open spec fn scaled_size(w0: int, h0: int, tw: int, th: int, mode: BackgroundMode) -> (int, int) {
    match mode {
        BackgroundMode::Fill => fill_size(w0, h0, tw, th),
        BackgroundMode::Fit => fit_size(w0, h0, tw, th),
        BackgroundMode::Stretch => (tw, th),
        _ => (w0, h0),
    }
}

/// Whether the mode resamples the source before laying it out.
pub open spec fn resamples(mode: BackgroundMode) -> bool {
    mode is Fill || mode is Fit || mode is Stretch
}

/// `s` may be the raster a layout of `src` on a `tw` x `th` output draws
/// from: well formed and of `scaled_size`; the source itself where the
/// mode does not resample. The resampled pixels themselves are whatever the
/// resampler produced.
pub open spec fn drawn_from(src: RasterView, s: RasterView, tw: int, th: int, mode: BackgroundMode) -> bool {
    &&& s.wf()
    &&& s.width == scaled_size(src.width as int, src.height as int, tw, th, mode).0
    &&& s.height == scaled_size(src.width as int, src.height as int, tw, th, mode).1
    &&& !resamples(mode) ==> s == src
}

/// Channel `c` of pixel `(x, y)` of the background for a `tw` x `th`
/// output, drawn from the (already scaled) raster `s`.
pub open spec fn layout_fn(
    s: RasterView,
    tw: int,
    th: int,
    mode: BackgroundMode,
    fill: Color,
) -> spec_fn(int, int, int) -> u8 {
    let (sw, sh) = (s.width as int, s.height as int);
    match mode {
        BackgroundMode::Fill => crop_fn(s, (sw - tw) / 2, (sh - th) / 2),
        BackgroundMode::Fit => place_fn(s, (tw - sw) / 2, (th - sh) / 2, 0, 0, sw, sh, fill),
        BackgroundMode::Stretch => crop_fn(s, 0, 0),
        BackgroundMode::Center => place_fn(
            s,
            center_offset(tw, sw),
            center_offset(th, sh),
            center_offset(sw, tw),
            center_offset(sh, th),
            min(tw, sw),
            min(th, sh),
            fill,
        ),
        BackgroundMode::Tile => tile_fn(s),
    }
}

/// Whether a `sw` x `sh` raster can be drawn on a `tw` x `th` output in
/// `mode`: Fill's covers the output, Fit's lies inside it, Stretch's has
/// its size, and a tile is not empty.
pub open spec fn layout_accepts(sw: int, sh: int, tw: int, th: int, mode: BackgroundMode) -> bool {
    match mode {
        BackgroundMode::Fill => sw >= tw && sh >= th,
        BackgroundMode::Fit => sw <= tw && sh <= th,
        BackgroundMode::Stretch => sw == tw && sh == th,
        BackgroundMode::Center => true,
        BackgroundMode::Tile => sw >= 1 && sh >= 1,
    }
}

/// Whether resampling a `w0`-wide source to `nw` x `nh` stays within what
/// a `Vec` can hold (the sampler's `f32` buffer and the result).
pub open spec fn resize_fits(w0: int, nw: int, nh: int) -> bool {
    &&& nw <= u32::MAX
    &&& nh <= u32::MAX
    &&& w0 * nh * 16 <= isize::MAX
    &&& nw * nh * 4 <= isize::MAX
}

/// Whether the layout of a `w0` x `h0` source on a `tw` x `th` output
/// stays within what a `Vec` can hold.
pub open spec fn layout_fits(w0: int, h0: int, tw: int, th: int, mode: BackgroundMode) -> bool {
    &&& tw * th * 4 <= isize::MAX
    &&& match mode {
        BackgroundMode::Fill => resize_fits(w0, fill_size(w0, h0, tw, th).0, fill_size(w0, h0, tw, th).1),
        BackgroundMode::Fit => resize_fits(w0, fit_size(w0, h0, tw, th).0, fit_size(w0, h0, tw, th).1),
        BackgroundMode::Stretch => resize_fits(w0, tw, th),
        _ => true,
    }
}

/// Fill's size covers the output and Fit's lies inside it.
proof fn lemma_scaled_bounds(w0: int, h0: int, tw: int, th: int)
    requires
        w0 >= 1,
        h0 >= 1,
        tw >= 0,
        th >= 0,
    ensures
        fill_size(w0, h0, tw, th).0 >= tw,
        fill_size(w0, h0, tw, th).1 >= th,
        0 <= fit_size(w0, h0, tw, th).0 <= tw,
        0 <= fit_size(w0, h0, tw, th).1 <= th,
{
    let (a, b) = (tw * h0, th * w0);
    assert(a >= 0 && b >= 0) by (nonlinear_arith)
        requires
            tw >= 0,
            th >= 0,
            w0 >= 1,
            h0 >= 1,
            a == tw * h0,
            b == th * w0,
    ;
    assert((th * w0) / w0 == th) by {
        lemma_div_by_multiple(th, w0);
    }
    assert((tw * h0) / h0 == tw) by {
        lemma_div_by_multiple(tw, h0);
    }
    if a >= b {
        lemma_div_is_ordered(b, a, w0);
        lemma_div_is_ordered(0, a, w0);
        lemma_div_is_ordered(b, a, h0);
    } else {
        lemma_div_is_ordered(a, b, h0);
        lemma_div_is_ordered(0, b, h0);
        lemma_div_is_ordered(a, b, w0);
    }
    assert(0 <= a / w0);
    assert(0 <= b / h0);
}

/// Fill and Fit keep the source's aspect ratio: one side of the scaled size
/// matches the output exactly and the other is the proportional length cut
/// to whole pixels, so `sw / sh` differs from `w0 / h0` by under one pixel.
pub proof fn lemma_scaled_size_keeps_aspect(w0: int, h0: int, tw: int, th: int)
    requires
        w0 >= 1,
        h0 >= 1,
        tw >= 0,
        th >= 0,
    ensures
        ({
            let (sw, sh) = fill_size(w0, h0, tw, th);
            &&& sw == tw || sh == th
            &&& -h0 < sw * h0 - sh * w0 < w0
        }),
        ({
            let (sw, sh) = fit_size(w0, h0, tw, th);
            &&& sw == tw || sh == th
            &&& -h0 < sw * h0 - sh * w0 < w0
        }),
{
    lemma_fundamental_div_mod(tw * h0, w0);
    lemma_fundamental_div_mod(th * w0, h0);
    let (q1, q2) = ((tw * h0) / w0, (th * w0) / h0);
    assert(q1 * w0 == w0 * q1 && q2 * h0 == h0 * q2) by (nonlinear_arith);
    assert(tw * h0 == h0 * tw && th * w0 == w0 * th) by (nonlinear_arith);
}

/// Computes `fill_size` or `fit_size` (`covering` chooses Fill) without overflow.
fn compute_scaled_size(w0: u32, h0: u32, tw: u32, th: u32, covering: bool) -> (r: (u64, u64))
    requires
        w0 >= 1,
        h0 >= 1,
    ensures
        covering ==> r.0 == fill_size(w0 as int, h0 as int, tw as int, th as int).0
            && r.1 == fill_size(w0 as int, h0 as int, tw as int, th as int).1,
        !covering ==> r.0 == fit_size(w0 as int, h0 as int, tw as int, th as int).0
            && r.1 == fit_size(w0 as int, h0 as int, tw as int, th as int).1,
{
    assert(tw * h0 <= u32::MAX * u32::MAX && th * w0 <= u32::MAX * u32::MAX) by (nonlinear_arith);
    let a = tw as u64 * h0 as u64;
    let b = th as u64 * w0 as u64;
    let width_first = if covering {
        a >= b
    } else {
        a <= b
    };
    if width_first {
        (tw as u64, a / w0 as u64)
    } else {
        (b / h0 as u64, th as u64)
    }
}

/// Computes `resize_fits`.
fn check_resize_fits(w0: u32, nw: u64, nh: u64) -> (b: bool)
    ensures
        b == resize_fits(w0 as int, nw as int, nh as int),
{
    if nw > u32::MAX as u64 || nh > u32::MAX as u64 {
        return false;
    }
    assert(w0 * nh * 16 <= u32::MAX * u32::MAX * 16 && nw * nh * 4 <= u32::MAX * u32::MAX * 4)
        by (nonlinear_arith)
        requires
            nw <= u32::MAX,
            nh <= u32::MAX,
    ;
    let limit = isize::MAX as u128;
    (w0 as u128) * (nh as u128) * 16 <= limit && (nw as u128) * (nh as u128) * 4 <= limit
}

/// Draws the (already scaled) raster `from` on a `tw` x `th` output in
/// the given mode: Fill crops it centrally, Fit and Center center it on the
/// fill color, Stretch copies it, Tile repeats it.
pub fn lay_out(from: &PixelImage, tw: u32, th: u32, mode: BackgroundMode, fill: Color) -> (r: PixelImage)
    requires
        from.wf(),
        layout_accepts(from.width as int, from.height as int, tw as int, th as int, mode),
    ensures
        has_pixels(r@, tw as nat, th as nat, layout_fn(from@, tw as int, th as int, mode, fill)),
{
    let (sw, sh) = (from.width, from.height);
    match mode {
        BackgroundMode::Fill => crop(from, (sw - tw) / 2, (sh - th) / 2, tw, th),
        BackgroundMode::Fit => place(from, tw, th, (tw - sw) / 2, (th - sh) / 2, 0, 0, sw, sh, fill),
        BackgroundMode::Stretch => crop(from, 0, 0, tw, th),
        BackgroundMode::Center => {
            let pw = if tw <= sw { tw } else { sw };
            let ph = if th <= sh { th } else { sh };
            let ox = if tw > sw { (tw - sw) / 2 } else { 0 };
            let oy = if th > sh { (th - sh) / 2 } else { 0 };
            let sx = if sw > tw { (sw - tw) / 2 } else { 0 };
            let sy = if sh > th { (sh - th) / 2 } else { 0 };
            place(from, tw, th, ox, oy, sx, sy, pw, ph, fill)
        },
        BackgroundMode::Tile => tile(from, tw, th),
    }
}

/// Lays `src` out on a `tw` x `th` output in the given mode; the fill color
/// shows where the image does not cover the output (Fit and Center).
/// `None` exactly where the work would not fit in memory. Fill, Fit and
/// Stretch draw from the source resampled to `scaled_size`.
pub fn render(src: &PixelImage, tw: u32, th: u32, mode: BackgroundMode, fill: Color) -> (r: Option<PixelImage>)
    requires
        src.wf(),
        src.width >= 1,
        src.height >= 1,
    ensures
        r is Some <==> layout_fits(src.width as int, src.height as int, tw as int, th as int, mode),
        r matches Some(img) ==> exists|s: RasterView|
            #[trigger] drawn_from(src@, s, tw as int, th as int, mode) && has_pixels(
                img@,
                tw as nat,
                th as nat,
                layout_fn(s, tw as int, th as int, mode, fill),
            ),
{
    let (w0, h0) = (src.width, src.height);
    proof {
        lemma_scaled_bounds(w0 as int, h0 as int, tw as int, th as int);
    }
    assert(tw * th * 4 <= u32::MAX * u32::MAX * 4) by (nonlinear_arith);
    if (tw as u128) * (th as u128) * 4 > isize::MAX as u128 {
        return None;
    }
    match mode {
        BackgroundMode::Center | BackgroundMode::Tile => {
            let img = lay_out(src, tw, th, mode, fill);
            assert(drawn_from(src@, src@, tw as int, th as int, mode));
            Some(img)
        },
        _ => {
            let (sw, sh) = match mode {
                BackgroundMode::Fill => compute_scaled_size(w0, h0, tw, th, true),
                BackgroundMode::Fit => compute_scaled_size(w0, h0, tw, th, false),
                _ => (tw as u64, th as u64),
            };
            if !check_resize_fits(w0, sw, sh) {
                return None;
            }
            let scaled = resize_gaussian(src, sw as u32, sh as u32);
            let img = lay_out(&scaled, tw, th, mode, fill);
            assert(drawn_from(src@, scaled@, tw as int, th as int, mode));
            Some(img)
        },
    }
}

/// The number of copies of a `w0`-pixel tile laid side by side to cover `w`
/// pixels: `ceil(w / w0)`.
pub open spec fn tile_repeats(w: int, w0: int) -> int {
    (w + w0 - 1) / w0
}

/// `ceil(w / w0)` copies cover `w` pixels and the last of them is at least
/// partly visible: every pixel `x < w` lies in copy `x / w0`, one of the
/// first `tile_repeats(w, w0)`.
pub proof fn lemma_tile_repeats(w: int, w0: int)
    requires
        w >= 1,
        w0 >= 1,
    ensures
        (tile_repeats(w, w0) - 1) * w0 < w <= tile_repeats(w, w0) * w0,
        forall|x: int| 0 <= x < w ==> 0 <= #[trigger] (x / w0) < tile_repeats(w, w0),
{
    let r = tile_repeats(w, w0);
    lemma_fundamental_div_mod(w + w0 - 1, w0);
    assert((r - 1) * w0 < w <= r * w0) by (nonlinear_arith)
        requires
            w + w0 - 1 == w0 * r + (w + w0 - 1) % w0,
            0 <= (w + w0 - 1) % w0 < w0,
    ;
    assert forall|x: int| 0 <= x < w implies 0 <= #[trigger] (x / w0) < r by {
        lemma_fundamental_div_mod(x, w0);
        assert(0 <= x / w0 < r) by (nonlinear_arith)
            requires
                x == w0 * (x / w0) + x % w0,
                0 <= x % w0 < w0,
                0 <= x < w,
                w <= r * w0,
                w0 >= 1,
        ;
    }
}

/// In Tile mode, output pixel `(x, y)` is pixel `(x - i w0, y - j h0)` of
/// the copy in grid cell `(i, j) = (x / w0, y / h0)`, and the top-left
/// `w0` x `h0` block of the output (as far as the output reaches) is the
/// source unchanged.
pub proof fn lemma_tile_layout(src: RasterView, img: RasterView, tw: nat, th: nat, fill: Color)
    requires
        src.wf(),
        src.width >= 1,
        src.height >= 1,
        has_pixels(img, tw, th, layout_fn(src, tw as int, th as int, BackgroundMode::Tile, fill)),
    ensures
        forall|x: int, y: int, c: int|
            0 <= x < tw && 0 <= y < th && 0 <= c < 4 ==> #[trigger] img.at(x, y, c) == src.at(
                x - (x / src.width as int) * src.width,
                y - (y / src.height as int) * src.height,
                c,
            ),
        forall|x: int, y: int, c: int|
            0 <= x < src.width && x < tw && 0 <= y < src.height && y < th && 0 <= c < 4
                ==> #[trigger] img.at(x, y, c) == src.at(x, y, c),
{
    let (w0, h0) = (src.width as int, src.height as int);
    assert forall|x: int, y: int, c: int| 0 <= x < tw && 0 <= y < th && 0 <= c < 4 implies #[trigger] img.at(
        x,
        y,
        c,
    ) == src.at(x - (x / w0) * w0, y - (y / h0) * h0, c) by {
        lemma_fundamental_div_mod(x, w0);
        lemma_fundamental_div_mod(y, h0);
        assert(x % w0 == x - (x / w0) * w0) by (nonlinear_arith)
            requires
                x == w0 * (x / w0) + x % w0,
        ;
        assert(y % h0 == y - (y / h0) * h0) by (nonlinear_arith)
            requires
                y == h0 * (y / h0) + y % h0,
        ;
    }
    assert forall|x: int, y: int, c: int|
        0 <= x < w0 && x < tw && 0 <= y < h0 && y < th && 0 <= c < 4 implies #[trigger] img.at(x, y, c)
        == src.at(x, y, c) by {
        lemma_small_mod(x as nat, w0 as nat);
        lemma_small_mod(y as nat, h0 as nat);
    }
}

} // verus!

//! The wire pixel format: little-endian ARGB with premultiplied alpha,
//! that is the bytes B, G, R, A of each pixel, each color channel scaled
//! by the pixel's alpha.

use vstd::prelude::*;
use crate::color::Color;
use crate::raster::{
    PixelImage, RasterView, has_pixels, filled, pixel_at, push_pixel, lemma_filled_start,
    lemma_filled_push, lemma_filled_next_row, lemma_filled_done,
};

verus! {

/// A color channel `c` scaled by alpha `a`, truncated: `c * a / 255`.
pub open spec fn premultiply(c: int, a: int) -> int {
    c * a / 255
}

/// Scales the channel value `num` by the alpha value `alpha`:
/// `num * alpha / 255`, truncated, kept to its low 8 bits. For an 8-bit
/// alpha the quotient is at most `num` and nothing is lost.
pub fn rgba_conversion(num: u8, alpha: u32) -> (r: u8)
    requires
        num * alpha <= u32::MAX,
    ensures
        r == premultiply(num as int, alpha as int) as u8,
{
    ((num as u32 * alpha) / 255) as u8
}

/// Premultiplying by an 8-bit alpha keeps a channel within its value,
/// leaves it unchanged at full alpha and clears it at zero alpha.
pub proof fn lemma_premultiply(c: u8, a: u8)
    ensures
        0 <= premultiply(c as int, a as int) <= c,
        premultiply(c as int, 255) == c,
        premultiply(c as int, 0) == 0,
        premultiply(c as int, a as int) as u8 == premultiply(c as int, a as int),
{
    assert(0 <= c * a <= c * 255) by (nonlinear_arith);
    assert((c * 255) / 255 == c as int);
}

/// Wire byte `c` of a pixel with channels `(r, g, b, a)`.
pub open spec fn argb_byte(r: u8, g: u8, b: u8, a: u8, c: int) -> u8 {
    if c == 0 {
        premultiply(b as int, a as int) as u8
    } else if c == 1 {
        premultiply(g as int, a as int) as u8
    } else if c == 2 {
        premultiply(r as int, a as int) as u8
    } else {
        a
    }
}

/// The wire bytes of the RGBA pixels that `f` describes.
pub open spec fn argb_of(f: spec_fn(int, int, int) -> u8) -> spec_fn(int, int, int) -> u8 {
    |x: int, y: int, c: int| argb_byte(f(x, y, 0), f(x, y, 1), f(x, y, 2), f(x, y, 3), c)
}

/// The wire bytes of an RGBA raster, pixel by pixel.
pub open spec fn argb_fn(img: RasterView) -> spec_fn(int, int, int) -> u8 {
    argb_of(|x: int, y: int, c: int| img.at(x, y, c))
}

/// Encoding a raster that `f` describes gives the bytes `argb_of(f)`.
pub proof fn lemma_encoded_pixels(img: RasterView, out: RasterView, w: nat, h: nat, f: spec_fn(int, int, int) -> u8)
    requires
        has_pixels(img, w, h, f),
        has_pixels(out, w, h, argb_fn(img)),
    ensures
        has_pixels(out, w, h, argb_of(f)),
{
    assert forall|x: int, y: int, c: int| 0 <= x < w && 0 <= y < h && 0 <= c < 4 implies #[trigger] out.at(
        x,
        y,
        c,
    ) == argb_of(f)(x, y, c) by {
        assert(img.at(x, y, 0) == f(x, y, 0));
        assert(img.at(x, y, 1) == f(x, y, 1));
        assert(img.at(x, y, 2) == f(x, y, 2));
        assert(img.at(x, y, 3) == f(x, y, 3));
    }
}

/// The wire bytes of one pixel: premultiply, then swap red and blue.
fn encode_pixel(p: (u8, u8, u8, u8)) -> (q: (u8, u8, u8, u8))
    ensures
        q.0 == argb_byte(p.0, p.1, p.2, p.3, 0),
        q.1 == argb_byte(p.0, p.1, p.2, p.3, 1),
        q.2 == argb_byte(p.0, p.1, p.2, p.3, 2),
        q.3 == argb_byte(p.0, p.1, p.2, p.3, 3),
{
    let (r, g, b, a) = p;
    proof {
        lemma_premultiply(r, a);
        lemma_premultiply(g, a);
        lemma_premultiply(b, a);
    }
    assert(r * a <= 255 * 255 && g * a <= 255 * 255 && b * a <= 255 * 255) by (nonlinear_arith);
    let alpha = a as u32;
    let r2 = rgba_conversion(r, alpha);
    let g2 = rgba_conversion(g, alpha);
    let b2 = rgba_conversion(b, alpha);
    (b2, g2, r2, a)
}

/// Encodes an RGBA image into the wire format, one pixel at a time.
pub fn encode_argb(img: &PixelImage) -> (out: Vec<u8>)
    requires
        img.wf(),
    ensures
        has_pixels(
            RasterView { width: img.width as nat, height: img.height as nat, data: out@ },
            img.width as nat,
            img.height as nat,
            argb_fn(img@),
        ),
{
    let ghost f = argb_fn(img@);
    let (w, h) = (img.width, img.height);
    let mut data: Vec<u8> = Vec::new();
    proof {
        lemma_filled_start(w as int, f);
    }
    let mut y: u32 = 0;
    while y < h
        invariant
            img.wf(),
            w == img.width,
            h == img.height,
            y <= h,
            f == argb_fn(img@),
            filled(data@, w as int, y as int, 0, f),
        decreases h - y,
    {
        let mut x: u32 = 0;
        while x < w
            invariant
                img.wf(),
                w == img.width,
                h == img.height,
                y < h,
                x <= w,
                f == argb_fn(img@),
                filled(data@, w as int, y as int, x as int, f),
            decreases w - x,
        {
            let p = encode_pixel(pixel_at(img, x, y));
            let ghost before = data@;
            push_pixel(&mut data, p);
            proof {
                lemma_filled_push(before, data@, w as int, y as int, x as int, f);
            }
            x = x + 1;
        }
        proof {
            lemma_filled_next_row(data@, w as int, y as int, f);
        }
        y = y + 1;
    }
    proof {
        lemma_filled_done(data@, w as nat, h as nat, f);
    }
    data
}

/// Wire byte `c` of a solid color: the packed color `0xAARRGGBB` written
/// little-endian, unscaled.
pub open spec fn solid_fn(color: Color) -> spec_fn(int, int, int) -> u8 {
    |x: int, y: int, c: int|
        if c == 0 {
            color.b
        } else if c == 1 {
            color.g
        } else if c == 2 {
            color.r
        } else {
            color.a
        }
}

/// The wire bytes of a `w` x `h` buffer of one color.
pub fn solid_argb(color: Color, w: u32, h: u32) -> (out: Vec<u8>)
    ensures
        has_pixels(RasterView { width: w as nat, height: h as nat, data: out@ }, w as nat, h as nat, solid_fn(color)),
{
    let ghost f = solid_fn(color);
    let mut data: Vec<u8> = Vec::new();
    proof {
        lemma_filled_start(w as int, f);
    }
    let mut y: u32 = 0;
    while y < h
        invariant
            y <= h,
            f == solid_fn(color),
            filled(data@, w as int, y as int, 0, f),
        decreases h - y,
    {
        let mut x: u32 = 0;
        while x < w
            invariant
                y < h,
                x <= w,
                f == solid_fn(color),
                filled(data@, w as int, y as int, x as int, f),
            decreases w - x,
        {
            let ghost before = data@;
            push_pixel(&mut data, (color.b, color.g, color.r, color.a));
            proof {
                lemma_filled_push(before, data@, w as int, y as int, x as int, f);
            }
            x = x + 1;
        }
        proof {
            lemma_filled_next_row(data@, w as int, y as int, f);
        }
        y = y + 1;
    }
    proof {
        lemma_filled_done(data@, w as nat, h as nat, f);
    }
    data
}

} // verus!

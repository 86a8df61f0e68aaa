//! Colors and their packed `u32` form (`0xAARRGGBB`).

use vstd::prelude::*;
use crate::text::{parse_unsigned, parse_u32_radix};

verus! {

/// A color as four 8-bit channels.
#[derive(Clone, Copy, Debug, PartialEq, Eq, Structural)]
pub struct Color {
    pub r: u8,
    pub g: u8,
    pub b: u8,
    pub a: u8,
}

/// The color whose packed form is `x` (`0xAARRGGBB`).
pub open spec fn color_of(x: u32) -> Color {
    Color {
        r: ((x / 0x10000) % 0x100) as u8,
        g: ((x / 0x100) % 0x100) as u8,
        b: (x % 0x100) as u8,
        a: (x / 0x1000000) as u8,
    }
}

/// The packed form `0xAARRGGBB` of a color.
pub open spec fn packed(c: Color) -> int {
    c.a * 0x1000000 + c.r * 0x10000 + c.g * 0x100 + c.b
}

impl Color {
    pub fn from_u32(x: u32) -> (c: Color)
        ensures
            c == color_of(x),
    {
        let r = ((x >> 16) & 0xff) as u8;
        let g = ((x >> 8) & 0xff) as u8;
        let b = (x & 0xff) as u8;
        let a = (x >> 24) as u8;
        assert(((x >> 16) & 0xff) == (x / 0x10000) % 0x100) by (bit_vector);
        assert(((x >> 8) & 0xff) == (x / 0x100) % 0x100) by (bit_vector);
        assert((x & 0xff) == x % 0x100) by (bit_vector);
        assert((x >> 24) == x / 0x1000000) by (bit_vector);
        Color { r, g, b, a }
    }

    pub fn to_u32(&self) -> (x: u32)
        ensures
            x == packed(*self),
    {
        let (r, g, b, a) = (self.r as u32, self.g as u32, self.b as u32, self.a as u32);
        assert((a << 24) | (r << 16) | (g << 8) | b == a * 0x1000000 + r * 0x10000 + g * 0x100 + b)
            by (bit_vector)
            requires
                a < 256,
                r < 256,
                g < 256,
                b < 256,
        ;
        (a << 24) | (r << 16) | (g << 8) | b
    }
}

/// Unpacking a `u32` into a color and packing it again gives the same number.
pub proof fn lemma_color_round_trip(x: u32)
    ensures
        packed(color_of(x)) == x,
{
    let (a, r, g, b) = (x / 0x1000000, (x / 0x10000) % 0x100, (x / 0x100) % 0x100, x % 0x100);
    assert(a * 0x1000000 + r * 0x10000 + g * 0x100 + b == x) by (nonlinear_arith)
        requires
            a == x / 0x1000000,
            r == (x / 0x10000) % 0x100,
            g == (x / 0x100) % 0x100,
            b == x % 0x100,
    ;
}

/// The color a text names: a decimal integer, or failing that a
/// hexadecimal one (without `#` or `0x`), read as `0xAARRGGBB`.
pub open spec fn color_named(s: Seq<char>) -> Option<Color> {
    match parse_unsigned(s, 10) {
        Some(v) => Some(color_of(v)),
        None => match parse_unsigned(s, 16) {
            Some(v) => Some(color_of(v)),
            None => None,
        },
    }
}

/// Reads a color written as a decimal or hexadecimal integer.
pub fn parse_color(s: &str) -> (r: Option<Color>)
    ensures
        r == color_named(s@),
{
    match parse_u32_radix(s, 10) {
        Some(v) => Some(Color::from_u32(v)),
        None => match parse_u32_radix(s, 16) {
            Some(v) => Some(Color::from_u32(v)),
            None => None,
        },
    }
}

} // verus!

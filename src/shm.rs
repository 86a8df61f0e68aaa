//! Shared-memory buffers: the geometry the display protocol is told, in
//! its signed 32-bit units, and the bytes that back it.

use vstd::prelude::*;

verus! {

/// Geometry of an ARGB8888 buffer: four bytes per pixel, rows packed.
#[derive(Clone, Copy, Debug, PartialEq, Eq, Structural)]
pub struct ShmLayout {
    pub width: i32,
    pub height: i32,
    pub stride: i32,
    pub size: i32,
}

/// Whether a `w` x `h` buffer can be described to the protocol: a
/// non-empty area whose byte size fits its signed 32-bit size field.
pub open spec fn layout_ok(w: int, h: int) -> bool {
    1 <= w && 1 <= h && w * h * 4 <= i32::MAX
}

/// The layout of a `w` x `h` buffer: stride `4 w`, size `stride * h`.
pub open spec fn layout_for(l: ShmLayout, w: int, h: int) -> bool {
    &&& l.width == w
    &&& l.height == h
    &&& l.stride == w * 4
    &&& l.size == w * 4 * h
}

/// The layout of a `w` x `h` buffer, where the protocol can carry it.
pub fn shm_layout(w: u32, h: u32) -> (r: Option<ShmLayout>)
    ensures
        r is Some <==> layout_ok(w as int, h as int),
        r matches Some(l) ==> layout_for(l, w as int, h as int),
{
    if w == 0 || h == 0 {
        return None;
    }
    assert(w * h * 4 <= u32::MAX * u32::MAX * 4) by (nonlinear_arith);
    if (w as u128) * (h as u128) * 4 > i32::MAX as u128 {
        return None;
    }
    assert(w * 4 <= w * h * 4 && h <= w * h * 4 && w * 4 * h == w * h * 4) by (nonlinear_arith)
        requires
            h >= 1,
            w >= 1,
    ;
    let stride = (w * 4) as i32;
    let size = ((w as u64) * 4 * (h as u64)) as i32;
    Some(ShmLayout { width: w as i32, height: h as i32, stride, size })
}

/// A finished buffer: its geometry and exactly `layout.size` bytes.
pub struct ShmBuffer {
    pub layout: ShmLayout,
    pub bytes: Vec<u8>,
}

impl ShmBuffer {
    pub open spec fn wf(&self) -> bool {
        self.bytes@.len() == self.layout.size
    }
}

} // verus!

//! Per-output resolution tracking, fed by the output's mode notifications.

use vstd::prelude::*;

verus! {

/// The flag of a mode notification that marks the output's current mode:
/// the resolution a background must be drawn at.
pub const CURRENT_MODE: u32 = 0x1;

/// The pixel size of an output; `0 x 0` until its current mode is known.
#[derive(Clone, Copy, Debug, PartialEq, Eq, Structural)]
pub struct Resolution {
    pub w: u32,
    pub h: u32,
}

impl Resolution {
    pub fn new() -> (r: Self)
        ensures
            r.w == 0,
            r.h == 0,
    {
        Resolution { w: 0, h: 0 }
    }

    /// Records a mode notification. Only the current mode (flag bit
    /// `CURRENT_MODE`) changes the tracked size; other modes the output
    /// merely supports are ignored.
    pub fn mode(&mut self, flags: u32, width: i32, height: i32)
        ensures
            flags & CURRENT_MODE != 0 ==> final(self).w == width as u32 && final(self).h == height as u32,
            flags & CURRENT_MODE == 0 ==> *final(self) == *old(self),
    {
        if flags & CURRENT_MODE != 0 {
            self.w = width as u32;
            self.h = height as u32;
        }
    }

    /// Whether the size is known: a buffer needs a non-zero area.
    pub fn is_known(&self) -> (b: bool)
        ensures
            b == (self.w != 0 && self.h != 0),
    {
        self.w != 0 && self.h != 0
    }
}

} // verus!

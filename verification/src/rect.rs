//! Rectangles in the coordinate space of a display.

use vstd::prelude::*;

verus! {

/// The largest size of a rectangle, and the largest position of one.
pub const MAX_SIZE: u32 = 0x3fff_ffff;

/// The smallest position of a rectangle.
pub const MIN_POSITION: i32 = -0x4000_0000;

/// A position, moved into the range of positions where it lies outside.
pub open spec fn clamp_position(v: int) -> int {
    if v > MAX_SIZE {
        MAX_SIZE as int
    } else if v < MIN_POSITION {
        MIN_POSITION as int
    } else {
        v
    }
}

/// A size, moved into the range of sizes where it lies outside. No rectangle
/// is empty: the smallest size is 1.
pub open spec fn clamp_size(v: int) -> int {
    if v <= 0 {
        1
    } else if v > MAX_SIZE {
        MAX_SIZE as int
    } else {
        v
    }
}

/// An axis-aligned rectangle: the position of its top left corner, and its size.
#[derive(Debug, Clone, Copy, PartialEq, Eq, Structural)]
pub struct Rect {
    pub x: i32,
    pub y: i32,
    pub width: u32,
    pub height: u32,
}

/// The rectangle at an exact position with an exact size, as far as the
/// coordinate space can hold it.
pub open spec fn frame(x: int, y: int, width: int, height: int) -> Rect {
    Rect {
        x: clamp_position(x) as i32,
        y: clamp_position(y) as i32,
        width: clamp_size(width) as u32,
        height: clamp_size(height) as u32,
    }
}

impl Rect {
    /// Creates a rectangle. Its position and its size are moved into their
    /// ranges, so that its right and bottom sides are positions too.
    pub fn new(x: i32, y: i32, width: u32, height: u32) -> (r: Rect)
        ensures
            r == frame(x as int, y as int, width as int, height as int),
    {
        Rect {
            x: Self::position(x),
            y: Self::position(y),
            width: Self::size(width),
            height: Self::size(height),
        }
    }

    fn position(v: i32) -> (c: i32)
        ensures
            c == clamp_position(v as int),
    {
        if v > 0x3fff_ffff {
            0x3fff_ffff
        } else if v < MIN_POSITION {
            MIN_POSITION
        } else {
            v
        }
    }

    fn size(v: u32) -> (c: u32)
        ensures
            c == clamp_size(v as int),
    {
        if v == 0 {
            1
        } else if v > MAX_SIZE {
            MAX_SIZE
        } else {
            v
        }
    }
}

} // verus!

//! Rectangles with sides of whole length.

use vstd::prelude::*;

verus! {

/// A rectangle by the lengths of its sides.
#[derive(Clone, Copy, Debug, PartialEq, Eq, Structural)]
pub struct Rect {
    pub width: u32,
    pub height: u32,
}

impl Rect {
    /// The area, for a rectangle whose area is a `u32`.
    pub fn area(&self) -> (area: u32)
        requires
            self.width * self.height <= u32::MAX,
        ensures
            area == self.width * self.height,
    {
        self.width * self.height
    }

    /// The perimeter, for a rectangle whose perimeter is a `u32`.
    pub fn perimeter(&self) -> (perimeter: u32)
        requires
            2 * (self.width + self.height) <= u32::MAX,
        ensures
            perimeter == 2 * (self.width + self.height),
    {
        2 * (self.width + self.height)
    }
}

} // verus!

//! Rectangular regions in the template's pixel coordinate space.

use vstd::prelude::*;

verus! {

/// A rectangular region inside the template raster: top-left offset plus
/// extent, in whole pixels of the template at its native resolution.
#[derive(Clone, Copy, Debug, PartialEq, Eq, Structural)]
pub struct Geometry {
    pub x: u32,
    pub y: u32,
    pub width: u32,
    pub height: u32,
}

impl Geometry {
    /// A region is usable only when both extents are strictly positive.
    pub open spec fn is_valid(self) -> bool {
        self.width > 0 && self.height > 0
    }

    pub fn new(x: u32, y: u32, width: u32, height: u32) -> (r: Geometry)
        ensures
            r == (Geometry { x, y, width, height }),
    {
        Geometry { x, y, width, height }
    }

    /// Positivity check performed at the point of use.
    pub fn validate(&self) -> (r: bool)
        ensures
            r == self.is_valid(),
    {
        self.width > 0 && self.height > 0
    }
}

} // verus!

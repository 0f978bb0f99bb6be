//! Integer geometry primitives: coordinates, sizes and rectangles.
//!
//! All arithmetic on these types saturates rather than wrapping or
//! panicking: layout computations clamp at the representable range.

use vstd::prelude::*;

verus! {

/// A position in window coordinates: `(x, y)`.
#[derive(Clone, Copy, Debug, PartialEq, Eq, Structural)]
pub struct Coord(pub i32, pub i32);

/// An extent in pixels: `(width, height)`. Never negative.
#[derive(Clone, Copy, Debug, PartialEq, Eq, Structural)]
pub struct Size(pub u32, pub u32);

/// An axis-aligned rectangle: a position and an extent.
#[derive(Clone, Copy, Debug, PartialEq, Eq, Structural)]
pub struct Rect {
    pub pos: Coord,
    pub size: Size,
}

/// `a + d` clamped to the `i32` range.
pub open spec fn sat_add_offset(a: int, d: int) -> int {
    if a + d > i32::MAX as int {
        i32::MAX as int
    } else {
        a + d
    }
}

/// Add an unsigned offset to a coordinate component, saturating at `i32::MAX`.
pub fn coord_add_offset(a: i32, d: u32) -> (r: i32)
    ensures
        r as int == sat_add_offset(a as int, d as int),
{
    let wide: i64 = a as i64 + d as i64;
    if wide > i32::MAX as i64 {
        i32::MAX
    } else {
        wide as i32
    }
}

impl Rect {
    /// A rectangle in window-local coordinates: position components are
    /// nonnegative and the far corner stays within the `i32` coordinate
    /// space, so every point of the rectangle is addressable by a `Coord`.
    pub open spec fn wf(self) -> bool {
        &&& 0 <= self.pos.0
        &&& 0 <= self.pos.1
        &&& self.pos.0 + self.size.0 <= i32::MAX
        &&& self.pos.1 + self.size.1 <= i32::MAX
    }

    /// The zero rectangle, at the specification level.
    pub open spec fn zero_spec() -> Rect {
        Rect { pos: Coord(0, 0), size: Size(0, 0) }
    }

    /// The zero rectangle: position and size both zero.
    pub fn zero() -> (r: Rect)
        ensures
            r == Rect::zero_spec(),
            r.wf(),
    {
        Rect { pos: Coord(0, 0), size: Size(0, 0) }
    }

    /// Does `c` lie inside this rectangle?
    pub open spec fn spec_contains(self, c: Coord) -> bool {
        &&& self.pos.0 <= c.0
        &&& (c.0 as int) < sat_add_offset(self.pos.0 as int, self.size.0 as int)
        &&& self.pos.1 <= c.1
        &&& (c.1 as int) < sat_add_offset(self.pos.1 as int, self.size.1 as int)
    }

    /// Hit test: report whether `c` lies inside this rectangle.
    pub fn contains(&self, c: Coord) -> (r: bool)
        ensures
            r == self.spec_contains(c),
    {
        let x1: i64 = self.pos.0 as i64 + self.size.0 as i64;
        let y1: i64 = self.pos.1 as i64 + self.size.1 as i64;
        let x1: i64 = if x1 > i32::MAX as i64 { i32::MAX as i64 } else { x1 };
        let y1: i64 = if y1 > i32::MAX as i64 { i32::MAX as i64 } else { y1 };
        self.pos.0 <= c.0 && (c.0 as i64) < x1 && self.pos.1 <= c.1 && (c.1 as i64) < y1
    }
}

} // verus!

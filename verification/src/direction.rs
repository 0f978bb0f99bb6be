//! Axis selection for directional widgets.
//!
//! A widget such as a scroll bar is generic over its direction; the two
//! zero-sized types [`Horizontal`] and [`Vertical`] select an axis at the
//! type level.

use vstd::prelude::*;

verus! {

/// Axis selection: implemented by [`Horizontal`] and [`Vertical`].
pub trait Direction: Sized {
    /// Which axis this type selects, at the specification level.
    spec fn is_vertical_spec() -> bool;

    /// Report whether this direction is the vertical axis.
    fn is_vertical(&self) -> (b: bool)
        ensures
            b == Self::is_vertical_spec(),
    ;
}

/// The horizontal axis (increasing x).
#[derive(Clone, Copy, Debug, PartialEq, Eq, Structural)]
pub struct Horizontal;

/// The vertical axis (increasing y).
#[derive(Clone, Copy, Debug, PartialEq, Eq, Structural)]
pub struct Vertical;

impl Direction for Horizontal {
    open spec fn is_vertical_spec() -> bool {
        false
    }

    fn is_vertical(&self) -> (b: bool) {
        false
    }
}

impl Direction for Vertical {
    open spec fn is_vertical_spec() -> bool {
        true
    }

    fn is_vertical(&self) -> (b: bool) {
        true
    }
}

impl Default for Horizontal {
    /// The default horizontal direction value.
    fn default() -> (r: Self)
        ensures
            r == Horizontal,
    {
        Horizontal
    }
}

impl Default for Vertical {
    /// The default vertical direction value.
    fn default() -> (r: Self)
        ensures
            r == Vertical,
    {
        Vertical
    }
}

} // verus!

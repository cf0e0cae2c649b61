//! Points of the plane in which a solution curve is traced.

use vstd::prelude::*;
use crate::fixed::Fixed;

verus! {

/// A point `(x, y)` as the contracts speak of it: its two coordinates as
/// counts of units.
pub struct Sample {
    pub x: int,
    pub y: int,
}

/// A point `(x, y)` of a solution curve.
#[derive(Clone, Copy, Debug, PartialEq, Eq, Structural)]
pub struct Point {
    pub x: Fixed,
    pub y: Fixed,
}

impl View for Point {
    type V = Sample;

    open spec fn view(&self) -> Sample {
        Sample { x: self.x@, y: self.y@ }
    }
}

impl DeepView for Point {
    type V = Sample;

    open spec fn deep_view(&self) -> Sample {
        self@
    }
}

} // verus!

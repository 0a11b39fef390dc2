//! A closed scalar range along a ray, used to reject intersections
//! behind the origin or beyond an already-found closer hit.

use vstd::prelude::*;
use crate::fixed::Fixed;

verus! {

/// A closed interval `[min, max]` of fixed-point values.
#[derive(Clone, Copy, Debug, PartialEq, Eq, Structural)]
pub struct Interval {
    pub min: Fixed,
    pub max: Fixed,
}

/// Closed containment on mantissas.
pub open spec fn contains_m(i: Interval, x: int) -> bool {
    i.min.m <= x <= i.max.m
}

/// Open containment on mantissas.
pub open spec fn surrounds_m(i: Interval, x: int) -> bool {
    i.min.m < x < i.max.m
}

impl Interval {
    /// The interval `[min, max]`.
    pub fn new(min: Fixed, max: Fixed) -> (r: Interval)
        ensures
            r.min == min,
            r.max == max,
    {
        Interval { min, max }
    }

    /// Closed containment: `min <= x <= max`, both boundaries
    /// included.
    pub fn contains(&self, x: Fixed) -> (r: bool)
        ensures
            r == contains_m(*self, x.m as int),
    {
        self.min.m <= x.m && x.m <= self.max.m
    }

    /// Open containment: `min < x < max`, both boundaries excluded.
    pub fn surrounds(&self, x: Fixed) -> (r: bool)
        ensures
            r == surrounds_m(*self, x.m as int),
    {
        self.min.m < x.m && x.m < self.max.m
    }

    /// The value forced into the interval.
    pub fn clamp(&self, x: Fixed) -> (r: Fixed)
        requires
            self.min.m <= self.max.m,
        ensures
            r.m == crate::fixed::clamp_m(x.m as int, self.min.m as int, self.max.m as int),
    {
        x.clamp(self.min, self.max)
    }
}

} // verus!

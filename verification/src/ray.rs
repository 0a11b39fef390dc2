//! A ray: an origin and a direction, with evaluation of the point at a
//! parametric distance along it.

use vstd::prelude::*;
use crate::fixed::{tdiv, Fixed, SCALE};
use crate::vec3::{vec_in, Vec3, COORD_LIMIT};

verus! {

/// Bound on the parametric distances a ray is evaluated at: 2^64.
pub const T_LIMIT: i128 = 18446744073709551616;

/// An origin and a direction; immutable once constructed.
#[derive(Clone, Copy, Debug, PartialEq, Eq, Structural)]
pub struct Ray {
    pub orig: Vec3,
    pub dir: Vec3,
}

/// The point mantissas of `ray.at(t)`: origin plus the truncated
/// scalar multiple of the direction.
pub open spec fn at_m(ray: Ray, t: int) -> (int, int, int) {
    (
        ray.orig.x.m + tdiv(t * ray.dir.x.m, SCALE as int),
        ray.orig.y.m + tdiv(t * ray.dir.y.m, SCALE as int),
        ray.orig.z.m + tdiv(t * ray.dir.z.m, SCALE as int),
    )
}

/// Origin and direction both within the scene coordinate range.
pub open spec fn ray_wf(ray: Ray) -> bool {
    vec_in(ray.orig, COORD_LIMIT as int) && vec_in(ray.dir, COORD_LIMIT as int)
}

impl Ray {
    /// A ray from its origin and direction.
    pub fn new(orig: Vec3, dir: Vec3) -> (r: Ray)
        ensures
            r.orig == orig,
            r.dir == dir,
    {
        Ray { orig, dir }
    }

    /// The origin.
    pub fn orig(&self) -> (r: Vec3)
        ensures
            r == self.orig,
    {
        self.orig
    }

    /// The direction.
    pub fn dir(&self) -> (r: Vec3)
        ensures
            r == self.dir,
    {
        self.dir
    }

    /// The point at parameter `t`: `origin + t * direction`.
    pub fn at(&self, t: Fixed) -> (r: Vec3)
        requires
            ray_wf(*self),
            -T_LIMIT <= t.m <= T_LIMIT,
        ensures
            (r.x.m as int, r.y.m as int, r.z.m as int) == at_m(*self, t.m as int),
    {
        proof {
            crate::fixed::lemma_scaled_prod(t.m as int, self.dir.x.m as int, 4294967296, 8192);
            crate::fixed::lemma_scaled_prod(t.m as int, self.dir.y.m as int, 4294967296, 8192);
            crate::fixed::lemma_scaled_prod(t.m as int, self.dir.z.m as int, 4294967296, 8192);
        }
        self.orig.add(self.dir.scale(t))
    }
}

} // verus!

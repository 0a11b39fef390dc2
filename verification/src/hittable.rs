//! The record a surface produces for an intersection: where the ray
//! hit, at what parameter, and on which side of the surface.

use vstd::prelude::*;
use crate::fixed::Fixed;
use crate::material::{material_wf, Material};
use crate::ray::Ray;
use crate::vec3::{dot_m, vec_in, Vec3, COORD_LIMIT, DOT_LIMIT};

verus! {

/// One intersection: parameter `t`, point `p`, the normal opposing
/// the incident ray, whether the outside was hit, and the surface's
/// material.
#[derive(Clone, Copy, Debug, PartialEq, Eq, Structural)]
pub struct HitRecord {
    pub t: Fixed,
    pub p: Vec3,
    pub front_face: bool,
    pub normal: Vec3,
    pub mat: Material,
}

/// Well-formedness of a record handed to shading: the point within
/// the coordinate range, the normal near unit length, the material
/// well formed.
pub open spec fn hit_record_wf(rec: HitRecord) -> bool {
    &&& vec_in(rec.p, COORD_LIMIT as int)
    &&& vec_in(rec.normal, 2 * crate::fixed::SCALE as int)
    &&& material_wf(rec.mat)
}

impl HitRecord {
    /// Builds the record for a hit at parameter `t` and point `p`.
    ///
    /// The stored normal always opposes the incident ray:
    /// `front_face` is true exactly when the incident direction has
    /// negative dot product with the outward geometric normal, and the
    /// stored normal is then the outward normal itself, otherwise its
    /// negation.
    pub fn new(
        time_of_intersection: Fixed,
        intersection_point: Vec3,
        incident_ray: &Ray,
        outward_normal: Vec3,
        mat: Material,
    ) -> (r: HitRecord)
        requires
            vec_in(incident_ray.dir, DOT_LIMIT as int),
            vec_in(outward_normal, DOT_LIMIT as int),
        ensures
            r.t == time_of_intersection,
            r.p == intersection_point,
            r.mat == mat,
            r.front_face == (dot_m(incident_ray.dir, outward_normal) < 0),
            r.front_face ==> r.normal == outward_normal,
            !r.front_face ==> r.normal.x.m == -outward_normal.x.m && r.normal.y.m
                == -outward_normal.y.m && r.normal.z.m == -outward_normal.z.m,
    {
        let front_face = incident_ray.dir().dot(outward_normal).m < 0;
        let normal = if front_face {
            outward_normal
        } else {
            outward_normal.neg()
        };
        HitRecord { t: time_of_intersection, p: intersection_point, front_face, normal, mat }
    }
}

} // verus!

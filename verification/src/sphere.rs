//! Ray/sphere intersection by the half-b quadratic, with every
//! intermediate step of the computation pinned by the specification
//! mirror `sphere_hit_m`.

use vstd::prelude::*;
use crate::fixed::{isqrt_s, mul_m, tdiv, Fixed, SCALE};
use crate::hittable::{hit_record_wf, HitRecord};
use crate::interval::{contains_m, Interval};
use crate::material::{material_wf, Material};
use crate::ray::{at_m, ray_wf, Ray, T_LIMIT};
use crate::vec3::{dot_m, norm2_m, vec_in, Vec3, COORD_LIMIT};

verus! {

/// A sphere: center, radius (kept nonnegative) and its material.
#[derive(Clone, Copy, Debug, PartialEq, Eq, Structural)]
pub struct Sphere {
    pub center: Vec3,
    pub radius: Fixed,
    pub mat: Material,
}

/// Well-formedness of a sphere: center and radius within the scene
/// coordinate range, radius nonnegative, material well formed.
pub open spec fn sphere_wf(s: Sphere) -> bool {
    &&& vec_in(s.center, COORD_LIMIT as int)
    &&& 0 <= s.radius.m <= COORD_LIMIT
    &&& material_wf(s.mat)
}

/// The vector from the ray origin to the sphere center.
pub open spec fn sphere_oc(s: Sphere, ray: Ray) -> Vec3 {
    Vec3 {
        x: Fixed { m: (s.center.x.m - ray.orig.x.m) as i128 },
        y: Fixed { m: (s.center.y.m - ray.orig.y.m) as i128 },
        z: Fixed { m: (s.center.z.m - ray.orig.z.m) as i128 },
    }
}

/// The discriminant mantissa of the half-b quadratic
/// `t^2 (d.d) - 2 t (d.oc) + (oc.oc - r^2) = 0`.
pub open spec fn sphere_disc_m(s: Sphere, ray: Ray) -> int {
    let oc = sphere_oc(s, ray);
    let a = dot_m(ray.dir, ray.dir);
    let h = dot_m(ray.dir, oc);
    let c = norm2_m(oc) - mul_m(s.radius.m as int, s.radius.m as int);
    mul_m(h, h) - mul_m(a, c)
}

/// The outcome of intersecting `ray` with the sphere over the closed
/// parameter interval `[tmin, tmax]`: the nearer root within the
/// interval is preferred, the farther one is the fallback, and a hit
/// whose derived point or normal leaves the representable range is
/// discarded.
pub open spec fn sphere_hit_m(s: Sphere, ray: Ray, tmin: int, tmax: int) -> Option<HitRecord> {
    let oc = sphere_oc(s, ray);
    let a = dot_m(ray.dir, ray.dir);
    let h = dot_m(ray.dir, oc);
    let disc = sphere_disc_m(s, ray);
    if s.radius.m <= 0 {
        None
    } else if disc < 0 || a <= 0 {
        None
    } else {
        let sq = isqrt_s(disc * SCALE);
        let r1 = tdiv((h - sq) * SCALE, a);
        let root = if tmin <= r1 <= tmax {
            r1
        } else {
            tdiv((h + sq) * SCALE, a)
        };
        if !(tmin <= root <= tmax) {
            None
        } else if !(-T_LIMIT <= root <= T_LIMIT) {
            None
        } else {
            let p = at_m(ray, root);
            if !(-COORD_LIMIT <= p.0 <= COORD_LIMIT && -COORD_LIMIT <= p.1 <= COORD_LIMIT
                && -COORD_LIMIT <= p.2 <= COORD_LIMIT) {
                None
            } else {
                let ow = (
                    tdiv((p.0 - s.center.x.m) * SCALE, s.radius.m as int),
                    tdiv((p.1 - s.center.y.m) * SCALE, s.radius.m as int),
                    tdiv((p.2 - s.center.z.m) * SCALE, s.radius.m as int),
                );
                if !(-2 * SCALE <= ow.0 <= 2 * SCALE && -2 * SCALE <= ow.1 <= 2 * SCALE && -2
                    * SCALE <= ow.2 <= 2 * SCALE) {
                    None
                } else {
                    let pv = Vec3 {
                        x: Fixed { m: p.0 as i128 },
                        y: Fixed { m: p.1 as i128 },
                        z: Fixed { m: p.2 as i128 },
                    };
                    let owv = Vec3 {
                        x: Fixed { m: ow.0 as i128 },
                        y: Fixed { m: ow.1 as i128 },
                        z: Fixed { m: ow.2 as i128 },
                    };
                    let ff = dot_m(ray.dir, owv) < 0;
                    let normal = if ff {
                        owv
                    } else {
                        Vec3 {
                            x: Fixed { m: (-ow.0) as i128 },
                            y: Fixed { m: (-ow.1) as i128 },
                            z: Fixed { m: (-ow.2) as i128 },
                        }
                    };
                    Some(
                        HitRecord {
                            t: Fixed { m: root as i128 },
                            p: pv,
                            front_face: ff,
                            normal,
                            mat: s.mat,
                        },
                    )
                }
            }
        }
    }
}

impl Sphere {
    /// A sphere from its center, radius and material; a negative
    /// radius is clamped to zero.
    pub fn new(center: Vec3, radius: Fixed, mat: Material) -> (r: Sphere)
        requires
            vec_in(center, COORD_LIMIT as int),
            -COORD_LIMIT <= radius.m <= COORD_LIMIT,
            material_wf(mat),
        ensures
            r.center == center,
            r.mat == mat,
            r.radius.m == if radius.m >= 0 {
                radius.m
            } else {
                0
            },
            sphere_wf(r),
    {
        Sphere { center, radius: radius.max(Fixed::zero()), mat }
    }

    /// The nearest intersection of `r` with this sphere whose
    /// parameter lies in the closed interval, if any.
    pub fn hit(&self, r: &Ray, ray_t: Interval) -> (res: Option<HitRecord>)
        requires
            sphere_wf(*self),
            ray_wf(*r),
        ensures
            res == sphere_hit_m(*self, *r, ray_t.min.m as int, ray_t.max.m as int),
            res is Some ==> hit_record_wf(res->0) && contains_m(ray_t, res->0.t.m as int),
    {
        if self.radius.m <= 0 {
            return None;
        }
        let oc = self.center.sub(r.orig());
        let a = r.dir().dot(r.dir());
        let h = r.dir().dot(oc);
        proof {
            crate::vec3::lemma_dot_m_scaled(r.dir, r.dir, 8192, 8192);
            crate::vec3::lemma_dot_m_scaled(r.dir, oc, 8192, 16384);
            crate::vec3::lemma_dot_m_scaled(oc, oc, 16384, 16384);
            crate::fixed::lemma_scaled_prod(self.radius.m as int, self.radius.m as int, 8192, 8192);
            crate::fixed::lemma_scaled_prod(h.m as int, h.m as int, 402653184, 402653184);
        }
        let c = oc.norm_squared().sub(self.radius.mul(self.radius));
        proof {
            crate::fixed::lemma_scaled_prod(a.m as int, c.m as int, 201326592, 872415232);
        }
        let disc = h.mul(h).sub(a.mul(c));
        if disc.m < 0 || a.m <= 0 {
            return None;
        }
        let sqrtd = disc.sqrt();
        proof {
            crate::fixed::lemma_isqrt_s(disc.m * SCALE);
            assert(sqrtd.m <= 1073741824 * SCALE) by (nonlinear_arith)
                requires
                    sqrtd.m >= 0,
                    sqrtd.m * sqrtd.m <= disc.m * SCALE,
                    disc.m <= 337769972052787200 * SCALE,
                    SCALE == 4294967296,
            ;
        }
        let mut root = h.sub(sqrtd).div(a);
        if !ray_t.contains(root) {
            root = h.add(sqrtd).div(a);
            if !ray_t.contains(root) {
                return None;
            }
        }
        if root.m < -T_LIMIT || root.m > T_LIMIT {
            return None;
        }
        let intersection_point = r.at(root);
        let p = intersection_point;
        if p.x.m < -COORD_LIMIT || p.x.m > COORD_LIMIT || p.y.m < -COORD_LIMIT || p.y.m
            > COORD_LIMIT || p.z.m < -COORD_LIMIT || p.z.m > COORD_LIMIT {
            return None;
        }
        let outward_normal = p.sub(self.center).div_by(self.radius);
        let ow = outward_normal;
        if ow.x.m < -2 * SCALE || ow.x.m > 2 * SCALE || ow.y.m < -2 * SCALE || ow.y.m > 2 * SCALE
            || ow.z.m < -2 * SCALE || ow.z.m > 2 * SCALE {
            return None;
        }
        Some(HitRecord::new(root, intersection_point, r, outward_normal, self.mat))
    }
}

} // verus!

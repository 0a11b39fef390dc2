//! The scattering behaviour of surfaces: a closed set of three
//! material kinds, dispatched by pattern matching.
//!
//! `scatter` either produces an attenuation and a scattered ray, or
//! nothing, in which case the incident ray is absorbed.

use vstd::prelude::*;
use crate::fixed::{clamp_m, isqrt_s, mul_m, tdiv, Fixed, SCALE};
use crate::hittable::HitRecord;
use crate::random::{random_double, Rng};
use crate::ray::Ray;
use crate::vec3::{
    dot_m, dot_num, is_sampled_unit, near_zero_m, random_unit_vector, reflect_m, refract_m,
    unit_m, vec_in, Vec3,
};

verus! {

/// Colour channels of an albedo lie in `[0, 1]`.
pub open spec fn albedo_wf(a: Vec3) -> bool {
    &&& 0 <= a.x.m <= SCALE
    &&& 0 <= a.y.m <= SCALE
    &&& 0 <= a.z.m <= SCALE
}

/// A diffuse surface: scatters into the hemisphere around the normal,
/// attenuated by its albedo.
#[derive(Clone, Copy, Debug, PartialEq, Eq, Structural)]
pub struct Lambertian {
    pub albedo: Vec3,
}

/// A reflective surface: mirrors the incident direction, perturbed by
/// `fuzz` times a random unit vector.
#[derive(Clone, Copy, Debug, PartialEq, Eq, Structural)]
pub struct Metal {
    pub albedo: Vec3,
    pub fuzz: Fixed,
}

/// A transparent surface that refracts or reflects according to
/// Snell's law and Schlick's reflectance approximation.
#[derive(Clone, Copy, Debug, PartialEq, Eq, Structural)]
pub struct Dielectric {
    /// Ratio of the material's refraction index over the enclosing
    /// medium's (air).
    pub refraction_index: Fixed,
}

/// The closed set of materials.
#[derive(Clone, Copy, Debug, PartialEq, Eq, Structural)]
pub enum Material {
    Lambertian(Lambertian),
    Metal(Metal),
    Dielectric(Dielectric),
}

/// The outcome of a scattering event: the new ray and the fraction of
/// colour retained.
#[derive(Clone, Copy, Debug, PartialEq, Eq, Structural)]
pub struct Scattering {
    pub scattered: Ray,
    pub attenuation: Vec3,
}

/// Well-formedness of a material: colour channels in `[0, 1]`, fuzz in
/// `[0, 1]`, and a refraction index within machine limits.
pub open spec fn material_wf(m: Material) -> bool {
    match m {
        Material::Lambertian(l) => albedo_wf(l.albedo),
        Material::Metal(mt) => albedo_wf(mt.albedo) && 0 <= mt.fuzz.m <= SCALE,
        Material::Dielectric(d) => 268435456 <= d.refraction_index.m <= 68719476736,
    }
}

/// The direction a Lambertian surface scatters into, for the drawn
/// unit vector `u`: `normal + u`, falling back to the normal itself
/// when the sum is numerically degenerate.
pub open spec fn lambertian_dir(n: Vec3, u: Vec3) -> Vec3 {
    let d = Vec3 {
        x: Fixed { m: (n.x.m + u.x.m) as i128 },
        y: Fixed { m: (n.y.m + u.y.m) as i128 },
        z: Fixed { m: (n.z.m + u.z.m) as i128 },
    };
    if near_zero_m(d) {
        n
    } else {
        d
    }
}

/// The direction a metal surface scatters into, for the drawn unit
/// vector `u`: the normalized mirror reflection, perturbed by
/// `fuzz * u`.
pub open spec fn metal_dir(v: Vec3, n: Vec3, fuzz: int, u: Vec3) -> Vec3 {
    let refl = reflect_m(v, n);
    let reflv = Vec3 {
        x: Fixed { m: refl.0 as i128 },
        y: Fixed { m: refl.1 as i128 },
        z: Fixed { m: refl.2 as i128 },
    };
    let un = unit_m(reflv);
    Vec3 {
        x: Fixed { m: (un.0 + tdiv(fuzz * u.x.m, SCALE as int)) as i128 },
        y: Fixed { m: (un.1 + tdiv(fuzz * u.y.m, SCALE as int)) as i128 },
        z: Fixed { m: (un.2 + tdiv(fuzz * u.z.m, SCALE as int)) as i128 },
    }
}

/// What a metal scatter must return once the random perturbation `u`
/// is fixed: the perturbed reflection when it points away from the
/// surface, absorption when it crosses to the inside.
pub open spec fn metal_outcome(
    m: Metal,
    r_in: Ray,
    rec: HitRecord,
    u: Vec3,
    res: Option<Scattering>,
) -> bool {
    let d = metal_dir(r_in.dir, rec.normal, m.fuzz.m as int, u);
    if dot_m(d, rec.normal) > 0 {
        res == Some(Scattering { scattered: Ray { orig: rec.p, dir: d }, attenuation: m.albedo })
    } else {
        res is None
    }
}

/// Schlick's reflectance approximation:
/// `r0 + (1 - r0) (1 - cos)^5` with `r0 = ((1 - ri) / (1 + ri))^2`.
pub open spec fn schlick_m(cos: int, ri: int) -> int {
    let r0 = tdiv((SCALE - ri) * SCALE, SCALE + ri);
    let r0sq = mul_m(r0, r0);
    r0sq + mul_m(SCALE - r0sq, pow5_m(SCALE - cos))
}

/// The fifth power in the representation.
pub open spec fn pow5_m(x: int) -> int {
    mul_m(mul_m(mul_m(x, x), mul_m(x, x)), x)
}

/// The refraction ratio a dielectric uses: the reciprocal of its
/// index when the ray enters from outside, the index itself when it
/// exits from inside.
pub open spec fn dielectric_ratio(d: Dielectric, front_face: bool) -> int {
    if front_face {
        tdiv(SCALE as int * SCALE as int, d.refraction_index.m as int)
    } else {
        d.refraction_index.m as int
    }
}

/// What a dielectric scatter must return once the uniform draw `q` is
/// fixed: the mirror reflection when refraction is impossible (total
/// internal reflection) or when the Schlick reflectance exceeds `q`,
/// and the Snell refraction otherwise — always of the normalized
/// incident direction.  A unit refraction ratio means no optical
/// boundary at all, so the reflectance branch is disabled and the ray
/// always refracts.
pub open spec fn dielectric_outcome(
    d: Dielectric,
    r_in: Ray,
    rec: HitRecord,
    q: int,
    dir: Vec3,
) -> bool {
    let s = SCALE as int;
    let ri = dielectric_ratio(d, rec.front_face);
    let ut = unit_m(r_in.dir);
    let uv = Vec3 {
        x: Fixed { m: ut.0 as i128 },
        y: Fixed { m: ut.1 as i128 },
        z: Fixed { m: ut.2 as i128 },
    };
    let cos = if -dot_m(uv, rec.normal) <= s {
        -dot_m(uv, rec.normal)
    } else {
        s
    };
    let sin2 = if s - mul_m(cos, cos) >= 0 {
        s - mul_m(cos, cos)
    } else {
        0
    };
    let sin = isqrt_s(sin2 * s);
    let cannot_refract = mul_m(ri, sin) > s;
    if cannot_refract || (ri != s && schlick_m(cos, ri) > q) {
        (dir.x.m as int, dir.y.m as int, dir.z.m as int) == reflect_m(uv, rec.normal)
    } else {
        (dir.x.m as int, dir.y.m as int, dir.z.m as int) == refract_m(uv, rec.normal, ri)
    }
}

/// Every scattering result a material may return, whichever values
/// the hidden random draws took: the admissibility predicate the
/// integrator's contract is stated over.
pub open spec fn scatter_outcome(
    m: Material,
    r_in: Ray,
    rec: HitRecord,
    res: Option<Scattering>,
) -> bool {
    match m {
        Material::Lambertian(l) => res is Some && res->0.attenuation == l.albedo
            && res->0.scattered.orig == rec.p && (exists|u: Vec3|
            #[trigger] is_sampled_unit(u) && res->0.scattered.dir == lambertian_dir(
                rec.normal,
                u,
            )),
        Material::Metal(mt) => exists|u: Vec3|
            #[trigger] is_sampled_unit(u) && metal_outcome(mt, r_in, rec, u, res),
        Material::Dielectric(d) => res is Some && res->0.attenuation.x.m == SCALE
            && res->0.attenuation.y.m == SCALE && res->0.attenuation.z.m == SCALE
            && res->0.scattered.orig == rec.p && (exists|q: int|
            0 <= q < SCALE && #[trigger] dielectric_outcome(d, r_in, rec, q, res->0.scattered.dir)),
    }
}

impl Lambertian {
    /// A diffuse material with the given albedo.
    pub fn new(albedo: Vec3) -> (r: Lambertian)
        requires
            albedo_wf(albedo),
        ensures
            r.albedo == albedo,
            material_wf(Material::Lambertian(r)),
    {
        Lambertian { albedo }
    }
}

impl Metal {
    /// A reflective material; the fuzz factor is clamped into
    /// `[0, 1]`.
    pub fn new(albedo: Vec3, fuzz: Fixed) -> (r: Metal)
        requires
            albedo_wf(albedo),
        ensures
            r.albedo == albedo,
            r.fuzz.m == clamp_m(fuzz.m as int, 0, SCALE as int),
            material_wf(Material::Metal(r)),
    {
        Metal { albedo, fuzz: fuzz.clamp(Fixed::zero(), Fixed::one()) }
    }
}

impl Dielectric {
    /// A transparent material with the given refraction index, which
    /// must lie within `[1/16, 16]` so every derived ratio stays
    /// representable.
    pub fn new(refraction_index: Fixed) -> (r: Dielectric)
        requires
            268435456 <= refraction_index.m <= 68719476736,
        ensures
            r.refraction_index == refraction_index,
            material_wf(Material::Dielectric(r)),
    {
        Dielectric { refraction_index }
    }
}

impl Lambertian {
    /// Diffuse scattering: direction `normal + u` for a random unit
    /// vector `u`, falling back to the normal itself when the sum is
    /// numerically degenerate.  Never absorbs the ray.
    pub fn scatter(&self, _r_in: &Ray, rec: &HitRecord, rng: &mut Rng) -> (res: Option<Scattering>)
        requires
            crate::hittable::hit_record_wf(*rec),
            albedo_wf(self.albedo),
        ensures
            res is Some,
            res->0.attenuation == self.albedo,
            res->0.scattered.orig == rec.p,
            vec_in(res->0.scattered.dir, crate::vec3::COORD_LIMIT as int),
            exists|u: Vec3|
                #[trigger] is_sampled_unit(u) && res->0.scattered.dir == lambertian_dir(
                    rec.normal,
                    u,
                ),
    {
        let u = random_unit_vector(rng);
        let sum = rec.normal.add(u);
        let scatter_direction = if crate::vec3::near_zero(sum) {
            rec.normal
        } else {
            sum
        };
        proof {
            assert(scatter_direction == lambertian_dir(rec.normal, u));
        }
        Some(
            Scattering {
                scattered: Ray::new(rec.p, scatter_direction),
                attenuation: self.albedo,
            },
        )
    }
}

impl Metal {
    /// Specular scattering: the normalized mirror reflection of the
    /// incident direction, perturbed by `fuzz` times a random unit
    /// vector.  Succeeds exactly when the perturbed direction still
    /// points away from the surface; otherwise the ray is absorbed.
    pub fn scatter(&self, r_in: &Ray, rec: &HitRecord, rng: &mut Rng) -> (res: Option<Scattering>)
        requires
            crate::ray::ray_wf(*r_in),
            crate::hittable::hit_record_wf(*rec),
            albedo_wf(self.albedo),
            0 <= self.fuzz.m <= SCALE,
        ensures
            exists|u: Vec3| #[trigger] is_sampled_unit(u) && metal_outcome(*self, *r_in, *rec, u, res),
            res is Some ==> res->0.attenuation == self.albedo && res->0.scattered.orig == rec.p
                && vec_in(res->0.scattered.dir, crate::vec3::COORD_LIMIT as int) && dot_m(
                res->0.scattered.dir,
                rec.normal,
            ) > 0,
    {
        let reflected = crate::vec3::reflect(r_in.dir(), rec.normal);
        let unit_reflected = reflected.normalize();
        let u = random_unit_vector(rng);
        proof {
            crate::fixed::lemma_scaled_prod(self.fuzz.m as int, u.x.m as int, 1, 2);
            crate::fixed::lemma_scaled_prod(self.fuzz.m as int, u.y.m as int, 1, 2);
            crate::fixed::lemma_scaled_prod(self.fuzz.m as int, u.z.m as int, 1, 2);
        }
        let fuzzed = u.scale(self.fuzz);
        let dir = unit_reflected.add(fuzzed);
        let scattered = Ray::new(rec.p, dir);
        proof {
            assert(dir == metal_dir(r_in.dir, rec.normal, self.fuzz.m as int, u));
        }
        if scattered.dir().dot(rec.normal).m > 0 {
            Some(Scattering { scattered, attenuation: self.albedo })
        } else {
            None
        }
    }
}

impl Dielectric {
    /// Schlick's reflectance approximation for the given incidence
    /// cosine and refraction ratio.
    fn reflectance(cosine: Fixed, refraction_index: Fixed) -> (r: Fixed)
        requires
            -(12 * SCALE) <= cosine.m <= SCALE,
            268435456 <= refraction_index.m <= 68719476736,
        ensures
            r.m == schlick_m(cosine.m as int, refraction_index.m as int),
    {
        let one = Fixed::one();
        let denom = one.add(refraction_index);
        proof {
            assert(-((15 * SCALE) * denom.m) <= (SCALE - refraction_index.m) * SCALE <= (15
                * SCALE) * denom.m) by (nonlinear_arith)
                requires
                    denom.m == SCALE + refraction_index.m,
                    268435456 <= refraction_index.m <= 68719476736,
                    SCALE == 4294967296,
            ;
            crate::fixed::lemma_tdiv_bound(
                (SCALE - refraction_index.m) * SCALE,
                denom.m as int,
                15 * SCALE,
            );
        }
        let r0 = one.sub(refraction_index).div(denom);
        proof {
            crate::fixed::lemma_scaled_prod(r0.m as int, r0.m as int, 15, 15);
        }
        let r0sq = r0.mul(r0);
        let x = one.sub(cosine);
        proof {
            crate::fixed::lemma_scaled_prod(x.m as int, x.m as int, 13, 13);
        }
        let x2 = x.mul(x);
        proof {
            crate::fixed::lemma_scaled_prod(x2.m as int, x2.m as int, 169, 169);
        }
        let x4 = x2.mul(x2);
        proof {
            crate::fixed::lemma_scaled_prod(x4.m as int, x.m as int, 28561, 13);
        }
        let x5 = x4.mul(x);
        let rest = one.sub(r0sq);
        proof {
            crate::fixed::lemma_scaled_prod(rest.m as int, x5.m as int, 226, 371293);
        }
        r0sq.add(rest.mul(x5))
    }

    /// Transparent scattering: always succeeds with white attenuation;
    /// the direction is the mirror reflection when refraction is
    /// impossible or the Schlick draw chooses it, and the Snell
    /// refraction otherwise.  A refraction index of exactly one means
    /// no boundary, so the ray always refracts.
    pub fn scatter(&self, r_in: &Ray, rec: &HitRecord, rng: &mut Rng) -> (res: Option<Scattering>)
        requires
            crate::ray::ray_wf(*r_in),
            crate::hittable::hit_record_wf(*rec),
            268435456 <= self.refraction_index.m <= 68719476736,
        ensures
            res is Some,
            res->0.attenuation.x.m == SCALE && res->0.attenuation.y.m == SCALE
                && res->0.attenuation.z.m == SCALE,
            res->0.scattered.orig == rec.p,
            vec_in(res->0.scattered.dir, crate::vec3::COORD_LIMIT as int),
            exists|q: int|
                0 <= q < SCALE && #[trigger] dielectric_outcome(
                    *self,
                    *r_in,
                    *rec,
                    q,
                    res->0.scattered.dir,
                ),
    {
        let one = Fixed::one();
        let attenuation = Vec3::new(one, one, one);
        proof {
            lemma_reciprocal_ratio_range(self.refraction_index.m as int);
        }
        let ri = if rec.front_face {
            one.mul(one).div(self.refraction_index)
        } else {
            self.refraction_index
        };
        let unit_direction = r_in.dir().normalize();
        proof {
            crate::vec3::lemma_dot_m_scaled(unit_direction, rec.normal, 2, 2);
        }
        let cos_theta = unit_direction.dot(rec.normal).neg().min(one);
        proof {
            crate::fixed::lemma_scaled_prod(cos_theta.m as int, cos_theta.m as int, 12, 12);
        }
        let cos2 = cos_theta.mul(cos_theta);
        let sin2 = one.sub(cos2).max(Fixed::zero());
        let sin_theta = sin2.sqrt();
        proof {
            crate::fixed::lemma_isqrt_s(sin2.m * SCALE);
            assert(sin_theta.m <= 13 * SCALE) by (nonlinear_arith)
                requires
                    sin_theta.m >= 0,
                    sin_theta.m * sin_theta.m <= sin2.m * SCALE,
                    0 <= sin2.m <= 145 * SCALE,
                    SCALE == 4294967296,
            ;
            crate::fixed::lemma_scaled_prod(ri.m as int, sin_theta.m as int, 16, 13);
        }
        let cannot_refract = ri.mul(sin_theta).m > SCALE;
        let refl_prob = Dielectric::reflectance(cos_theta, ri);
        let q = random_double(rng);
        let direction = if cannot_refract || (ri.m != SCALE && refl_prob.m > q.m) {
            crate::vec3::reflect(unit_direction, rec.normal)
        } else {
            crate::vec3::refract(unit_direction, rec.normal, ri)
        };
        let sc = Scattering { scattered: Ray::new(rec.p, direction), attenuation };
        let res = Some(sc);
        proof {
            assert(res->0 == sc);
            assert(sc.scattered.dir == direction);
            assert(dielectric_outcome(*self, *r_in, *rec, q.m as int, res->0.scattered.dir));
            assert(exists|q2: int|
                0 <= q2 < SCALE && #[trigger] dielectric_outcome(
                    *self,
                    *r_in,
                    *rec,
                    q2,
                    res->0.scattered.dir,
                ));
        }
        res
    }
}

impl Material {
    /// Scattering dispatched over the closed set of material kinds.
    pub fn scatter(&self, r_in: &Ray, rec: &HitRecord, rng: &mut Rng) -> (res: Option<Scattering>)
        requires
            crate::ray::ray_wf(*r_in),
            crate::hittable::hit_record_wf(*rec),
            material_wf(*self),
        ensures
            res is Some ==> albedo_wf(res->0.attenuation) && res->0.scattered.orig == rec.p
                && vec_in(res->0.scattered.dir, crate::vec3::COORD_LIMIT as int),
            scatter_outcome(*self, *r_in, *rec, res),
            self is Lambertian ==> res is Some,
            self is Dielectric ==> res is Some,
    {
        match self {
            Material::Lambertian(l) => l.scatter(r_in, rec, rng),
            Material::Metal(mt) => mt.scatter(r_in, rec, rng),
            Material::Dielectric(d) => d.scatter(r_in, rec, rng),
        }
    }
}

/// The reciprocal of a refraction index within `[1/16, 16]` lies in
/// the same range.
proof fn lemma_reciprocal_ratio_range(e: int)
    requires
        268435456 <= e <= 68719476736,
    ensures
        268435456 <= tdiv(SCALE as int * SCALE as int, e) <= 68719476736,
{
    let s2 = SCALE as int * SCALE as int;
    crate::fixed::lemma_tdiv_is_euclidean(s2, e);
    vstd::arithmetic::div_mod::lemma_div_is_ordered_by_denominator(s2, 268435456, e);
    vstd::arithmetic::div_mod::lemma_div_is_ordered_by_denominator(s2, e, 68719476736);
    vstd::arithmetic::div_mod::lemma_div_by_multiple(68719476736, 268435456);
    vstd::arithmetic::div_mod::lemma_div_by_multiple(268435456, 68719476736);
    assert(68719476736 * 268435456 == s2);
    assert(268435456 * 68719476736 == s2);
}

} // verus!

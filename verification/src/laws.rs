//! The algebraic identities behind the renderer's shading formulas,
//! proved over the exact integer model, together with their
//! consequences for the truncating implementation on the inputs where
//! no rounding occurs.

use vstd::prelude::*;
use crate::fixed::{absi, isqrt_s, lemma_isqrt_exact, mul_m, tdiv, SCALE};
use crate::hittable::HitRecord;
use crate::material::{dielectric_outcome, dielectric_ratio, Dielectric};
use crate::ray::{at_m, ray_wf, Ray};
use crate::sphere::{sphere_disc_m, sphere_hit_m, sphere_wf, Sphere};
use crate::vec3::{
    dot_num, dot_m, norm2_m, reflect_m, refract_m, unit_m, v3_of, vec_in, Vec3, COORD_LIMIT,
};

verus! {

/// The exact dot product of mantissa triples, with no truncation.
pub open spec fn dot3(a: (int, int, int), b: (int, int, int)) -> int {
    a.0 * b.0 + a.1 * b.1 + a.2 * b.2
}

/// The exact mirror image in the integer model, scaled by the squared
/// length of the axis so that no division is needed:
/// `(n.n) v - 2 (v.n) n`.
pub open spec fn reflect_num(v: (int, int, int), n: (int, int, int)) -> (int, int, int) {
    (
        dot3(n, n) * v.0 - 2 * dot3(v, n) * n.0,
        dot3(n, n) * v.1 - 2 * dot3(v, n) * n.1,
        dot3(n, n) * v.2 - 2 * dot3(v, n) * n.2,
    )
}

/// Reflection is an involution: in the exact model, reflecting twice
/// about any axis returns the vector, scaled by the axis's squared
/// length twice (the scale a division-free reflection carries).  For a
/// unit axis the scale is one.
pub proof fn lemma_reflect_involution(v: (int, int, int), n: (int, int, int))
    ensures
        reflect_num(reflect_num(v, n), n) == (
            dot3(n, n) * dot3(n, n) * v.0,
            dot3(n, n) * dot3(n, n) * v.1,
            dot3(n, n) * dot3(n, n) * v.2,
        ),
{
    let k = dot3(n, n);
    let d = dot3(v, n);
    let r1 = reflect_num(v, n);
    let d1 = dot3(r1, n);
    assert(r1.0 * n.0 == k * (v.0 * n.0) - 2 * d * (n.0 * n.0)) by (nonlinear_arith)
        requires
            r1.0 == k * v.0 - 2 * d * n.0,
    ;
    assert(r1.1 * n.1 == k * (v.1 * n.1) - 2 * d * (n.1 * n.1)) by (nonlinear_arith)
        requires
            r1.1 == k * v.1 - 2 * d * n.1,
    ;
    assert(r1.2 * n.2 == k * (v.2 * n.2) - 2 * d * (n.2 * n.2)) by (nonlinear_arith)
        requires
            r1.2 == k * v.2 - 2 * d * n.2,
    ;
    assert(d1 == -(k * d)) by (nonlinear_arith)
        requires
            d1 == r1.0 * n.0 + r1.1 * n.1 + r1.2 * n.2,
            r1.0 * n.0 == k * (v.0 * n.0) - 2 * d * (n.0 * n.0),
            r1.1 * n.1 == k * (v.1 * n.1) - 2 * d * (n.1 * n.1),
            r1.2 * n.2 == k * (v.2 * n.2) - 2 * d * (n.2 * n.2),
            d == v.0 * n.0 + v.1 * n.1 + v.2 * n.2,
            k == n.0 * n.0 + n.1 * n.1 + n.2 * n.2,
    ;
    assert(k * r1.0 - 2 * d1 * n.0 == k * k * v.0) by (nonlinear_arith)
        requires
            r1.0 == k * v.0 - 2 * d * n.0,
            d1 == -(k * d),
    ;
    assert(k * r1.1 - 2 * d1 * n.1 == k * k * v.1) by (nonlinear_arith)
        requires
            r1.1 == k * v.1 - 2 * d * n.1,
            d1 == -(k * d),
    ;
    assert(k * r1.2 - 2 * d1 * n.2 == k * k * v.2) by (nonlinear_arith)
        requires
            r1.2 == k * v.2 - 2 * d * n.2,
            d1 == -(k * d),
    ;
}

/// An exactly divisible truncating quotient recovers the factor.
pub proof fn lemma_tdiv_exact(q: int, d: int)
    requires
        d > 0,
    ensures
        tdiv(q * d, d) == q,
{
    if q > 0 {
        vstd::arithmetic::div_mod::lemma_div_by_multiple(q, d);
        assert(q * d > 0) by (nonlinear_arith)
            requires
                q > 0,
                d > 0,
        ;
    } else if q < 0 {
        vstd::arithmetic::div_mod::lemma_div_by_multiple(-q, d);
        assert(q * d < 0 && -(q * d) == (-q) * d) by (nonlinear_arith)
            requires
                q < 0,
                d > 0,
        ;
    } else {
        assert(q * d == 0) by (nonlinear_arith)
            requires
                q == 0,
        ;
    }
}

/// The mantissas of a vector whose exact squared norm is the unit
/// scale squared stay within one unit.
proof fn lemma_unit_components(n: Vec3)
    requires
        dot_num(n, n) == SCALE * SCALE,
    ensures
        -SCALE <= n.x.m <= SCALE,
        -SCALE <= n.y.m <= SCALE,
        -SCALE <= n.z.m <= SCALE,
{
    assert(-SCALE <= n.x.m <= SCALE && -SCALE <= n.y.m <= SCALE && -SCALE <= n.z.m <= SCALE)
        by (nonlinear_arith)
        requires
            n.x.m * n.x.m + n.y.m * n.y.m + n.z.m * n.z.m == SCALE * SCALE,
            SCALE == 4294967296,
    ;
}

/// When the axis is exactly unit length and the correction terms
/// divide evenly, the implementation's truncating reflection is its
/// own inverse: reflecting a direction twice about the same normal
/// gives the direction back, bit for bit.
pub proof fn lemma_reflect_involution_exec(v: Vec3, n: Vec3)
    requires
        vec_in(v, COORD_LIMIT as int),
        dot_num(n, n) == SCALE * SCALE,
        (2 * dot_num(v, n) * n.x.m) % (SCALE * SCALE) == 0,
        (2 * dot_num(v, n) * n.y.m) % (SCALE * SCALE) == 0,
        (2 * dot_num(v, n) * n.z.m) % (SCALE * SCALE) == 0,
    ensures
        reflect_m(v3_of(reflect_m(v, n)), n) == (v.x.m as int, v.y.m as int, v.z.m as int),
{
    let s2 = SCALE as int * SCALE as int;
    let d = dot_num(v, n);
    lemma_unit_components(n);
    lemma_exact_component(2 * d * n.x.m, s2);
    lemma_exact_component(2 * d * n.y.m, s2);
    lemma_exact_component(2 * d * n.z.m, s2);
    let qx = (2 * d * n.x.m) / s2;
    let qy = (2 * d * n.y.m) / s2;
    let qz = (2 * d * n.z.m) / s2;
    let r1 = reflect_m(v, n);
    assert(r1 == (v.x.m - qx, v.y.m - qy, v.z.m - qz));
    // The first reflection is exact, so its components fit the word
    // and survive the cast into a vector.
    lemma_reflect_exact_bounds(v, n, qx, qy, qz);
    let rv = v3_of(r1);
    assert(rv.x.m == v.x.m - qx && rv.y.m == v.y.m - qy && rv.z.m == v.z.m - qz);
    // The reflected direction's inner product with the normal is the
    // negation of the incident one.
    assert(qx * n.x.m * s2 == 2 * d * (n.x.m * n.x.m)) by (nonlinear_arith)
        requires
            qx * s2 == 2 * d * n.x.m,
    ;
    assert(qy * n.y.m * s2 == 2 * d * (n.y.m * n.y.m)) by (nonlinear_arith)
        requires
            qy * s2 == 2 * d * n.y.m,
    ;
    assert(qz * n.z.m * s2 == 2 * d * (n.z.m * n.z.m)) by (nonlinear_arith)
        requires
            qz * s2 == 2 * d * n.z.m,
    ;
    assert((qx * n.x.m + qy * n.y.m + qz * n.z.m) * s2 == 2 * d * s2) by (nonlinear_arith)
        requires
            qx * n.x.m * s2 == 2 * d * (n.x.m * n.x.m),
            qy * n.y.m * s2 == 2 * d * (n.y.m * n.y.m),
            qz * n.z.m * s2 == 2 * d * (n.z.m * n.z.m),
            n.x.m * n.x.m + n.y.m * n.y.m + n.z.m * n.z.m == s2,
    ;
    assert(qx * n.x.m + qy * n.y.m + qz * n.z.m == 2 * d) by (nonlinear_arith)
        requires
            (qx * n.x.m + qy * n.y.m + qz * n.z.m) * s2 == 2 * d * s2,
            s2 == SCALE * SCALE,
            SCALE == 4294967296,
    ;
    assert(dot_num(rv, n) == -d) by (nonlinear_arith)
        requires
            rv.x.m == v.x.m - qx,
            rv.y.m == v.y.m - qy,
            rv.z.m == v.z.m - qz,
            qx * n.x.m + qy * n.y.m + qz * n.z.m == 2 * d,
            d == v.x.m * n.x.m + v.y.m * n.y.m + v.z.m * n.z.m,
            dot_num(rv, n) == rv.x.m * n.x.m + rv.y.m * n.y.m + rv.z.m * n.z.m,
    ;
    assert(2 * dot_num(rv, n) * n.x.m == (-qx) * s2 && 2 * dot_num(rv, n) * n.y.m == (-qy) * s2
        && 2 * dot_num(rv, n) * n.z.m == (-qz) * s2) by (nonlinear_arith)
        requires
            dot_num(rv, n) == -d,
            qx * s2 == 2 * d * n.x.m,
            qy * s2 == 2 * d * n.y.m,
            qz * s2 == 2 * d * n.z.m,
    ;
    lemma_tdiv_exact(-qx, s2);
    lemma_tdiv_exact(-qy, s2);
    lemma_tdiv_exact(-qz, s2);
}

/// An exact multiple: the Euclidean quotient reconstructs the
/// dividend, and the truncating quotient agrees with it.
proof fn lemma_exact_component(x: int, d: int)
    requires
        d > 0,
        x % d == 0,
    ensures
        (x / d) * d == x,
        tdiv(x, d) == x / d,
{
    vstd::arithmetic::div_mod::lemma_fundamental_div_mod(x, d);
    lemma_tdiv_exact(x / d, d);
    assert(d * (x / d) == (x / d) * d) by (nonlinear_arith);
}

/// The exact correction terms of a unit-axis reflection are small
/// enough that the reflected components fit the machine word.
proof fn lemma_reflect_exact_bounds(v: Vec3, n: Vec3, qx: int, qy: int, qz: int)
    requires
        vec_in(v, COORD_LIMIT as int),
        dot_num(n, n) == SCALE * SCALE,
        qx * (SCALE as int * SCALE as int) == 2 * dot_num(v, n) * n.x.m,
        qy * (SCALE as int * SCALE as int) == 2 * dot_num(v, n) * n.y.m,
        qz * (SCALE as int * SCALE as int) == 2 * dot_num(v, n) * n.z.m,
    ensures
        absi(qx) <= 6 * COORD_LIMIT,
        absi(qy) <= 6 * COORD_LIMIT,
        absi(qz) <= 6 * COORD_LIMIT,
{
    lemma_unit_components(n);
    let d = dot_num(v, n);
    assert(absi(d) <= 3 * COORD_LIMIT * SCALE) by (nonlinear_arith)
        requires
            d == v.x.m * n.x.m + v.y.m * n.y.m + v.z.m * n.z.m,
            vec_in(v, COORD_LIMIT as int),
            -SCALE <= n.x.m <= SCALE,
            -SCALE <= n.y.m <= SCALE,
            -SCALE <= n.z.m <= SCALE,
            absi(d) == if d >= 0 {
                d
            } else {
                -d
            },
            COORD_LIMIT == 35184372088832,
            SCALE == 4294967296,
    ;
    assert(absi(qx) <= 6 * COORD_LIMIT && absi(qy) <= 6 * COORD_LIMIT && absi(qz) <= 6
        * COORD_LIMIT) by (nonlinear_arith)
        requires
            qx * (SCALE as int * SCALE as int) == 2 * d * n.x.m,
            qy * (SCALE as int * SCALE as int) == 2 * d * n.y.m,
            qz * (SCALE as int * SCALE as int) == 2 * d * n.z.m,
            absi(d) <= 3 * COORD_LIMIT * SCALE,
            -SCALE <= n.x.m <= SCALE,
            -SCALE <= n.y.m <= SCALE,
            -SCALE <= n.z.m <= SCALE,
            absi(d) == if d >= 0 {
                d
            } else {
                -d
            },
            absi(qx) == if qx >= 0 {
                qx
            } else {
                -qx
            },
            absi(qy) == if qy >= 0 {
                qy
            } else {
                -qy
            },
            absi(qz) == if qz >= 0 {
                qz
            } else {
                -qz
            },
            COORD_LIMIT == 35184372088832,
            SCALE == 4294967296,
    ;
}

/// A ray whose perpendicular distance from the sphere's center
/// exceeds the radius misses it: in the exact model, when
/// `a (oc.oc - r^2) > (d.oc)^2` (the squared perpendicular miss
/// condition, scaled by the direction's squared length `a`), the
/// quadratic's discriminant is negative.
pub proof fn lemma_miss_negative_discriminant(
    d: (int, int, int),
    oc: (int, int, int),
    rr2: int,
)
    requires
        dot3(d, d) * (dot3(oc, oc) - rr2) > dot3(d, oc) * dot3(d, oc),
    ensures
        dot3(d, oc) * dot3(d, oc) - dot3(d, d) * (dot3(oc, oc) - rr2) < 0,
{
}

/// A negative discriminant yields no hit from the intersection
/// routine, whatever the query interval.
pub proof fn lemma_negative_discriminant_no_hit(s: Sphere, ray: Ray, tmin: int, tmax: int)
    requires
        sphere_disc_m(s, ray) < 0,
    ensures
        sphere_hit_m(s, ray, tmin, tmax) is None,
{
}

/// A ray of exactly unit direction, aimed straight at a sphere's
/// center from distance `dist` outside it, hits at parameter
/// `dist - radius`, on the front face, with the normal opposing the
/// ray — provided the scaled squares involved divide evenly, so no
/// truncation loses information.
pub proof fn lemma_head_on_hit(s: Sphere, ray: Ray, dist: int, tmin: int, tmax: int)
    requires
        sphere_wf(s),
        ray_wf(ray),
        vec_in(ray.orig, 8796093022208),
        dot_num(ray.dir, ray.dir) == SCALE * SCALE,
        (s.center.x.m - ray.orig.x.m) * SCALE == dist * ray.dir.x.m,
        (s.center.y.m - ray.orig.y.m) * SCALE == dist * ray.dir.y.m,
        (s.center.z.m - ray.orig.z.m) * SCALE == dist * ray.dir.z.m,
        (dist * dist) % (SCALE as int) == 0,
        (s.radius.m * s.radius.m) % (SCALE as int) == 0,
        (s.radius.m * ray.dir.x.m) % (SCALE as int) == 0,
        (s.radius.m * ray.dir.y.m) % (SCALE as int) == 0,
        (s.radius.m * ray.dir.z.m) % (SCALE as int) == 0,
        0 < s.radius.m < dist <= 8796093022208,
        tmin <= dist - s.radius.m <= tmax,
        0 <= tmin,
    ensures
        sphere_hit_m(s, ray, tmin, tmax) is Some,
        sphere_hit_m(s, ray, tmin, tmax)->0.t.m == dist - s.radius.m,
        sphere_hit_m(s, ray, tmin, tmax)->0.front_face,
{
    let scl = SCALE as int;
    let rr = s.radius.m as int;
    lemma_unit_components(ray.dir);
    let oc = crate::sphere::sphere_oc(s, ray);
    assert(oc.x.m == s.center.x.m - ray.orig.x.m && oc.y.m == s.center.y.m - ray.orig.y.m
        && oc.z.m == s.center.z.m - ray.orig.z.m);
    // a = |d|^2 = 1.
    lemma_tdiv_exact(scl, scl);
    assert(dot_m(ray.dir, ray.dir) == scl);
    // h = d . oc = dist, exactly.
    assert(ray.dir.x.m * oc.x.m * scl == dist * (ray.dir.x.m * ray.dir.x.m))
        by (nonlinear_arith)
        requires
            oc.x.m * SCALE == dist * ray.dir.x.m,
            scl == SCALE as int,
    ;
    assert(ray.dir.y.m * oc.y.m * scl == dist * (ray.dir.y.m * ray.dir.y.m))
        by (nonlinear_arith)
        requires
            oc.y.m * SCALE == dist * ray.dir.y.m,
            scl == SCALE as int,
    ;
    assert(ray.dir.z.m * oc.z.m * scl == dist * (ray.dir.z.m * ray.dir.z.m))
        by (nonlinear_arith)
        requires
            oc.z.m * SCALE == dist * ray.dir.z.m,
            scl == SCALE as int,
    ;
    assert(dot_num(ray.dir, oc) * scl == dist * (SCALE * SCALE)) by (nonlinear_arith)
        requires
            ray.dir.x.m * oc.x.m * scl == dist * (ray.dir.x.m * ray.dir.x.m),
            ray.dir.y.m * oc.y.m * scl == dist * (ray.dir.y.m * ray.dir.y.m),
            ray.dir.z.m * oc.z.m * scl == dist * (ray.dir.z.m * ray.dir.z.m),
            ray.dir.x.m * ray.dir.x.m + ray.dir.y.m * ray.dir.y.m + ray.dir.z.m * ray.dir.z.m
                == SCALE * SCALE,
            dot_num(ray.dir, oc) == ray.dir.x.m * oc.x.m + ray.dir.y.m * oc.y.m + ray.dir.z.m
                * oc.z.m,
    ;
    assert(dot_num(ray.dir, oc) == dist * scl) by (nonlinear_arith)
        requires
            dot_num(ray.dir, oc) * scl == dist * (SCALE * SCALE),
            scl == SCALE as int,
            SCALE == 4294967296,
    ;
    lemma_tdiv_exact(dist, scl);
    assert(dot_m(ray.dir, oc) == dist);
    // |oc|^2 = dist^2, exactly.
    assert(oc.x.m * oc.x.m * (SCALE * SCALE) == (dist * dist) * (ray.dir.x.m * ray.dir.x.m))
        by (nonlinear_arith)
        requires
            oc.x.m * SCALE == dist * ray.dir.x.m,
    ;
    assert(oc.y.m * oc.y.m * (SCALE * SCALE) == (dist * dist) * (ray.dir.y.m * ray.dir.y.m))
        by (nonlinear_arith)
        requires
            oc.y.m * SCALE == dist * ray.dir.y.m,
    ;
    assert(oc.z.m * oc.z.m * (SCALE * SCALE) == (dist * dist) * (ray.dir.z.m * ray.dir.z.m))
        by (nonlinear_arith)
        requires
            oc.z.m * SCALE == dist * ray.dir.z.m,
    ;
    assert(dot_num(oc, oc) * (SCALE * SCALE) == dist * dist * (SCALE * SCALE))
        by (nonlinear_arith)
        requires
            oc.x.m * oc.x.m * (SCALE * SCALE) == (dist * dist) * (ray.dir.x.m * ray.dir.x.m),
            oc.y.m * oc.y.m * (SCALE * SCALE) == (dist * dist) * (ray.dir.y.m * ray.dir.y.m),
            oc.z.m * oc.z.m * (SCALE * SCALE) == (dist * dist) * (ray.dir.z.m * ray.dir.z.m),
            ray.dir.x.m * ray.dir.x.m + ray.dir.y.m * ray.dir.y.m + ray.dir.z.m * ray.dir.z.m
                == SCALE * SCALE,
            dot_num(oc, oc) == oc.x.m * oc.x.m + oc.y.m * oc.y.m + oc.z.m * oc.z.m,
    ;
    assert(dot_num(oc, oc) == dist * dist) by (nonlinear_arith)
        requires
            dot_num(oc, oc) * (SCALE * SCALE) == dist * dist * (SCALE * SCALE),
            SCALE == 4294967296,
    ;
    lemma_exact_component(dist * dist, scl);
    lemma_exact_component(rr * rr, scl);
    let d2s = dist * dist / scl;
    let r2s = rr * rr / scl;
    assert(norm2_m(oc) == d2s);
    assert(mul_m(rr, rr) == r2s);
    // disc = h^2 - a c = r^2 / S.
    assert(mul_m(dist, dist) == d2s) by {
        lemma_exact_component(dist * dist, scl);
    };
    assert(scl * (d2s - r2s) == (d2s - r2s) * scl) by (nonlinear_arith);
    lemma_tdiv_exact(d2s - r2s, scl);
    assert(mul_m(scl, d2s - r2s) == d2s - r2s);
    let disc = sphere_disc_m(s, ray);
    assert(disc == r2s);
    // sqrt(disc) = r.
    assert(r2s * scl == rr * rr) by {
        lemma_exact_component(rr * rr, scl);
        assert((rr * rr / scl) * scl == rr * rr);
    };
    lemma_isqrt_exact(rr);
    assert(isqrt_s(disc * SCALE) == rr);
    // The near root is dist - r.
    assert((dist - rr) * scl == (dist - rr) * scl);
    lemma_tdiv_exact(dist - rr, scl);
    assert(tdiv((dist - rr) * SCALE, scl) == dist - rr);
    let root = dist - rr;
    assert(disc >= 0) by (nonlinear_arith)
        requires
            disc == r2s,
            r2s * scl == rr * rr,
            scl > 0,
    ;
    // The hit point is origin + root * dir, each component exact.
    lemma_exact_component(rr * ray.dir.x.m, scl);
    lemma_exact_component(rr * ray.dir.y.m, scl);
    lemma_exact_component(rr * ray.dir.z.m, scl);
    let rdx = rr * ray.dir.x.m / scl;
    let rdy = rr * ray.dir.y.m / scl;
    let rdz = rr * ray.dir.z.m / scl;
    assert(root * ray.dir.x.m == (oc.x.m - rdx) * scl && root * ray.dir.y.m == (oc.y.m - rdy)
        * scl && root * ray.dir.z.m == (oc.z.m - rdz) * scl) by (nonlinear_arith)
        requires
            root == dist - rr,
            oc.x.m * SCALE == dist * ray.dir.x.m,
            oc.y.m * SCALE == dist * ray.dir.y.m,
            oc.z.m * SCALE == dist * ray.dir.z.m,
            rdx * scl == rr * ray.dir.x.m,
            rdy * scl == rr * ray.dir.y.m,
            rdz * scl == rr * ray.dir.z.m,
            scl == SCALE as int,
    ;
    lemma_tdiv_exact(oc.x.m - rdx, scl);
    lemma_tdiv_exact(oc.y.m - rdy, scl);
    lemma_tdiv_exact(oc.z.m - rdz, scl);
    let p = at_m(ray, root);
    assert(p.0 == ray.orig.x.m + (oc.x.m - rdx) && p.1 == ray.orig.y.m + (oc.y.m - rdy) && p.2
        == ray.orig.z.m + (oc.z.m - rdz));
    // Bounds: the correction is at most the radius, so the point stays
    // within the coordinate range.
    assert(absi(rdx) <= rr && absi(rdy) <= rr && absi(rdz) <= rr) by (nonlinear_arith)
        requires
            rdx * scl == rr * ray.dir.x.m,
            rdy * scl == rr * ray.dir.y.m,
            rdz * scl == rr * ray.dir.z.m,
            -SCALE <= ray.dir.x.m <= SCALE,
            -SCALE <= ray.dir.y.m <= SCALE,
            -SCALE <= ray.dir.z.m <= SCALE,
            rr > 0,
            scl == SCALE as int,
            SCALE == 4294967296,
            absi(rdx) == if rdx >= 0 {
                rdx
            } else {
                -rdx
            },
            absi(rdy) == if rdy >= 0 {
                rdy
            } else {
                -rdy
            },
            absi(rdz) == if rdz >= 0 {
                rdz
            } else {
                -rdz
            },
    ;
    assert(absi(oc.x.m as int) <= dist && absi(oc.y.m as int) <= dist && absi(oc.z.m as int) <= dist)
        by (nonlinear_arith)
        requires
            oc.x.m * SCALE == dist * ray.dir.x.m,
            oc.y.m * SCALE == dist * ray.dir.y.m,
            oc.z.m * SCALE == dist * ray.dir.z.m,
            -SCALE <= ray.dir.x.m <= SCALE,
            -SCALE <= ray.dir.y.m <= SCALE,
            -SCALE <= ray.dir.z.m <= SCALE,
            dist > 0,
            SCALE == 4294967296,
            absi(oc.x.m as int) == if oc.x.m >= 0 {
                oc.x.m as int
            } else {
                -(oc.x.m as int)
            },
            absi(oc.y.m as int) == if oc.y.m >= 0 {
                oc.y.m as int
            } else {
                -(oc.y.m as int)
            },
            absi(oc.z.m as int) == if oc.z.m >= 0 {
                oc.z.m as int
            } else {
                -(oc.z.m as int)
            },
    ;
    // The outward normal is exactly the negated direction.
    assert((p.0 - s.center.x.m) * SCALE == (-ray.dir.x.m) * rr && (p.1 - s.center.y.m) * SCALE
        == (-ray.dir.y.m) * rr && (p.2 - s.center.z.m) * SCALE == (-ray.dir.z.m) * rr)
        by (nonlinear_arith)
        requires
            p.0 == ray.orig.x.m + (oc.x.m - rdx),
            p.1 == ray.orig.y.m + (oc.y.m - rdy),
            p.2 == ray.orig.z.m + (oc.z.m - rdz),
            oc.x.m == s.center.x.m - ray.orig.x.m,
            oc.y.m == s.center.y.m - ray.orig.y.m,
            oc.z.m == s.center.z.m - ray.orig.z.m,
            rdx * scl == rr * ray.dir.x.m,
            rdy * scl == rr * ray.dir.y.m,
            rdz * scl == rr * ray.dir.z.m,
            scl == SCALE as int,
    ;
    lemma_tdiv_exact(-ray.dir.x.m, rr);
    lemma_tdiv_exact(-ray.dir.y.m, rr);
    lemma_tdiv_exact(-ray.dir.z.m, rr);
    let owv = v3_of((-ray.dir.x.m as int, -ray.dir.y.m as int, -ray.dir.z.m as int));
    // Facing: d . ow = -1 < 0, so the front face is hit.
    assert(dot_num(ray.dir, owv) == -(SCALE * SCALE)) by (nonlinear_arith)
        requires
            owv.x.m == -ray.dir.x.m,
            owv.y.m == -ray.dir.y.m,
            owv.z.m == -ray.dir.z.m,
            dot_num(ray.dir, ray.dir) == SCALE * SCALE,
            dot_num(ray.dir, owv) == ray.dir.x.m * owv.x.m + ray.dir.y.m * owv.y.m + ray.dir.z.m
                * owv.z.m,
            dot_num(ray.dir, ray.dir) == ray.dir.x.m * ray.dir.x.m + ray.dir.y.m * ray.dir.y.m
                + ray.dir.z.m * ray.dir.z.m,
    ;
    assert(tdiv(-(SCALE * SCALE), SCALE as int) == -(SCALE as int)) by {
        lemma_tdiv_exact(-(SCALE as int), SCALE as int);
        assert((-(SCALE as int)) * (SCALE as int) == -(SCALE * SCALE)) by (nonlinear_arith);
    };
}

/// A single sphere query never returns a parameter outside the asked
/// interval.
pub proof fn lemma_sphere_hit_in_interval(s: Sphere, ray: Ray, tmin: int, tmax: int)
    ensures
        sphere_hit_m(s, ray, tmin, tmax) is Some ==> tmin <= sphere_hit_m(
            s,
            ray,
            tmin,
            tmax,
        )->0.t.m <= tmax,
{
}

/// The nearest-hit scan can only tighten: whatever far bound it is
/// queried with, any hit it returns lies within it, so shrinking the
/// bound to a found hit's parameter never lets a farther hit replace
/// a nearer one.
pub proof fn lemma_scan_never_returns_farther_hit(
    objs: Seq<Sphere>,
    i: int,
    ray: Ray,
    tmin: int,
    tmax: int,
    best: Option<HitRecord>,
)
    requires
        best is Some ==> tmin <= best->0.t.m <= tmax,
    ensures
        crate::hittable_list::list_hit_from(objs, i, ray, tmin, tmax, best) is Some
            ==> tmin <= crate::hittable_list::list_hit_from(
            objs,
            i,
            ray,
            tmin,
            tmax,
            best,
        )->0.t.m <= tmax,
    decreases objs.len() - i,
{
    if 0 <= i < objs.len() {
        lemma_sphere_hit_in_interval(objs[i], ray, tmin, tmax);
        match sphere_hit_m(objs[i], ray, tmin, tmax) {
            Some(rec) => {
                if best is None || rec.t.m < best->0.t.m {
                    lemma_scan_never_returns_farther_hit(
                        objs,
                        i + 1,
                        ray,
                        tmin,
                        rec.t.m as int,
                        Some(rec),
                    );
                } else {
                    lemma_scan_never_returns_farther_hit(objs, i + 1, ray, tmin, tmax, best);
                }
            },
            None => {
                lemma_scan_never_returns_farther_hit(objs, i + 1, ray, tmin, tmax, best);
            },
        }
    }
}

/// The whole-scene query returns only parameters within the asked
/// interval.
pub proof fn lemma_list_hit_in_interval(objs: Seq<Sphere>, ray: Ray, tmin: int, tmax: int)
    ensures
        crate::hittable_list::list_hit_m(objs, ray, tmin, tmax) is Some
            ==> tmin <= crate::hittable_list::list_hit_m(objs, ray, tmin, tmax)->0.t.m <= tmax,
{
    lemma_scan_never_returns_farther_hit(objs, 0, ray, tmin, tmax, None);
}

/// A dielectric with refraction index exactly one never reflects:
/// the ratio is one on both faces, total internal reflection is
/// impossible, and the reflectance branch is off, so for every draw
/// the admitted direction is exactly the Snell refraction of the
/// normalized incident direction (which, in exact arithmetic, is that
/// direction unchanged).
pub proof fn lemma_dielectric_unit_index_always_refracts(
    d: Dielectric,
    r_in: Ray,
    rec: HitRecord,
    q: int,
    dir: Vec3,
)
    requires
        d.refraction_index.m == SCALE,
    ensures
        dielectric_outcome(d, r_in, rec, q, dir) <==> (dir.x.m as int, dir.y.m as int, dir.z.m
            as int) == refract_m(v3_of(unit_m(r_in.dir)), rec.normal, SCALE as int),
{
    let s = SCALE as int;
    lemma_tdiv_exact(s, s);
    assert(s * s == SCALE * SCALE) by (nonlinear_arith)
        requires
            s == SCALE as int,
    ;
    assert(dielectric_ratio(d, rec.front_face) == s);
    let ut = unit_m(r_in.dir);
    let uv = v3_of(ut);
    let cos = if -dot_m(uv, rec.normal) <= s {
        -dot_m(uv, rec.normal)
    } else {
        s
    };
    let sin2 = if s - mul_m(cos, cos) >= 0 {
        s - mul_m(cos, cos)
    } else {
        0
    };
    // The squared cosine is a square, so the squared sine never
    // exceeds one.
    assert(cos * cos >= 0) by (nonlinear_arith);
    crate::fixed::lemma_tdiv_shrinks(cos * cos, s);
    assert(0 <= sin2 <= s);
    assert(sin2 * s >= 0) by (nonlinear_arith)
        requires
            sin2 >= 0,
            s == SCALE as int,
    ;
    crate::fixed::lemma_isqrt_s(sin2 * s);
    let sin = isqrt_s(sin2 * s);
    assert(sin <= s) by (nonlinear_arith)
        requires
            sin >= 0,
            sin * sin <= sin2 * s,
            0 <= sin2 <= s,
            s == SCALE as int,
    ;
    // At a unit ratio the Snell test compares the sine itself with
    // one, so refraction is always possible.
    lemma_tdiv_exact(sin, s);
    assert(s * sin == sin * s) by (nonlinear_arith);
    assert(mul_m(s, sin) == sin);
}

/// With a refraction index of exactly one and a head-on incident
/// direction, the dielectric's Snell refraction leaves the direction
/// unchanged, bit for bit.
pub proof fn lemma_refract_identity_normal_incidence(uv: Vec3, n: Vec3)
    requires
        uv.x.m == -n.x.m,
        uv.y.m == -n.y.m,
        uv.z.m == -n.z.m,
        dot_num(n, n) == SCALE * SCALE,
    ensures
        refract_m(uv, n, SCALE as int) == (uv.x.m as int, uv.y.m as int, uv.z.m as int),
{
    let s = SCALE as int;
    lemma_unit_components(n);
    assert(dot_num(uv, n) == -(SCALE * SCALE)) by (nonlinear_arith)
        requires
            uv.x.m == -n.x.m,
            uv.y.m == -n.y.m,
            uv.z.m == -n.z.m,
            dot_num(n, n) == SCALE * SCALE,
            dot_num(uv, n) == uv.x.m * n.x.m + uv.y.m * n.y.m + uv.z.m * n.z.m,
            dot_num(n, n) == n.x.m * n.x.m + n.y.m * n.y.m + n.z.m * n.z.m,
    ;
    assert(tdiv(-(SCALE * SCALE), s) == -s) by {
        lemma_tdiv_exact(-s, s);
        assert((-s) * s == -(SCALE * SCALE)) by (nonlinear_arith)
            requires
                s == SCALE as int,
        ;
    };
    assert(dot_m(uv, n) == -s);
    // cos = 1 exactly; the perpendicular part vanishes.
    lemma_tdiv_exact(n.x.m as int, s);
    lemma_tdiv_exact(n.y.m as int, s);
    lemma_tdiv_exact(n.z.m as int, s);
    assert(s * n.x.m == n.x.m * s && s * n.y.m == n.y.m * s && s * n.z.m == n.z.m * s)
        by (nonlinear_arith);
    assert(tdiv(s * n.x.m, s) == n.x.m && tdiv(s * n.y.m, s) == n.y.m && tdiv(s * n.z.m, s)
        == n.z.m);
    assert(uv.x.m + n.x.m == 0 && uv.y.m + n.y.m == 0 && uv.z.m + n.z.m == 0);
    assert(tdiv(s * 0, s) == 0) by {
        lemma_tdiv_exact(0, s);
        assert(s * 0 == 0 * s) by (nonlinear_arith);
    };
    // The parallel length is exactly one, restoring the direction.
    lemma_isqrt_exact(s);
    assert(absi(s - tdiv(0, s)) * s == SCALE * SCALE) by (nonlinear_arith)
        requires
            tdiv(0, s) == 0,
            absi(s - 0) == s,
            s == SCALE as int,
            SCALE == 4294967296,
    ;
    assert(isqrt_s(absi(s - tdiv(0int * 0 + 0 * 0 + 0 * 0, s)) * s) == s) by {
        assert(0int * 0 + 0 * 0 + 0 * 0 == 0) by (nonlinear_arith);
        assert(s * s == SCALE * SCALE) by (nonlinear_arith)
            requires
                s == SCALE as int,
        ;
        lemma_isqrt_exact(s);
    };
    assert(tdiv(-s * n.x.m, s) == -n.x.m && tdiv(-s * n.y.m, s) == -n.y.m && tdiv(
        -s * n.z.m,
        s,
    ) == -n.z.m) by {
        lemma_tdiv_exact(-n.x.m as int, s);
        lemma_tdiv_exact(-n.y.m as int, s);
        lemma_tdiv_exact(-n.z.m as int, s);
        assert(-s * n.x.m == (-n.x.m) * s && -s * n.y.m == (-n.y.m) * s && -s * n.z.m == (-n.z.m)
            * s) by (nonlinear_arith);
    };
}

/// A dielectric with refraction index one, met head on, always
/// refracts — the Schlick reflectance is zero at normal incidence —
/// and the refracted direction is the incident direction unchanged,
/// whatever the uniform draw.
pub proof fn lemma_dielectric_unit_index_normal_incidence(
    d: Dielectric,
    r_in: Ray,
    rec: HitRecord,
    q: int,
)
    requires
        d.refraction_index.m == SCALE,
        unit_m(r_in.dir) == (-rec.normal.x.m as int, -rec.normal.y.m as int, -rec.normal.z.m
            as int),
        dot_num(rec.normal, rec.normal) == SCALE * SCALE,
        0 <= q,
    ensures
        dielectric_outcome(d, r_in, rec, q, v3_of(unit_m(r_in.dir))),
{
    let s = SCALE as int;
    lemma_unit_components(rec.normal);
    let ut = unit_m(r_in.dir);
    let uv = v3_of(ut);
    assert(uv.x.m == -rec.normal.x.m && uv.y.m == -rec.normal.y.m && uv.z.m == -rec.normal.z.m);
    // Either way round, a unit index gives a unit ratio.
    lemma_tdiv_exact(s, s);
    assert(s * s == SCALE * SCALE) by (nonlinear_arith)
        requires
            s == SCALE as int,
    ;
    assert(dielectric_ratio(d, rec.front_face) == s);
    // cos = 1: sine vanishes, refraction is never impossible.
    assert(dot_num(uv, rec.normal) == -(SCALE * SCALE)) by (nonlinear_arith)
        requires
            uv.x.m == -rec.normal.x.m,
            uv.y.m == -rec.normal.y.m,
            uv.z.m == -rec.normal.z.m,
            dot_num(rec.normal, rec.normal) == SCALE * SCALE,
            dot_num(uv, rec.normal) == uv.x.m * rec.normal.x.m + uv.y.m * rec.normal.y.m + uv.z.m
                * rec.normal.z.m,
            dot_num(rec.normal, rec.normal) == rec.normal.x.m * rec.normal.x.m + rec.normal.y.m
                * rec.normal.y.m + rec.normal.z.m * rec.normal.z.m,
    ;
    assert(tdiv(-(SCALE * SCALE), s) == -s) by {
        lemma_tdiv_exact(-s, s);
        assert((-s) * s == -(SCALE * SCALE)) by (nonlinear_arith)
            requires
                s == SCALE as int,
        ;
    };
    assert(mul_m(s, s) == s) by {
        lemma_tdiv_exact(s, s);
    };
    assert(isqrt_s(0 * s) == 0) by {
        assert(0 * s == 0) by (nonlinear_arith);
        assert(isqrt_s(0) == 0);
    };
    assert(mul_m(s, 0) == 0) by {
        assert(s * 0 == 0) by (nonlinear_arith);
    };
    lemma_refract_identity_normal_incidence(uv, rec.normal);
}

} // verus!

//! Three-component fixed-point vectors, used interchangeably as points,
//! directions and colours.
//!
//! Dot products, cross products and reflection are computed with a
//! single truncation at the end (the partial products are exact), so
//! each operation's contract pins its result to one integer formula.

use vstd::prelude::*;
use crate::fixed::{absi, isqrt_s, tdiv, Fixed, SCALE};
use crate::random::{random_double, random_double_in, Rng};

verus! {

/// Bound on the mantissas fed to a dot or cross product so the exact
/// partial products fit the machine word: 2^62.
pub const DOT_LIMIT: i128 = 4611686018427387904;

/// Bound on coordinates of scene geometry and ray directions: 2^45,
/// about thirty-two thousand in real units.
pub const COORD_LIMIT: i128 = 35184372088832;

/// Bound on the mantissas of (approximately) unit-length vectors such
/// as surface normals: four in real units.
pub const UNIT_LIMIT: i128 = 17179869184;

/// Mantissas below this magnitude, about 1e-8 in real units, count as
/// numerically degenerate.
pub const NEAR_ZERO_EPS: i128 = 43;

/// A vector of three fixed-point components.
#[derive(Clone, Copy, Debug, PartialEq, Eq, Structural)]
pub struct Vec3 {
    pub x: Fixed,
    pub y: Fixed,
    pub z: Fixed,
}

/// All three mantissas within the symmetric bound `b`.
pub open spec fn vec_in(v: Vec3, b: int) -> bool {
    &&& -b <= v.x.m <= b
    &&& -b <= v.y.m <= b
    &&& -b <= v.z.m <= b
}

/// The exact (unscaled) sum of componentwise products; `SCALE` squared
/// times the real dot product.
pub open spec fn dot_num(a: Vec3, b: Vec3) -> int {
    a.x.m * b.x.m + a.y.m * b.y.m + a.z.m * b.z.m
}

/// The mantissa of the dot product.
pub open spec fn dot_m(a: Vec3, b: Vec3) -> int {
    tdiv(dot_num(a, b), SCALE as int)
}

/// The mantissa of the squared length.
pub open spec fn norm2_m(v: Vec3) -> int {
    dot_m(v, v)
}

/// The mantissa of the length.
pub open spec fn len_m(v: Vec3) -> int {
    isqrt_s(norm2_m(v) * SCALE)
}

/// Componentwise mantissas of the normalized vector; a vector whose
/// length truncates to zero is returned unchanged (callers avoid such
/// degenerate inputs, as the contracts upstream document).
pub open spec fn unit_m(v: Vec3) -> (int, int, int) {
    let l = len_m(v);
    if l <= 0 {
        (v.x.m as int, v.y.m as int, v.z.m as int)
    } else {
        (tdiv(v.x.m * SCALE, l), tdiv(v.y.m * SCALE, l), tdiv(v.z.m * SCALE, l))
    }
}

/// A vector from component mantissas.
pub open spec fn v3_of(t: (int, int, int)) -> Vec3 {
    Vec3 { x: Fixed { m: t.0 as i128 }, y: Fixed { m: t.1 as i128 }, z: Fixed { m: t.2 as i128 } }
}

/// Componentwise mantissas of the cross product.
pub open spec fn cross_m(a: Vec3, o: Vec3) -> (int, int, int) {
    (
        tdiv(a.y.m * o.z.m - a.z.m * o.y.m, SCALE as int),
        tdiv(a.z.m * o.x.m - a.x.m * o.z.m, SCALE as int),
        tdiv(a.x.m * o.y.m - a.y.m * o.x.m, SCALE as int),
    )
}

/// Mantissas of the mirror image of `v` about the normal `n`:
/// `v - 2 (v . n) n`, with one truncation per component.
pub open spec fn reflect_m(v: Vec3, n: Vec3) -> (int, int, int) {
    (
        v.x.m - tdiv(2 * dot_num(v, n) * n.x.m, SCALE as int * SCALE as int),
        v.y.m - tdiv(2 * dot_num(v, n) * n.y.m, SCALE as int * SCALE as int),
        v.z.m - tdiv(2 * dot_num(v, n) * n.z.m, SCALE as int * SCALE as int),
    )
}

/// All components below the degeneracy threshold in magnitude.
pub open spec fn near_zero_m(v: Vec3) -> bool {
    &&& absi(v.x.m as int) < NEAR_ZERO_EPS
    &&& absi(v.y.m as int) < NEAR_ZERO_EPS
    &&& absi(v.z.m as int) < NEAR_ZERO_EPS
}

impl Vec3 {
    /// A vector from its components.
    pub fn new(x: Fixed, y: Fixed, z: Fixed) -> (r: Vec3)
        ensures
            r == (Vec3 { x, y, z }),
    {
        Vec3 { x, y, z }
    }

    /// The zero vector.
    pub fn zero() -> (r: Vec3)
        ensures
            r.x.m == 0 && r.y.m == 0 && r.z.m == 0,
    {
        Vec3 { x: Fixed { m: 0 }, y: Fixed { m: 0 }, z: Fixed { m: 0 } }
    }

    /// Exact componentwise sum.
    pub fn add(self, o: Vec3) -> (r: Vec3)
        requires
            i128::MIN <= self.x.m + o.x.m <= i128::MAX,
            i128::MIN <= self.y.m + o.y.m <= i128::MAX,
            i128::MIN <= self.z.m + o.z.m <= i128::MAX,
        ensures
            r.x.m == self.x.m + o.x.m,
            r.y.m == self.y.m + o.y.m,
            r.z.m == self.z.m + o.z.m,
    {
        Vec3 {
            x: Fixed { m: self.x.m + o.x.m },
            y: Fixed { m: self.y.m + o.y.m },
            z: Fixed { m: self.z.m + o.z.m },
        }
    }

    /// Exact componentwise difference.
    pub fn sub(self, o: Vec3) -> (r: Vec3)
        requires
            i128::MIN <= self.x.m - o.x.m <= i128::MAX,
            i128::MIN <= self.y.m - o.y.m <= i128::MAX,
            i128::MIN <= self.z.m - o.z.m <= i128::MAX,
        ensures
            r.x.m == self.x.m - o.x.m,
            r.y.m == self.y.m - o.y.m,
            r.z.m == self.z.m - o.z.m,
    {
        Vec3 {
            x: Fixed { m: self.x.m - o.x.m },
            y: Fixed { m: self.y.m - o.y.m },
            z: Fixed { m: self.z.m - o.z.m },
        }
    }

    /// Exact componentwise negation.
    pub fn neg(self) -> (r: Vec3)
        requires
            self.x.m != i128::MIN,
            self.y.m != i128::MIN,
            self.z.m != i128::MIN,
        ensures
            r.x.m == -self.x.m,
            r.y.m == -self.y.m,
            r.z.m == -self.z.m,
    {
        Vec3 {
            x: Fixed { m: -self.x.m },
            y: Fixed { m: -self.y.m },
            z: Fixed { m: -self.z.m },
        }
    }

    /// Scalar multiple, truncated per component.
    pub fn scale(self, s: Fixed) -> (r: Vec3)
        requires
            i128::MIN <= s.m * self.x.m <= i128::MAX,
            i128::MIN <= s.m * self.y.m <= i128::MAX,
            i128::MIN <= s.m * self.z.m <= i128::MAX,
        ensures
            r.x.m == tdiv(s.m * self.x.m, SCALE as int),
            r.y.m == tdiv(s.m * self.y.m, SCALE as int),
            r.z.m == tdiv(s.m * self.z.m, SCALE as int),
    {
        Vec3 { x: s.mul(self.x), y: s.mul(self.y), z: s.mul(self.z) }
    }

    /// Componentwise product, truncated per component.
    pub fn component_mul(self, o: Vec3) -> (r: Vec3)
        requires
            i128::MIN <= self.x.m * o.x.m <= i128::MAX,
            i128::MIN <= self.y.m * o.y.m <= i128::MAX,
            i128::MIN <= self.z.m * o.z.m <= i128::MAX,
        ensures
            r.x.m == tdiv(self.x.m * o.x.m, SCALE as int),
            r.y.m == tdiv(self.y.m * o.y.m, SCALE as int),
            r.z.m == tdiv(self.z.m * o.z.m, SCALE as int),
    {
        Vec3 { x: self.x.mul(o.x), y: self.y.mul(o.y), z: self.z.mul(o.z) }
    }

    /// Componentwise division by a positive scalar.
    pub fn div_by(self, s: Fixed) -> (r: Vec3)
        requires
            s.m > 0,
            i128::MIN < self.x.m * SCALE <= i128::MAX,
            i128::MIN < self.y.m * SCALE <= i128::MAX,
            i128::MIN < self.z.m * SCALE <= i128::MAX,
        ensures
            r.x.m == tdiv(self.x.m * SCALE, s.m as int),
            r.y.m == tdiv(self.y.m * SCALE, s.m as int),
            r.z.m == tdiv(self.z.m * SCALE, s.m as int),
    {
        Vec3 { x: self.x.div(s), y: self.y.div(s), z: self.z.div(s) }
    }

    /// Dot product: exact partial products, one truncation.
    pub fn dot(self, o: Vec3) -> (r: Fixed)
        requires
            vec_in(self, DOT_LIMIT as int),
            vec_in(o, DOT_LIMIT as int),
        ensures
            r.m == dot_m(self, o),
    {
        proof {
            lemma_dot_num_fits(self, o, DOT_LIMIT as int);
        }
        let num: i128 = self.x.m * o.x.m + self.y.m * o.y.m + self.z.m * o.z.m;
        Fixed { m: crate::fixed::div_trunc(num, SCALE) }
    }

    /// Squared length.
    pub fn norm_squared(self) -> (r: Fixed)
        requires
            vec_in(self, DOT_LIMIT as int),
        ensures
            r.m == norm2_m(self),
            r.m >= 0,
    {
        proof {
            lemma_norm2_nonneg(self);
        }
        self.dot(self)
    }

    /// Cross product: exact partial products, one truncation per
    /// component.
    pub fn cross(self, o: Vec3) -> (r: Vec3)
        requires
            vec_in(self, DOT_LIMIT as int),
            vec_in(o, DOT_LIMIT as int),
        ensures
            r.x.m == tdiv(self.y.m * o.z.m - self.z.m * o.y.m, SCALE as int),
            r.y.m == tdiv(self.z.m * o.x.m - self.x.m * o.z.m, SCALE as int),
            r.z.m == tdiv(self.x.m * o.y.m - self.y.m * o.x.m, SCALE as int),
            (r.x.m as int, r.y.m as int, r.z.m as int) == cross_m(self, o),
    {
        proof {
            lemma_cross_fits(self, o, DOT_LIMIT as int);
        }
        Vec3 {
            x: Fixed { m: crate::fixed::div_trunc(self.y.m * o.z.m - self.z.m * o.y.m, SCALE) },
            y: Fixed { m: crate::fixed::div_trunc(self.z.m * o.x.m - self.x.m * o.z.m, SCALE) },
            z: Fixed { m: crate::fixed::div_trunc(self.x.m * o.y.m - self.y.m * o.x.m, SCALE) },
        }
    }

    /// The vector scaled to length one, by dividing through the
    /// truncated length; a degenerate vector whose length truncates to
    /// zero is returned unchanged.
    pub fn normalize(self) -> (r: Vec3)
        requires
            vec_in(self, DOT_LIMIT as int),
        ensures
            (r.x.m as int, r.y.m as int, r.z.m as int) == unit_m(self),
            vec_in(r, 2 * SCALE as int),
    {
        let n2 = self.norm_squared();
        proof {
            lemma_norm2_bound(self);
            lemma_unit_bound(self);
        }
        let l = n2.sqrt();
        if l.m <= 0 {
            proof {
                crate::fixed::lemma_isqrt_s(n2.m * SCALE);
            }
            self
        } else {
            Vec3 {
                x: Fixed { m: crate::fixed::div_trunc(self.x.m * SCALE, l.m) },
                y: Fixed { m: crate::fixed::div_trunc(self.y.m * SCALE, l.m) },
                z: Fixed { m: crate::fixed::div_trunc(self.z.m * SCALE, l.m) },
            }
        }
    }
}

/// Whether every component of `v` is numerically degenerate
/// (magnitude below about 1e-8).
pub fn near_zero(v: Vec3) -> (r: bool)
    ensures
        r == near_zero_m(v),
{
    -NEAR_ZERO_EPS < v.x.m && v.x.m < NEAR_ZERO_EPS && -NEAR_ZERO_EPS < v.y.m && v.y.m
        < NEAR_ZERO_EPS && -NEAR_ZERO_EPS < v.z.m && v.z.m < NEAR_ZERO_EPS
}

/// A random vector with each component drawn from `[0, 1)`.
pub fn random(rng: &mut Rng) -> (r: Vec3)
    ensures
        0 <= r.x.m < SCALE,
        0 <= r.y.m < SCALE,
        0 <= r.z.m < SCALE,
{
    let x = random_double(rng);
    let y = random_double(rng);
    let z = random_double(rng);
    Vec3 { x, y, z }
}

/// A random vector with each component drawn from the half-open range
/// `[min, max)`: for an ordered range every component is at least
/// `min`, and strictly below `max` when the range is nonempty.
pub fn random_in(min: Fixed, max: Fixed, rng: &mut Rng) -> (r: Vec3)
    requires
        -36893488147419103232 <= min.m <= 36893488147419103232,
        -36893488147419103232 <= max.m <= 36893488147419103232,
    ensures
        min.m <= max.m ==> min.m <= r.x.m <= max.m && min.m <= r.y.m <= max.m && min.m <= r.z.m
            <= max.m,
        min.m < max.m ==> r.x.m < max.m && r.y.m < max.m && r.z.m < max.m,
{
    let x = random_double_in(min, max, rng);
    let y = random_double_in(min, max, rng);
    let z = random_double_in(min, max, rng);
    Vec3 { x, y, z }
}

/// A sample accepted by the unit-ball rejection loop: inside the unit
/// cube, with a squared length that is neither degenerate nor above
/// one.
pub open spec fn sample_in_ball(p: Vec3) -> bool {
    vec_in(p, SCALE as int) && 4096 <= norm2_m(p) <= SCALE
}

/// The vector is the normalization of some accepted unit-ball sample.
pub open spec fn is_sampled_unit(r: Vec3) -> bool {
    exists|p: Vec3|
        #[trigger] sample_in_ball(p) && (r.x.m as int, r.y.m as int, r.z.m as int) == unit_m(p)
}

/// A random vector of (approximately) unit length: rejection sampling
/// in the unit ball, normalized; after a bounded number of rejected
/// draws an axis vector is used so the function terminates.
pub fn random_unit_vector(rng: &mut Rng) -> (r: Vec3)
    ensures
        is_sampled_unit(r),
        vec_in(r, 2 * SCALE as int),
{
    let mut k: u32 = 0;
    while k < 64
        invariant
            k <= 64,
        decreases 64 - k,
    {
        let p = random_in(Fixed::from_int(-1), Fixed::one(), rng);
        let lensq = p.norm_squared();
        if 4096 <= lensq.m && lensq.m <= SCALE {
            let r = p.normalize();
            proof {
                lemma_unit_bound(p);
                assert(sample_in_ball(p));
            }
            return r;
        }
        k = k + 1;
    }
    let one = Fixed::one();
    let zero = Fixed::zero();
    proof {
        let p = Vec3 { x: Fixed { m: SCALE }, y: Fixed { m: 0 }, z: Fixed { m: 0 } };
        crate::fixed::lemma_tdiv_is_euclidean((SCALE * SCALE) as int, SCALE as int);
        vstd::arithmetic::div_mod::lemma_div_by_multiple(SCALE as int, SCALE as int);
        assert(norm2_m(p) == SCALE as int);
        crate::fixed::lemma_isqrt_exact(SCALE as int);
        assert(len_m(p) == SCALE as int);
        assert(sample_in_ball(p));
        assert(unit_m(p) == (SCALE as int, 0int, 0int));
    }
    Vec3 { x: one, y: zero, z: zero }
}

/// A random vector in the unit disk of the xy-plane; after a bounded
/// number of rejected draws the center is used so the function
/// terminates.
pub fn random_in_unit_disk(rng: &mut Rng) -> (r: Vec3)
    ensures
        vec_in(r, SCALE as int),
        r.z.m == 0,
        norm2_m(r) < SCALE,
{
    let mut k: u32 = 0;
    while k < 64
        invariant
            k <= 64,
        decreases 64 - k,
    {
        let x = random_double_in(Fixed::from_int(-1), Fixed::one(), rng);
        let y = random_double_in(Fixed::from_int(-1), Fixed::one(), rng);
        let p = Vec3 { x, y, z: Fixed { m: 0 } };
        if p.norm_squared().m < SCALE {
            return p;
        }
        k = k + 1;
    }
    let z = Vec3::zero();
    proof {
        crate::fixed::lemma_tdiv_shrinks(dot_num(z, z), SCALE as int);
    }
    z
}

/// The mirror image of `v` about the normal `n`: `v - 2 (v . n) n`,
/// with exact partial products and one truncation per component.
pub fn reflect(v: Vec3, n: Vec3) -> (r: Vec3)
    requires
        vec_in(v, COORD_LIMIT as int),
        vec_in(n, UNIT_LIMIT as int),
    ensures
        (r.x.m as int, r.y.m as int, r.z.m as int) == reflect_m(v, n),
        vec_in(r, 128 * COORD_LIMIT as int),
        vec_in(v, 2 * SCALE as int) ==> vec_in(r, 256 * SCALE as int),
{
    proof {
        lemma_reflect_fits(v, n);
    }
    let num: i128 = v.x.m * n.x.m + v.y.m * n.y.m + v.z.m * n.z.m;
    let s2: i128 = SCALE * SCALE;
    Vec3 {
        x: Fixed { m: v.x.m - crate::fixed::div_trunc(2 * num * n.x.m, s2) },
        y: Fixed { m: v.y.m - crate::fixed::div_trunc(2 * num * n.y.m, s2) },
        z: Fixed { m: v.z.m - crate::fixed::div_trunc(2 * num * n.z.m, s2) },
    }
}

/// The intermediate products of `reflect` fit the machine word and the
/// correction term is small against the coordinate range.
proof fn lemma_reflect_fits(v: Vec3, n: Vec3)
    requires
        vec_in(v, COORD_LIMIT as int),
        vec_in(n, UNIT_LIMIT as int),
    ensures
        absi(v.x.m * n.x.m) <= COORD_LIMIT * UNIT_LIMIT,
        absi(v.y.m * n.y.m) <= COORD_LIMIT * UNIT_LIMIT,
        absi(v.z.m * n.z.m) <= COORD_LIMIT * UNIT_LIMIT,
        absi(dot_num(v, n)) <= 3 * COORD_LIMIT * UNIT_LIMIT,
        absi(2 * dot_num(v, n) * n.x.m) <= 6 * COORD_LIMIT * UNIT_LIMIT * UNIT_LIMIT,
        absi(2 * dot_num(v, n) * n.y.m) <= 6 * COORD_LIMIT * UNIT_LIMIT * UNIT_LIMIT,
        absi(2 * dot_num(v, n) * n.z.m) <= 6 * COORD_LIMIT * UNIT_LIMIT * UNIT_LIMIT,
        6 * COORD_LIMIT * UNIT_LIMIT * UNIT_LIMIT < i128::MAX,
        absi(tdiv(2 * dot_num(v, n) * n.x.m, SCALE as int * SCALE as int)) <= 6 * COORD_LIMIT * 16,
        absi(tdiv(2 * dot_num(v, n) * n.y.m, SCALE as int * SCALE as int)) <= 6 * COORD_LIMIT * 16,
        absi(tdiv(2 * dot_num(v, n) * n.z.m, SCALE as int * SCALE as int)) <= 6 * COORD_LIMIT * 16,
        vec_in(v, 2 * SCALE as int) ==> absi(
            tdiv(2 * dot_num(v, n) * n.x.m, SCALE as int * SCALE as int),
        ) <= 192 * SCALE && absi(tdiv(2 * dot_num(v, n) * n.y.m, SCALE as int * SCALE as int))
            <= 192 * SCALE && absi(tdiv(2 * dot_num(v, n) * n.z.m, SCALE as int * SCALE as int))
            <= 192 * SCALE,
{
    let cl = COORD_LIMIT as int;
    let ul = UNIT_LIMIT as int;
    let s = SCALE as int;
    if vec_in(v, 2 * s) {
        crate::fixed::lemma_mul_bound(v.x.m as int, n.x.m as int, 2 * s, ul);
        crate::fixed::lemma_mul_bound(v.y.m as int, n.y.m as int, 2 * s, ul);
        crate::fixed::lemma_mul_bound(v.z.m as int, n.z.m as int, 2 * s, ul);
        let d = dot_num(v, n);
        assert(absi(d) <= 3 * (2 * s) * ul);
        crate::fixed::lemma_mul_bound(2 * d, n.x.m as int, 6 * (2 * s) * ul, ul);
        crate::fixed::lemma_mul_bound(2 * d, n.y.m as int, 6 * (2 * s) * ul, ul);
        crate::fixed::lemma_mul_bound(2 * d, n.z.m as int, 6 * (2 * s) * ul, ul);
        assert(6 * (2 * s) * ul * ul == (192 * s) * (s * s)) by (nonlinear_arith)
            requires
                ul == UNIT_LIMIT as int,
                s == SCALE as int,
        ;
        crate::fixed::lemma_tdiv_bound(2 * d * n.x.m, s * s, 192 * s);
        crate::fixed::lemma_tdiv_bound(2 * d * n.y.m, s * s, 192 * s);
        crate::fixed::lemma_tdiv_bound(2 * d * n.z.m, s * s, 192 * s);
    }
    crate::fixed::lemma_mul_bound(v.x.m as int, n.x.m as int, cl, ul);
    crate::fixed::lemma_mul_bound(v.y.m as int, n.y.m as int, cl, ul);
    crate::fixed::lemma_mul_bound(v.z.m as int, n.z.m as int, cl, ul);
    let d = dot_num(v, n);
    assert(absi(d) <= 3 * cl * ul);
    crate::fixed::lemma_mul_bound(2 * d, n.x.m as int, 6 * cl * ul, ul);
    crate::fixed::lemma_mul_bound(2 * d, n.y.m as int, 6 * cl * ul, ul);
    crate::fixed::lemma_mul_bound(2 * d, n.z.m as int, 6 * cl * ul, ul);
    assert(6 * cl * ul * ul == (6 * cl * 16) * (s * s)) by (nonlinear_arith)
        requires
            cl == COORD_LIMIT as int,
            ul == UNIT_LIMIT as int,
            s == SCALE as int,
    ;
    crate::fixed::lemma_tdiv_bound(2 * d * n.x.m, s * s, 6 * cl * 16);
    crate::fixed::lemma_tdiv_bound(2 * d * n.y.m, s * s, 6 * cl * 16);
    crate::fixed::lemma_tdiv_bound(2 * d * n.z.m, s * s, 6 * cl * 16);
}

/// Componentwise mantissas of the refraction of unit direction `uv` at
/// a surface with unit normal `n` and refraction ratio `ratio`,
/// following Snell's law: the perpendicular part is
/// `ratio * (uv + cos(theta) n)` and the parallel part closes the
/// length to one.
pub open spec fn refract_m(uv: Vec3, n: Vec3, ratio: int) -> (int, int, int) {
    let s = SCALE as int;
    let cos = if -dot_m(uv, n) <= s {
        -dot_m(uv, n)
    } else {
        s
    };
    let px = tdiv(ratio * (uv.x.m + tdiv(cos * n.x.m, s)), s);
    let py = tdiv(ratio * (uv.y.m + tdiv(cos * n.y.m, s)), s);
    let pz = tdiv(ratio * (uv.z.m + tdiv(cos * n.z.m, s)), s);
    let nsq = tdiv(px * px + py * py + pz * pz, s);
    let pl = isqrt_s(absi(s - nsq) * s);
    (px + tdiv(-pl * n.x.m, s), py + tdiv(-pl * n.y.m, s), pz + tdiv(-pl * n.z.m, s))
}

/// Snell refraction of a unit direction about a unit normal.
pub fn refract(uv: Vec3, n: Vec3, etai_over_etat: Fixed) -> (r: Vec3)
    requires
        vec_in(uv, 2 * SCALE as int),
        vec_in(n, 2 * SCALE as int),
        0 < etai_over_etat.m <= 16 * SCALE,
    ensures
        (r.x.m as int, r.y.m as int, r.z.m as int) == refract_m(uv, n, etai_over_etat.m as int),
        vec_in(r, 4096 * SCALE as int),
{
    proof {
        lemma_dot_m_scaled(uv, n, 2, 2);
    }
    let d = uv.dot(n);
    let cos = d.neg().min(Fixed::one());
    proof {
        crate::fixed::lemma_scaled_prod(cos.m as int, n.x.m as int, 12, 2);
        crate::fixed::lemma_scaled_prod(cos.m as int, n.y.m as int, 12, 2);
        crate::fixed::lemma_scaled_prod(cos.m as int, n.z.m as int, 12, 2);
    }
    let scaled_n = n.scale(cos);
    let inner = uv.add(scaled_n);
    proof {
        crate::fixed::lemma_scaled_prod(etai_over_etat.m as int, inner.x.m as int, 16, 26);
        crate::fixed::lemma_scaled_prod(etai_over_etat.m as int, inner.y.m as int, 16, 26);
        crate::fixed::lemma_scaled_prod(etai_over_etat.m as int, inner.z.m as int, 16, 26);
    }
    let perp = inner.scale(etai_over_etat);
    proof {
        lemma_dot_m_scaled(perp, perp, 416, 416);
        lemma_norm2_nonneg(perp);
    }
    let nsq = perp.norm_squared();
    let one = Fixed::one();
    let diff = one.sub(nsq);
    let pl = diff.abs().sqrt();
    proof {
        crate::fixed::lemma_isqrt_s(absi(diff.m as int) * SCALE);
        assert(pl.m <= 1024 * SCALE) by (nonlinear_arith)
            requires
                pl.m >= 0,
                pl.m * pl.m <= absi(diff.m as int) * SCALE,
                absi(diff.m as int) <= 519169 * SCALE,
        ;
        crate::fixed::lemma_scaled_prod(-pl.m, n.x.m as int, 1024, 2);
        crate::fixed::lemma_scaled_prod(-pl.m, n.y.m as int, 1024, 2);
        crate::fixed::lemma_scaled_prod(-pl.m, n.z.m as int, 1024, 2);
    }
    let par = n.scale(pl.neg());
    perp.add(par)
}

/// However short or long a vector is, the mantissas of its
/// normalization stay within twice the unit scale, and its truncated
/// length is nonnegative.
pub proof fn lemma_unit_bound(v: Vec3)
    requires
        vec_in(v, DOT_LIMIT as int),
    ensures
        len_m(v) >= 0,
        absi(unit_m(v).0) <= 2 * SCALE as int,
        absi(unit_m(v).1) <= 2 * SCALE as int,
        absi(unit_m(v).2) <= 2 * SCALE as int,
{
    let s = SCALE as int;
    let num = dot_num(v, v);
    let nsq = norm2_m(v);
    lemma_norm2_nonneg(v);
    lemma_norm2_bound(v);
    let l = len_m(v);
    crate::fixed::lemma_isqrt_s(nsq * s);
    if l <= 0 {
        // The whole vector is tiny: each square is below one scale unit.
        assert(nsq * s < 1) by (nonlinear_arith)
            requires
                l == isqrt_s(nsq * s),
                l <= 0,
                isqrt_s(nsq * s) * isqrt_s(nsq * s) <= nsq * s,
                nsq * s < (isqrt_s(nsq * s) + 1) * (isqrt_s(nsq * s) + 1),
                nsq >= 0,
                s > 0,
        ;
        assert(nsq == 0) by (nonlinear_arith)
            requires
                nsq * s < 1,
                nsq >= 0,
                s > 1,
        ;
        crate::fixed::lemma_tdiv_is_euclidean(num, s);
        vstd::arithmetic::div_mod::lemma_fundamental_div_mod(num, s);
        assert(num < (nsq + 1) * s);
        assert(v.x.m * v.x.m <= num && v.y.m * v.y.m <= num && v.z.m * v.z.m <= num)
            by (nonlinear_arith)
            requires
                num == v.x.m * v.x.m + v.y.m * v.y.m + v.z.m * v.z.m,
        ;
        assert(absi(v.x.m as int) <= 2 * s && absi(v.y.m as int) <= 2 * s && absi(v.z.m as int) <= 2
            * s) by (nonlinear_arith)
            requires
                v.x.m * v.x.m <= num,
                v.y.m * v.y.m <= num,
                v.z.m * v.z.m <= num,
                num < (0 + 1) * s,
                s == SCALE as int,
        ;
    } else {
        crate::fixed::lemma_tdiv_is_euclidean(num, s);
        vstd::arithmetic::div_mod::lemma_fundamental_div_mod(num, s);
        assert(num < (nsq + 1) * s);
        assert(v.x.m * v.x.m <= num && v.y.m * v.y.m <= num && v.z.m * v.z.m <= num)
            by (nonlinear_arith)
            requires
                num == v.x.m * v.x.m + v.y.m * v.y.m + v.z.m * v.z.m,
        ;
        // nsq >= 1 here, so the truncated length is at least 2^16 and
        // each component is at most twice the length.
        assert(nsq >= 1) by (nonlinear_arith)
            requires
                l > 0,
                l * l <= nsq * s,
                nsq >= 0,
                s > 0,
        ;
        assert(l >= 2) by (nonlinear_arith)
            requires
                nsq >= 1,
                s == SCALE as int,
                nsq * s < (l + 1) * (l + 1),
                l > 0,
        ;
        assert(v.x.m * v.x.m <= 4 * (l * l) && v.y.m * v.y.m <= 4 * (l * l) && v.z.m * v.z.m <= 4 * (
        l * l)) by (nonlinear_arith)
            requires
                v.x.m * v.x.m <= num,
                v.y.m * v.y.m <= num,
                v.z.m * v.z.m <= num,
                num < (nsq + 1) * s,
                nsq >= 1,
                l >= 2,
                l * l <= nsq * s,
                nsq * s < (l + 1) * (l + 1),
        ;
        assert(-(2 * l) <= v.x.m && v.x.m <= 2 * l && -(2 * l) <= v.y.m && v.y.m <= 2 * l && -(2
            * l) <= v.z.m && v.z.m <= 2 * l) by (nonlinear_arith)
            requires
                v.x.m * v.x.m <= 4 * (l * l),
                v.y.m * v.y.m <= 4 * (l * l),
                v.z.m * v.z.m <= 4 * (l * l),
                l >= 2,
        ;
        assert(-(2 * s * l) <= v.x.m * s <= 2 * s * l && -(2 * s * l) <= v.y.m * s <= 2 * s * l && -(
        2 * s * l) <= v.z.m * s <= 2 * s * l) by (nonlinear_arith)
            requires
                -(2 * l) <= v.x.m <= 2 * l,
                -(2 * l) <= v.y.m <= 2 * l,
                -(2 * l) <= v.z.m <= 2 * l,
                s > 0,
        ;
        crate::fixed::lemma_tdiv_bound(v.x.m * s, l, 2 * s);
        crate::fixed::lemma_tdiv_bound(v.y.m * s, l, 2 * s);
        crate::fixed::lemma_tdiv_bound(v.z.m * s, l, 2 * s);
    }
}

/// For vectors bounded by `al` and `bl` unit scales, each cross
/// product component is bounded by `2 * al * bl` unit scales.
pub proof fn lemma_cross_m_bound(a: Vec3, o: Vec3, al: int, bl: int)
    requires
        0 <= al,
        0 <= bl,
        al * bl <= 1000000000,
        vec_in(a, al * SCALE),
        vec_in(o, bl * SCALE),
    ensures
        -(2 * (al * bl * SCALE)) <= cross_m(a, o).0 <= 2 * (al * bl * SCALE),
        -(2 * (al * bl * SCALE)) <= cross_m(a, o).1 <= 2 * (al * bl * SCALE),
        -(2 * (al * bl * SCALE)) <= cross_m(a, o).2 <= 2 * (al * bl * SCALE),
        -(2 * (al * bl * SCALE) * SCALE) <= a.y.m * o.z.m - a.z.m * o.y.m <= 2 * (al * bl * SCALE)
            * SCALE,
        -(2 * (al * bl * SCALE) * SCALE) <= a.z.m * o.x.m - a.x.m * o.z.m <= 2 * (al * bl * SCALE)
            * SCALE,
        -(2 * (al * bl * SCALE) * SCALE) <= a.x.m * o.y.m - a.y.m * o.x.m <= 2 * (al * bl * SCALE)
            * SCALE,
{
    crate::fixed::lemma_scaled_prod(a.y.m as int, o.z.m as int, al, bl);
    crate::fixed::lemma_scaled_prod(a.z.m as int, o.y.m as int, al, bl);
    crate::fixed::lemma_scaled_prod(a.z.m as int, o.x.m as int, al, bl);
    crate::fixed::lemma_scaled_prod(a.x.m as int, o.z.m as int, al, bl);
    crate::fixed::lemma_scaled_prod(a.x.m as int, o.y.m as int, al, bl);
    crate::fixed::lemma_scaled_prod(a.y.m as int, o.x.m as int, al, bl);
    assert(2 * (al * bl * SCALE) * SCALE == (al * bl * SCALE * SCALE) + (al * bl * SCALE * SCALE))
        by (nonlinear_arith);
    assert(0 <= al * bl * SCALE) by (nonlinear_arith)
        requires
            0 <= al,
            0 <= bl,
    ;
    crate::fixed::lemma_tdiv_bound(
        a.y.m * o.z.m - a.z.m * o.y.m,
        SCALE as int,
        2 * (al * bl * SCALE),
    );
    crate::fixed::lemma_tdiv_bound(
        a.z.m * o.x.m - a.x.m * o.z.m,
        SCALE as int,
        2 * (al * bl * SCALE),
    );
    crate::fixed::lemma_tdiv_bound(
        a.x.m * o.y.m - a.y.m * o.x.m,
        SCALE as int,
        2 * (al * bl * SCALE),
    );
}

/// For vectors bounded by `al` and `bl` unit scales, the dot product's
/// partial products fit the machine word and its mantissa is bounded
/// by `3 * al * bl` unit scales.
pub proof fn lemma_dot_m_scaled(a: Vec3, o: Vec3, al: int, bl: int)
    requires
        0 <= al,
        0 <= bl,
        al * bl <= 1000000000,
        vec_in(a, al * SCALE),
        vec_in(o, bl * SCALE),
    ensures
        -(al * bl * SCALE * SCALE) <= a.x.m * o.x.m <= al * bl * SCALE * SCALE,
        -(al * bl * SCALE * SCALE) <= a.y.m * o.y.m <= al * bl * SCALE * SCALE,
        -(al * bl * SCALE * SCALE) <= a.z.m * o.z.m <= al * bl * SCALE * SCALE,
        -(3 * (al * bl * SCALE) * SCALE) <= dot_num(a, o) <= 3 * (al * bl * SCALE) * SCALE,
        -(3 * (al * bl * SCALE)) <= dot_m(a, o) <= 3 * (al * bl * SCALE),
{
    crate::fixed::lemma_scaled_prod(a.x.m as int, o.x.m as int, al, bl);
    crate::fixed::lemma_scaled_prod(a.y.m as int, o.y.m as int, al, bl);
    crate::fixed::lemma_scaled_prod(a.z.m as int, o.z.m as int, al, bl);
    assert(absi(a.x.m as int) <= al * SCALE && absi(o.x.m as int) <= bl * SCALE && absi(
        a.y.m as int,
    ) <= al * SCALE && absi(o.y.m as int) <= bl * SCALE && absi(a.z.m as int) <= al * SCALE
        && absi(o.z.m as int) <= bl * SCALE);
    assert(3 * (al * bl * SCALE) * SCALE == (al * bl * SCALE * SCALE) + (al * bl * SCALE * SCALE)
        + (al * bl * SCALE * SCALE)) by (nonlinear_arith);
    assert(0 <= al * bl * SCALE) by (nonlinear_arith)
        requires
            0 <= al,
            0 <= bl,
    ;
    crate::fixed::lemma_tdiv_bound(dot_num(a, o), SCALE as int, 3 * (al * bl * SCALE));
}

/// The partial products and their sum in a dot or cross product of
/// vectors bounded by `b <= 2^62` fit the machine word.
pub proof fn lemma_dot_num_fits(a: Vec3, b_: Vec3, b: int)
    requires
        0 <= b <= DOT_LIMIT,
        vec_in(a, b),
        vec_in(b_, b),
    ensures
        -(3 * b * b) <= dot_num(a, b_) <= 3 * b * b,
        absi(a.x.m * b_.x.m) <= b * b,
        absi(a.y.m * b_.y.m) <= b * b,
        absi(a.z.m * b_.z.m) <= b * b,
        3 * b * b < i128::MAX,
{
    assert(absi(a.x.m * b_.x.m) <= b * b && absi(a.y.m * b_.y.m) <= b * b && absi(
        a.z.m * b_.z.m,
    ) <= b * b) by (nonlinear_arith)
        requires
            0 <= b,
            vec_in(a, b),
            vec_in(b_, b),
    ;
    assert(3 * b * b <= 3 * DOT_LIMIT * DOT_LIMIT) by (nonlinear_arith)
        requires
            0 <= b <= DOT_LIMIT,
    ;
    assert(3 * b * b == (b * b) + (b * b) + (b * b)) by (nonlinear_arith);
}

/// The six mixed products in a cross product of vectors bounded by
/// `b <= 2^62` fit the machine word.
pub proof fn lemma_cross_fits(a: Vec3, o: Vec3, b: int)
    requires
        0 <= b <= DOT_LIMIT,
        vec_in(a, b),
        vec_in(o, b),
    ensures
        absi(a.y.m * o.z.m) <= b * b,
        absi(a.z.m * o.y.m) <= b * b,
        absi(a.z.m * o.x.m) <= b * b,
        absi(a.x.m * o.z.m) <= b * b,
        absi(a.x.m * o.y.m) <= b * b,
        absi(a.y.m * o.x.m) <= b * b,
        2 * b * b < i128::MAX,
{
    assert(absi(a.y.m * o.z.m) <= b * b && absi(a.z.m * o.y.m) <= b * b && absi(a.z.m * o.x.m)
        <= b * b && absi(a.x.m * o.z.m) <= b * b && absi(a.x.m * o.y.m) <= b * b && absi(
        a.y.m * o.x.m,
    ) <= b * b) by (nonlinear_arith)
        requires
            0 <= b,
            vec_in(a, b),
            vec_in(o, b),
    ;
    assert(2 * b * b <= 2 * DOT_LIMIT * DOT_LIMIT) by (nonlinear_arith)
        requires
            0 <= b <= DOT_LIMIT,
    ;
}

/// A squared norm is nonnegative.
pub proof fn lemma_norm2_nonneg(v: Vec3)
    ensures
        norm2_m(v) >= 0,
        dot_num(v, v) >= 0,
{
    assert(dot_num(v, v) >= 0) by (nonlinear_arith);
    crate::fixed::lemma_tdiv_shrinks(dot_num(v, v), SCALE as int);
}

/// The squared norm of a vector within the dot-product bound is small
/// enough for the fixed-point square root.
pub proof fn lemma_norm2_bound(v: Vec3)
    requires
        vec_in(v, DOT_LIMIT as int),
    ensures
        0 <= norm2_m(v) <= 14855280471424563298789490688,
        norm2_m(v) * SCALE <= i128::MAX,
{
    lemma_norm2_nonneg(v);
    lemma_dot_num_fits(v, v, DOT_LIMIT as int);
    assert(3 * (DOT_LIMIT as int) * (DOT_LIMIT as int) == 14855280471424563298789490688int * (
    SCALE as int));
    crate::fixed::lemma_tdiv_bound(
        dot_num(v, v),
        SCALE as int,
        14855280471424563298789490688int,
    );
}

} // verus!

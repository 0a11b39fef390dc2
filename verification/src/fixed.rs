//! The scalar type of the renderer: a signed binary fixed-point number.
//!
//! A `Fixed` holds a value as an integer mantissa `m`, read as the real
//! number `m / SCALE`.  Every arithmetic operation states exactly which
//! mantissa it produces, in terms of truncating integer division, so all
//! geometry built on top of it has a deterministic, fully specified result.

use vstd::prelude::*;
use vstd::arithmetic::div_mod::{
    lemma_div_by_multiple, lemma_div_is_ordered, lemma_div_is_ordered_by_denominator,
    lemma_div_nonincreasing, lemma_div_pos_is_pos,
};

verus! {

/// The denominator of the fixed-point representation: 2^32.
pub const SCALE: i128 = 4294967296;

/// Magnitude of a mathematical integer.
pub open spec fn absi(x: int) -> int {
    if x >= 0 {
        x
    } else {
        -x
    }
}

/// Truncating (round-toward-zero) division on mathematical integers,
/// mirroring what hardware signed division computes.
pub open spec fn tdiv(x: int, d: int) -> int {
    if x == 0 {
        0
    } else if x > 0 && d > 0 {
        x / d
    } else if x < 0 && d < 0 {
        (x * -1) / (d * -1)
    } else if x < 0 {
        ((x * -1) / d) * -1
    } else {
        (x / (d * -1)) * -1
    }
}

/// The mantissa of a fixed-point product: (a/S)*(b/S) = ((a*b)/S)/S.
pub open spec fn mul_m(a: int, b: int) -> int {
    tdiv(a * b, SCALE as int)
}

/// The mantissa of a fixed-point quotient: (a/S)/(b/S) = ((a*S)/b)/S.
pub open spec fn div_m(a: int, b: int) -> int {
    tdiv(a * SCALE, b)
}

/// Floor of the square root of a nonnegative integer.
pub open spec fn isqrt_s(x: int) -> int
    decreases x,
{
    if x < 1 {
        0
    } else {
        let p = isqrt_s(x - 1);
        if (p + 1) * (p + 1) <= x {
            p + 1
        } else {
            p
        }
    }
}

/// The mantissa of a fixed-point square root: sqrt(m/S) = sqrt(m*S)/S.
pub open spec fn sqrt_m(x: int) -> int {
    isqrt_s(x * SCALE)
}

/// Truncation never grows magnitude: a quotient by a positive divisor
/// stays within any symmetric bound that the numerator respects.
pub proof fn lemma_tdiv_bound(x: int, d: int, b: int)
    requires
        d > 0,
        b >= 0,
        -(b * d) <= x <= b * d,
    ensures
        -b <= tdiv(x, d) <= b,
{
    if x > 0 {
        lemma_div_pos_is_pos(x, d);
        lemma_div_is_ordered(x, b * d, d);
        lemma_div_by_multiple(b, d);
    } else if x < 0 {
        lemma_div_pos_is_pos(-x, d);
        lemma_div_is_ordered(-x, b * d, d);
        lemma_div_by_multiple(b, d);
    }
}

/// A quotient by a divisor of magnitude at least one is no larger in
/// magnitude than the numerator, and keeps or flips its sign as the
/// divisor's sign dictates.
pub proof fn lemma_tdiv_shrinks(x: int, d: int)
    requires
        d >= 1,
    ensures
        absi(tdiv(x, d)) <= absi(x),
        x >= 0 ==> 0 <= tdiv(x, d) <= x,
        x <= 0 ==> x <= tdiv(x, d) <= 0,
{
    if x > 0 {
        lemma_div_pos_is_pos(x, d);
        lemma_div_nonincreasing(x, d);
    } else if x < 0 {
        lemma_div_pos_is_pos(-x, d);
        lemma_div_nonincreasing(-x, d);
    }
}

/// Magnitudes multiply: a product of bounded factors is bounded by the
/// product of the bounds.
pub proof fn lemma_mul_bound(a: int, b: int, ab: int, bb: int)
    requires
        absi(a) <= ab,
        absi(b) <= bb,
    ensures
        absi(a * b) <= ab * bb,
        -(ab * bb) <= a * b <= ab * bb,
{
    assert(absi(a * b) <= ab * bb && -(ab * bb) <= a * b <= ab * bb) by (nonlinear_arith)
        requires
            absi(a) <= ab,
            absi(b) <= bb,
            absi(a) == if a >= 0 {
                a
            } else {
                -a
            },
            absi(a * b) == if a * b >= 0 {
                a * b
            } else {
                -(a * b)
            },
    ;
}

/// A product of factors bounded by `al` and `bl` unit scales fits the
/// machine word, and its truncation back to the representation is
/// bounded by `al * bl` unit scales.
pub proof fn lemma_scaled_prod(a: int, b: int, al: int, bl: int)
    requires
        0 <= al,
        0 <= bl,
        al * bl <= 4611686018427387904,
        absi(a) <= al * SCALE,
        absi(b) <= bl * SCALE,
    ensures
        -(al * bl * SCALE * SCALE) <= a * b <= al * bl * SCALE * SCALE,
        i128::MIN <= a * b <= i128::MAX,
        -(al * bl * SCALE) <= tdiv(a * b, SCALE as int) <= al * bl * SCALE,
        absi(tdiv(a * b, SCALE as int)) <= al * bl * SCALE,
{
    assert(-(al * bl * SCALE * SCALE) <= a * b <= al * bl * SCALE * SCALE) by (nonlinear_arith)
        requires
            0 <= al,
            0 <= bl,
            absi(a) <= al * SCALE,
            absi(b) <= bl * SCALE,
            absi(a) == if a >= 0 {
                a
            } else {
                -a
            },
            absi(b) == if b >= 0 {
                b
            } else {
                -b
            },
    ;
    assert(al * bl * SCALE * SCALE <= 4611686018427387904 * (SCALE as int) * (SCALE as int)
        && 0 <= al * bl * SCALE) by (nonlinear_arith)
        requires
            0 <= al,
            0 <= bl,
            al * bl <= 4611686018427387904,
    ;
    assert((al * bl * SCALE) * SCALE == al * bl * SCALE * SCALE) by (nonlinear_arith);
    lemma_tdiv_bound(a * b, SCALE as int, al * bl * SCALE);
}

/// Dividing by a value of at least one unit never grows magnitude.
pub proof fn lemma_div_m_shrinks(a: int, b: int)
    requires
        b >= SCALE,
    ensures
        absi(div_m(a, b)) <= absi(a),
        -absi(a) <= div_m(a, b) <= absi(a),
{
    assert(-(absi(a) * b) <= a * SCALE <= absi(a) * b) by (nonlinear_arith)
        requires
            b >= SCALE,
            SCALE == 4294967296,
            absi(a) == if a >= 0 {
                a
            } else {
                -a
            },
    ;
    lemma_tdiv_bound(a * SCALE, b, absi(a));
}

/// A truncated product of two values in `[0, 1]` stays in `[0, 1]`,
/// and below either factor.
pub proof fn lemma_unit_mul_range(a: int, b: int)
    requires
        0 <= a <= SCALE,
        0 <= b <= SCALE,
    ensures
        0 <= mul_m(a, b) <= a,
        mul_m(a, b) <= SCALE,
{
    assert(0 <= a * b <= a * SCALE) by (nonlinear_arith)
        requires
            0 <= a,
            0 <= b <= SCALE,
    ;
    lemma_tdiv_bound(a * b, SCALE as int, a);
    lemma_tdiv_shrinks(a * b, SCALE as int);
}

/// On nonnegative numerators and positive divisors, truncating and
/// Euclidean division coincide.
pub proof fn lemma_tdiv_is_euclidean(x: int, d: int)
    requires
        x >= 0,
        d > 0,
    ensures
        tdiv(x, d) == x / d,
{
    if x == 0 {
        vstd::arithmetic::div_mod::lemma_div_of0(d);
    }
}

/// `isqrt_s` is the integer square root: the unique nonnegative integer
/// whose square is the last one not exceeding the argument.
pub proof fn lemma_isqrt_s(x: int)
    requires
        x >= 0,
    ensures
        isqrt_s(x) >= 0,
        isqrt_s(x) * isqrt_s(x) <= x,
        x < (isqrt_s(x) + 1) * (isqrt_s(x) + 1),
    decreases x,
{
    if x >= 1 {
        lemma_isqrt_s(x - 1);
        let p = isqrt_s(x - 1);
        if (p + 1) * (p + 1) <= x {
            assert(x == (p + 1) * (p + 1));
            assert((p + 2) * (p + 2) > (p + 1) * (p + 1)) by (nonlinear_arith)
                requires
                    p >= 0,
            ;
        }
    }
}

/// The integer square root of a perfect square is its root.
pub proof fn lemma_isqrt_exact(r: int)
    requires
        r >= 0,
    ensures
        isqrt_s(r * r) == r,
{
    lemma_isqrt_s(r * r);
    let q = isqrt_s(r * r);
    if q < r {
        assert((q + 1) * (q + 1) <= r * r) by (nonlinear_arith)
            requires
                0 <= q < r,
        ;
    }
    if q > r {
        assert(q * q > r * r) by (nonlinear_arith)
            requires
                0 <= r < q,
        ;
    }
}

/// A signed fixed-point number with a 32-bit fractional part.
#[derive(Clone, Copy, Debug, PartialEq, Eq, Structural)]
pub struct Fixed {
    /// The scaled mantissa; the value represented is `m / SCALE`.
    pub m: i128,
}

/// Truncating division of mantissas, the primitive every scaled
/// operation reduces to.
pub fn div_trunc(a: i128, b: i128) -> (r: i128)
    requires
        b != 0,
        !(a == i128::MIN && b == -1),
    ensures
        r == tdiv(a as int, b as int),
{
    proof {
        let x = a as int;
        let d = b as int;
        if x > 0 && d > 0 {
            lemma_div_pos_is_pos(x, d);
            lemma_div_nonincreasing(x, d);
        } else if x < 0 && d < 0 {
            lemma_div_pos_is_pos(-x, -d);
            if -d == 1 {
                lemma_div_by_multiple(-x, 1);
            } else {
                lemma_div_is_ordered_by_denominator(-x, 2, -d);
                lemma_div_is_ordered(-x, 2 * 85070591730234615865843651857942052864int, 2);
                lemma_div_by_multiple(85070591730234615865843651857942052864int, 2);
            }
        } else if x < 0 {
            lemma_div_pos_is_pos(-x, d);
            lemma_div_nonincreasing(-x, d);
        } else if x > 0 {
            lemma_div_pos_is_pos(x, -d);
            lemma_div_nonincreasing(x, -d);
        }
    }
    a.checked_div(b).unwrap()
}

impl Fixed {
    /// The zero value.
    pub fn zero() -> (r: Fixed)
        ensures
            r.m == 0,
    {
        Fixed { m: 0 }
    }

    /// The value one.
    pub fn one() -> (r: Fixed)
        ensures
            r.m == SCALE,
    {
        Fixed { m: SCALE }
    }

    /// The fixed-point image of a machine integer.
    pub fn from_int(i: i64) -> (r: Fixed)
        ensures
            r.m == i * SCALE,
    {
        Fixed { m: (i as i128) * SCALE }
    }

    /// The fixed-point image of the fraction `n / d`, truncated.
    pub fn from_ratio(n: i64, d: i64) -> (r: Fixed)
        requires
            d != 0,
        ensures
            r.m == tdiv(n * SCALE, d as int),
    {
        Fixed { m: div_trunc((n as i128) * SCALE, d as i128) }
    }

    /// Exact sum.
    pub fn add(self, o: Fixed) -> (r: Fixed)
        requires
            i128::MIN <= self.m + o.m <= i128::MAX,
        ensures
            r.m == self.m + o.m,
    {
        Fixed { m: self.m + o.m }
    }

    /// Exact difference.
    pub fn sub(self, o: Fixed) -> (r: Fixed)
        requires
            i128::MIN <= self.m - o.m <= i128::MAX,
        ensures
            r.m == self.m - o.m,
    {
        Fixed { m: self.m - o.m }
    }

    /// Exact negation.
    pub fn neg(self) -> (r: Fixed)
        requires
            self.m != i128::MIN,
        ensures
            r.m == -self.m,
    {
        Fixed { m: -self.m }
    }

    /// Product, truncated to the representation.
    pub fn mul(self, o: Fixed) -> (r: Fixed)
        requires
            i128::MIN <= self.m * o.m <= i128::MAX,
        ensures
            r.m == mul_m(self.m as int, o.m as int),
    {
        Fixed { m: div_trunc(self.m * o.m, SCALE) }
    }

    /// Quotient, truncated to the representation.
    pub fn div(self, o: Fixed) -> (r: Fixed)
        requires
            o.m != 0,
            i128::MIN < self.m * SCALE <= i128::MAX,
        ensures
            r.m == div_m(self.m as int, o.m as int),
    {
        Fixed { m: div_trunc(self.m * SCALE, o.m) }
    }

    /// Magnitude.
    pub fn abs(self) -> (r: Fixed)
        requires
            self.m != i128::MIN,
        ensures
            r.m == absi(self.m as int),
    {
        if self.m < 0 {
            Fixed { m: -self.m }
        } else {
            self
        }
    }

    /// The smaller of two values.
    pub fn min(self, o: Fixed) -> (r: Fixed)
        ensures
            r.m == if self.m <= o.m {
                self.m
            } else {
                o.m
            },
    {
        if self.m <= o.m {
            self
        } else {
            o
        }
    }

    /// The larger of two values.
    pub fn max(self, o: Fixed) -> (r: Fixed)
        ensures
            r.m == if self.m >= o.m {
                self.m
            } else {
                o.m
            },
    {
        if self.m >= o.m {
            self
        } else {
            o
        }
    }

    /// The value, forced into the closed range `[lo, hi]`.
    pub fn clamp(self, lo: Fixed, hi: Fixed) -> (r: Fixed)
        requires
            lo.m <= hi.m,
        ensures
            r.m == clamp_m(self.m as int, lo.m as int, hi.m as int),
    {
        if self.m < lo.m {
            lo
        } else if self.m > hi.m {
            hi
        } else {
            self
        }
    }

    /// Square root of a nonnegative value, truncated to the
    /// representation.
    pub fn sqrt(self) -> (r: Fixed)
        requires
            0 <= self.m,
            self.m * SCALE <= i128::MAX,
        ensures
            r.m == sqrt_m(self.m as int),
            r.m >= 0,
    {
        proof {
            lemma_isqrt_s(self.m * SCALE);
        }
        let x: u128 = (self.m * SCALE) as u128;
        let root: u128 = isqrt_u128(x);
        proof {
            lemma_isqrt_unique(x as int, root as int);
        }
        Fixed { m: root as i128 }
    }
}

/// Clamping on mantissas.
pub open spec fn clamp_m(x: int, lo: int, hi: int) -> int {
    if x < lo {
        lo
    } else if x > hi {
        hi
    } else {
        x
    }
}

/// Any nonnegative integer meeting the two-sided square bounds is the
/// integer square root.
pub proof fn lemma_isqrt_unique(x: int, r: int)
    requires
        x >= 0,
        r >= 0,
        r * r <= x,
        x < (r + 1) * (r + 1),
    ensures
        r == isqrt_s(x),
{
    lemma_isqrt_s(x);
    let q = isqrt_s(x);
    if q < r {
        assert((q + 1) * (q + 1) <= r * r) by (nonlinear_arith)
            requires
                0 <= q < r,
        ;
    }
    if q > r {
        assert((r + 1) * (r + 1) <= q * q) by (nonlinear_arith)
            requires
                0 <= r < q,
        ;
    }
}

/// Integer square root by bisection over the mantissa range.
pub fn isqrt_u128(x: u128) -> (r: u128)
    requires
        x < 170141183460469231731687303715884105728u128,
    ensures
        r * r <= x,
        x < (r + 1) * (r + 1),
        r < 18446744073709551616u128,
{
    let mut lo: u128 = 0;
    let mut hi: u128 = 18446744073709551616u128;
    proof {
        assert(hi * hi > x) by (nonlinear_arith)
            requires
                hi == 18446744073709551616u128,
                x < 170141183460469231731687303715884105728u128,
        ;
    }
    while lo + 1 < hi
        invariant
            lo < hi,
            hi <= 18446744073709551616u128,
            lo * lo <= x,
            x < hi * hi,
        decreases hi - lo,
    {
        let mid: u128 = lo + (hi - lo) / 2;
        proof {
            assert(mid * mid < 340282366920938463463374607431768211455u128) by (nonlinear_arith)
                requires
                    mid < 18446744073709551616u128,
            ;
        }
        if mid * mid <= x {
            lo = mid;
        } else {
            hi = mid;
        }
    }
    lo
}

} // verus!

//! Angle utilities: degree-to-radian conversion and a truncated-series
//! tangent for the camera's field-of-view geometry.
//!
//! Sine and cosine are ninth- and eighth-order Taylor polynomials,
//! accurate to a few millionths over a half-turn; the contracts pin the
//! computed polynomial values exactly.

use vstd::prelude::*;
use crate::fixed::{div_m, mul_m, tdiv, Fixed, SCALE};

verus! {

/// The circle constant, rounded down to the representation.
pub const PI_FIXED: i128 = 13493037704;

/// Mantissa of the radian measure of `d` degrees: `d * pi / 180`.
pub open spec fn deg2rad_m(d: int) -> int {
    div_m(mul_m(d, PI_FIXED as int), 180 * SCALE as int)
}

/// Mantissa of the sine polynomial
/// `x - x^3/6 + x^5/120 - x^7/5040 + x^9/362880`.
pub open spec fn sin_m(x: int) -> int {
    let x2 = mul_m(x, x);
    let x3 = mul_m(x2, x);
    let x5 = mul_m(x3, x2);
    let x7 = mul_m(x5, x2);
    let x9 = mul_m(x7, x2);
    x - tdiv(x3, 6) + tdiv(x5, 120) - tdiv(x7, 5040) + tdiv(x9, 362880)
}

/// Mantissa of the cosine polynomial
/// `1 - x^2/2 + x^4/24 - x^6/720 + x^8/40320`.
pub open spec fn cos_m(x: int) -> int {
    let x2 = mul_m(x, x);
    let x4 = mul_m(x2, x2);
    let x6 = mul_m(x4, x2);
    let x8 = mul_m(x6, x2);
    SCALE - tdiv(x2, 2) + tdiv(x4, 24) - tdiv(x6, 720) + tdiv(x8, 40320)
}

/// Mantissa of the tangent: the sine over the cosine of the
/// polynomial approximations, and zero where the cosine polynomial is
/// not positive (beyond a quarter turn).
pub open spec fn tan_m(x: int) -> int {
    if cos_m(x) <= 0 {
        0
    } else {
        div_m(sin_m(x), cos_m(x))
    }
}

/// Radians from degrees: `d * pi / 180`.
pub fn degrees_to_radians(degrees: Fixed) -> (r: Fixed)
    requires
        -(1024 * SCALE) <= degrees.m <= 1024 * SCALE,
    ensures
        r.m == deg2rad_m(degrees.m as int),
        -(180 * SCALE) <= degrees.m <= 180 * SCALE ==> -(4 * SCALE) <= r.m <= 4 * SCALE,
        -(90 * SCALE) <= degrees.m <= 90 * SCALE ==> -(2 * SCALE) <= r.m <= 2 * SCALE,
{
    proof {
        crate::fixed::lemma_scaled_prod(degrees.m as int, PI_FIXED as int, 1024, 4);
    }
    let scaled = degrees.mul(Fixed { m: PI_FIXED });
    proof {
        crate::fixed::lemma_tdiv_bound(scaled.m * SCALE, 180 * SCALE as int, 4096 * SCALE as int);
        assert((4096 * SCALE as int) * (180 * SCALE as int) == 737280 * (SCALE as int) * (
        SCALE as int)) by (nonlinear_arith);
        if -(180 * SCALE) <= degrees.m <= 180 * SCALE {
            crate::fixed::lemma_scaled_prod(degrees.m as int, PI_FIXED as int, 180, 4);
            assert((4 * SCALE as int) * (180 * SCALE as int) == 720 * (SCALE as int) * (
            SCALE as int)) by (nonlinear_arith);
            crate::fixed::lemma_tdiv_bound(scaled.m * SCALE, 180 * SCALE as int, 4 * SCALE as int);
        }
        if -(90 * SCALE) <= degrees.m <= 90 * SCALE {
            crate::fixed::lemma_scaled_prod(degrees.m as int, PI_FIXED as int, 90, 4);
            assert((2 * SCALE as int) * (180 * SCALE as int) == 360 * (SCALE as int) * (
            SCALE as int)) by (nonlinear_arith);
            crate::fixed::lemma_tdiv_bound(scaled.m * SCALE, 180 * SCALE as int, 2 * SCALE as int);
        }
    }
    scaled.div(Fixed::from_int(180))
}

/// The truncated-series tangent, defined for angles strictly inside a
/// quarter turn; where the cosine polynomial is not positive the
/// result is zero.
pub fn tan(x: Fixed) -> (r: Fixed)
    requires
        -(2 * SCALE) <= x.m <= 2 * SCALE,
    ensures
        r.m == tan_m(x.m as int),
        -(8 * SCALE * SCALE) <= r.m <= 8 * SCALE * SCALE,
{
    proof {
        crate::fixed::lemma_scaled_prod(x.m as int, x.m as int, 2, 2);
    }
    let x2 = x.mul(x);
    proof {
        crate::fixed::lemma_scaled_prod(x2.m as int, x.m as int, 4, 2);
    }
    let x3 = x2.mul(x);
    proof {
        crate::fixed::lemma_scaled_prod(x3.m as int, x2.m as int, 8, 4);
    }
    let x5 = x3.mul(x2);
    proof {
        crate::fixed::lemma_scaled_prod(x5.m as int, x2.m as int, 32, 4);
    }
    let x7 = x5.mul(x2);
    proof {
        crate::fixed::lemma_scaled_prod(x7.m as int, x2.m as int, 128, 4);
    }
    let x9 = x7.mul(x2);
    proof {
        crate::fixed::lemma_scaled_prod(x2.m as int, x2.m as int, 4, 4);
    }
    let x4 = x2.mul(x2);
    proof {
        crate::fixed::lemma_scaled_prod(x4.m as int, x2.m as int, 16, 4);
    }
    let x6 = x4.mul(x2);
    proof {
        crate::fixed::lemma_scaled_prod(x6.m as int, x2.m as int, 64, 4);
    }
    let x8 = x6.mul(x2);
    let sin = Fixed {
        m: x.m - crate::fixed::div_trunc(x3.m, 6) + crate::fixed::div_trunc(x5.m, 120)
            - crate::fixed::div_trunc(x7.m, 5040) + crate::fixed::div_trunc(x9.m, 362880),
    };
    let cos = Fixed {
        m: SCALE - crate::fixed::div_trunc(x2.m, 2) + crate::fixed::div_trunc(x4.m, 24)
            - crate::fixed::div_trunc(x6.m, 720) + crate::fixed::div_trunc(x8.m, 40320),
    };
    proof {
        crate::fixed::lemma_tdiv_bound(x3.m as int, 6, 2 * SCALE as int);
        crate::fixed::lemma_tdiv_bound(x5.m as int, 120, SCALE as int);
        crate::fixed::lemma_tdiv_bound(x7.m as int, 5040, SCALE as int);
        crate::fixed::lemma_tdiv_bound(x9.m as int, 362880, SCALE as int);
        crate::fixed::lemma_tdiv_shrinks(x2.m as int, 2);
        crate::fixed::lemma_tdiv_shrinks(x4.m as int, 24);
        crate::fixed::lemma_tdiv_shrinks(x6.m as int, 720);
        crate::fixed::lemma_tdiv_shrinks(x8.m as int, 40320);
        assert(-(7 * SCALE) <= sin.m <= 7 * SCALE);
    }
    if cos.m <= 0 {
        Fixed::zero()
    } else {
        proof {
            crate::fixed::lemma_tdiv_bound(sin.m * SCALE, cos.m as int, 8 * SCALE * SCALE);
            assert(-((8 * SCALE * SCALE) * cos.m) <= sin.m * SCALE <= (8 * SCALE * SCALE) * cos.m)
                by (nonlinear_arith)
                requires
                    cos.m >= 1,
                    -(7 * SCALE) <= sin.m <= 7 * SCALE,
                    SCALE == 4294967296,
            ;
        }
        sin.div(cos)
    }
}

} // verus!

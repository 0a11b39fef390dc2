//! Colour output: gamma-2 correction, clamping, quantization to one
//! byte per channel, and the plain-text `"R G B"` line for one pixel.

use vstd::prelude::*;
use crate::fixed::{clamp_m, sqrt_m, tdiv, Fixed, SCALE};
use crate::vec3::Vec3;

verus! {

/// The largest channel intensity that survives clamping: 0.999.
pub const INTENSITY_MAX: i128 = 4290672328;

/// Gamma-2 correction on mantissas: the square root of a positive
/// linear value, zero otherwise.
pub open spec fn gamma_m(x: int) -> int {
    if x > 0 {
        sqrt_m(x)
    } else {
        0
    }
}

/// The output byte for a linear channel value in `[0, 1]`: gamma
/// correction, clamping to `[0, 0.999]`, then scaling by 256.
pub open spec fn byte_of(x: int) -> int {
    tdiv(256 * clamp_m(gamma_m(x), 0, INTENSITY_MAX as int), SCALE as int)
}

/// The decimal digits of a nonnegative integer, as bytes.
pub open spec fn dec_rep(n: int) -> Seq<u8>
    decreases n,
{
    if n < 10 {
        seq![(48 + n) as u8]
    } else {
        dec_rep(n / 10).push((48 + n % 10) as u8)
    }
}

/// The `"R G B"` line emitted for one pixel, newline-terminated.
pub open spec fn colour_line(c: Vec3) -> Seq<u8> {
    dec_rep(byte_of(c.x.m as int)) + seq![32u8] + dec_rep(byte_of(c.y.m as int)) + seq![32u8]
        + dec_rep(byte_of(c.z.m as int)) + seq![10u8]
}

/// Gamma-2 correction: the square root of the linear value.
pub fn linear_to_gamma(linear_component: Fixed) -> (r: Fixed)
    requires
        linear_component.m <= SCALE,
    ensures
        r.m == gamma_m(linear_component.m as int),
{
    if linear_component.m > 0 {
        linear_component.sqrt()
    } else {
        Fixed::zero()
    }
}

/// Clamp a channel intensity to `[0, 0.999]`.
pub fn clamp_intensity(x: Fixed) -> (r: Fixed)
    ensures
        r.m == clamp_m(x.m as int, 0, INTENSITY_MAX as int),
{
    x.clamp(Fixed::zero(), Fixed { m: INTENSITY_MAX })
}

/// The output byte of one linear channel value.
pub fn quantize_channel(x: Fixed) -> (b: u8)
    requires
        0 <= x.m <= SCALE,
    ensures
        b as int == byte_of(x.m as int),
{
    let g = linear_to_gamma(x);
    proof {
        crate::fixed::lemma_isqrt_s(x.m * SCALE);
        if x.m > 0 {
            assert(g.m <= SCALE) by (nonlinear_arith)
                requires
                    g.m >= 0,
                    g.m * g.m <= x.m * SCALE,
                    0 < x.m <= SCALE,
                    SCALE == 4294967296,
            ;
        }
    }
    let c = clamp_intensity(g);
    let num: i128 = 256 * c.m;
    proof {
        crate::fixed::lemma_tdiv_is_euclidean(num as int, SCALE as int);
        vstd::arithmetic::div_mod::lemma_div_pos_is_pos(num as int, SCALE as int);
        vstd::arithmetic::div_mod::lemma_div_is_ordered(
            num as int,
            255 * SCALE + (SCALE - 1),
            SCALE as int,
        );
        vstd::arithmetic::div_mod::lemma_fundamental_div_mod_converse(
            255 * SCALE + (SCALE - 1),
            SCALE as int,
            255,
            SCALE - 1,
        );
    }
    let b: i128 = crate::fixed::div_trunc(num, SCALE);
    b as u8
}

/// The decimal digits of `n`, as bytes.
pub fn dec_bytes(n: u32) -> (r: Vec<u8>)
    ensures
        r@ == dec_rep(n as int),
    decreases n,
{
    if n < 10 {
        let mut v: Vec<u8> = Vec::new();
        v.push(48 + (n as u8));
        proof {
            assert(v@ =~= dec_rep(n as int));
        }
        v
    } else {
        proof {
            vstd::arithmetic::div_mod::lemma_div_decreases(n as int, 10);
            vstd::arithmetic::div_mod::lemma_div_pos_is_pos(n as int, 10);
            vstd::arithmetic::div_mod::lemma_mod_division_less_than_divisor(n as int, 10);
        }
        let mut v = dec_bytes(n / 10);
        v.push(48 + ((n % 10) as u8));
        proof {
            assert(v@ =~= dec_rep(n as int));
        }
        v
    }
}

/// The newline-terminated `"R G B"` text for one pixel whose linear
/// channels lie in `[0, 1]`.
pub fn write_colour(pixel_colour: Vec3) -> (out: Vec<u8>)
    requires
        0 <= pixel_colour.x.m <= SCALE,
        0 <= pixel_colour.y.m <= SCALE,
        0 <= pixel_colour.z.m <= SCALE,
    ensures
        out@ == colour_line(pixel_colour),
{
    let rb = quantize_channel(pixel_colour.x);
    let gb = quantize_channel(pixel_colour.y);
    let bb = quantize_channel(pixel_colour.z);
    let mut out = dec_bytes(rb as u32);
    out.push(32);
    let mut g_part = dec_bytes(gb as u32);
    out.append(&mut g_part);
    out.push(32);
    let mut b_part = dec_bytes(bb as u32);
    out.append(&mut b_part);
    out.push(10);
    proof {
        assert(out@ =~= colour_line(pixel_colour));
    }
    out
}

} // verus!

//! The renderer's source of randomness: an explicitly passed,
//! deterministically seedable generator, so that renders are
//! reproducible and parallel workers can be given independent streams.
//!
//! The raw bit stream comes from the xoshiro256+ generator of the
//! `rand_xoshiro` crate; everything derived from the bits is verified.

use vstd::prelude::*;
use crate::fixed::{absi, tdiv, Fixed, SCALE};

verus! {

#[verifier::external_type_specification]
#[verifier::external_body]
pub struct ExXoshiro256Plus(rand_xoshiro::Xoshiro256Plus);

/// A pseudo-random bit source with explicit, reproducible seeding.
pub struct Rng {
    inner: rand_xoshiro::Xoshiro256Plus,
}

impl Rng {
    /// Builds a generator from a seed.
    ///
    /// Relies on `rand::SeedableRng::seed_from_u64` for
    /// `rand_xoshiro::Xoshiro256Plus`: deterministic state expansion of
    /// the seed (via SplitMix64); nothing about the stream is assumed.
    #[verifier::external_body]
    pub fn new(seed: u64) -> (r: Rng) {
        Rng { inner: <rand_xoshiro::Xoshiro256Plus as rand::SeedableRng>::seed_from_u64(seed) }
    }

    /// Draws the next 64 bits of the stream.
    ///
    /// Relies on `rand::RngCore::next_u64` for
    /// `rand_xoshiro::Xoshiro256Plus`: returns the generator's next
    /// word and advances its state; no promise is made about the value.
    #[verifier::external_body]
    fn next_bits(&mut self) -> (r: u64) {
        rand::RngCore::next_u64(&mut self.inner)
    }
}

/// A sample in `[0, 1)`: thirty-two random bits as the fractional part.
pub fn random_double(rng: &mut Rng) -> (r: Fixed)
    ensures
        0 <= r.m < SCALE,
{
    let bits: u64 = rng.next_bits();
    Fixed { m: (bits % 4294967296u64) as i128 }
}

/// A sample in the half-open range `[min, max)`, as
/// `min + (max - min) * u` for a fresh draw `u` in `[0, 1)`; for an
/// ordered range the result is at least `min` and strictly below
/// `max`.
pub fn random_double_in(min: Fixed, max: Fixed, rng: &mut Rng) -> (r: Fixed)
    requires
        -36893488147419103232 <= min.m <= 36893488147419103232,
        -36893488147419103232 <= max.m <= 36893488147419103232,
    ensures
        exists|u: int|
            0 <= u < SCALE && r.m == min.m + #[trigger] tdiv((max.m - min.m) * u, SCALE as int),
        min.m <= max.m ==> min.m <= r.m <= max.m,
        min.m < max.m ==> r.m < max.m,
{
    let u = random_double(rng);
    let d = Fixed { m: max.m - min.m };
    proof {
        let dm = d.m as int;
        let um = u.m as int;
        assert(-(absi(dm) * (SCALE as int)) <= dm * um <= absi(dm) * (SCALE as int))
            by (nonlinear_arith)
            requires
                0 <= um < SCALE,
                absi(dm) == if dm >= 0 {
                    dm
                } else {
                    -dm
                },
        ;
    }
    let t = d.mul(u);
    proof {
        let dm = d.m as int;
        let um = u.m as int;
        crate::fixed::lemma_tdiv_bound(dm * um, SCALE as int, absi(dm));
        if dm >= 0 && tdiv(dm * um, SCALE as int) < 0 {
            crate::fixed::lemma_tdiv_shrinks(dm * um, SCALE as int);
            assert(dm * um >= 0) by (nonlinear_arith)
                requires
                    dm >= 0,
                    um >= 0,
            ;
        }
        if dm >= 1 {
            // The draw is below one, so the scaled offset stays
            // strictly below the range's width.
            assert(dm * um <= dm * SCALE - dm) by (nonlinear_arith)
                requires
                    dm >= 1,
                    0 <= um < SCALE,
            ;
            crate::fixed::lemma_tdiv_is_euclidean(dm * um, SCALE as int);
            vstd::arithmetic::div_mod::lemma_div_is_ordered(
                dm * um,
                dm * SCALE - 1,
                SCALE as int,
            );
            vstd::arithmetic::div_mod::lemma_fundamental_div_mod_converse(
                dm * SCALE - 1,
                SCALE as int,
                dm - 1,
                SCALE - 1,
            );
            assert(dm * SCALE - 1 == (SCALE as int) * (dm - 1) + (SCALE - 1)) by (nonlinear_arith);
            assert(tdiv(dm * um, SCALE as int) <= dm - 1);
        }
        assert(0 <= u.m < SCALE && t.m == tdiv((max.m - min.m) * u.m, SCALE as int));
    }
    min.add(t)
}

} // verus!

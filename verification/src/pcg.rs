//! The pseudo-random numbers that the static texture is made of.
//!
//! The numbers come from the PCG32 generator of the `rand_pcg` crate. Nothing
//! about them is proved here: the generator's output is given a name, and
//! what is drawn is trusted to be what that name stands for.

use rand_pcg::rand_core::{RngCore, SeedableRng};
use vstd::prelude::*;

verus! {

/// The number that a PCG32 generator seeded with `seed` hands out after
/// `index` earlier ones.
pub uninterp spec fn pcg32_output(seed: u64, index: u64) -> u32;

/// Seeds `rand_pcg::Pcg32` with `seed_from_u64`, skips `index` outputs with
/// `advance` and takes the next one with `next_u32`. The generator is
/// reproducible: the same seed and index give the same number on every run
/// and machine, which is all that the contract claims.
#[verifier::external_body]
pub(crate) fn pcg32_draw(seed: u64, index: u64) -> (r: u32)
    ensures
        r == pcg32_output(seed, index),
{
    let mut rng = rand_pcg::Pcg32::seed_from_u64(seed);
    rng.advance(index);
    rng.next_u32()
}

} // verus!

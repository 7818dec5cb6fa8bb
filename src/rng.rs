//! The random source of the stimulus generator, from the `rand` crate.

use rand::rngs::StdRng;
use rand::seq::SliceRandom;
use rand::{Rng, SeedableRng};
use vstd::prelude::*;

verus! {

/// rand's standard generator, held by the model and handed to each draw.
#[verifier::external_type_specification]
#[verifier::external_body]
pub struct ExStdRng(StdRng);

/// Relies on rand's `SeedableRng::seed_from_u64` for `StdRng`: a generator
/// seeded from a 64-bit value. Nothing is stated of its stream.
#[verifier::external_body]
pub(crate) fn seeded_rng(seed: u64) -> StdRng {
    StdRng::seed_from_u64(seed)
}

/// Relies on rand's `Rng::gen_range` over an inclusive range of `u32`: a
/// value between `lo` and `hi`, both included. It panics on an empty range,
/// which `requires` rules out.
#[verifier::external_body]
pub(crate) fn draw(rng: &mut StdRng, lo: u32, hi: u32) -> (r: u32)
    requires
        lo <= hi,
    ensures
        lo <= r <= hi,
{
    rng.gen_range(lo..=hi)
}

/// Relies on rand's `SliceRandom::shuffle` for slices: it only swaps
/// elements, so the vector keeps the same elements, in some order.
#[verifier::external_body]
pub(crate) fn shuffle(v: &mut Vec<u8>, rng: &mut StdRng)
    ensures
        final(v)@.to_multiset() == old(v)@.to_multiset(),
{
    v.shuffle(rng)
}

} // verus!

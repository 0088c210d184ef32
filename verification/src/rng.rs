//! The seeded random number generator of `rand`, and the few draws the
//! simulation makes from it.

use vstd::prelude::*;

use rand::seq::SliceRandom;
use rand::Rng;
use rand::SeedableRng;

use rand::rngs::StdRng;

use crate::utils::Position;

verus! {

/// `rand::rngs::StdRng`, carried through the library as an opaque value.
#[verifier::external_type_specification]
#[verifier::external_body]
pub struct ExStdRng(rand::rngs::StdRng);

/// Calls `StdRng::seed_from_u64`: a generator whose stream is fixed by `seed`.
/// Nothing is claimed of the generator's state.
#[verifier::external_body]
pub(crate) fn seeded_rng(seed: u64) -> StdRng {
    StdRng::seed_from_u64(seed)
}

/// Calls `Rng::gen_range` on the inclusive range `low..=high`; `rand` documents
/// that the value lies in the range and that an empty range panics, which the
/// `requires` rules out.
#[verifier::external_body]
pub(crate) fn random_in_range(rng: &mut StdRng, low: u32, high: u32) -> (v: u32)
    requires
        low <= high,
    ensures
        low <= v <= high,
{
    rng.gen_range(low..=high)
}

/// Calls `Rng::gen_range` on the half-open range `0..len`; the value is a valid
/// index, and an empty range (which panics) is ruled out by the `requires`.
#[verifier::external_body]
pub(crate) fn random_index(rng: &mut StdRng, len: usize) -> (i: usize)
    requires
        len > 0,
    ensures
        i < len,
{
    rng.gen_range(0..len)
}

/// Calls `SliceRandom::shuffle`, which permutes the slice in place by swaps:
/// the positions afterwards are those before, in some order.
#[verifier::external_body]
pub(crate) fn shuffle_positions(rng: &mut StdRng, positions: &mut Vec<Position>)
    ensures
        final(positions)@.to_multiset() == old(positions)@.to_multiset(),
{
    positions.shuffle(rng)
}

} // verus!

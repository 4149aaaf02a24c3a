use vstd::prelude::*;
use rand::rngs::StdRng;
use rand::seq::SliceRandom;
use rand::Rng;
use rand::SeedableRng;
use crate::types::Card;

verus! {

/// The seeded pseudo-random generator of the `rand` crate.
#[verifier::external_type_specification]
#[verifier::external_body]
pub struct ExStdRng(StdRng);

/// Trusted: `StdRng::seed_from_u64` (through `rand::SeedableRng`). Nothing is
/// claimed about the generator it returns.
#[verifier::external_body]
pub(crate) fn rng_from_seed(seed: u64) -> StdRng {
    StdRng::seed_from_u64(seed)
}

/// Trusted: `Rng::gen_range(0u8..100)` on a `StdRng`. rand documents that the
/// value lies in the half-open range; which value comes out is left open.
#[verifier::external_body]
pub(crate) fn gen_percent(rng: &mut StdRng) -> (r: u8)
    ensures
        r < 100,
{
    rng.gen_range(0u8..100)
}

/// Trusted: `Rng::gen_range(0..n)` over `usize` on a `StdRng`. rand panics on
/// an empty range (so `n > 0` is required) and otherwise returns a value of
/// the range; which one is left open.
#[verifier::external_body]
pub(crate) fn gen_index(rng: &mut StdRng, n: usize) -> (r: usize)
    requires
        n > 0,
    ensures
        r < n,
{
    rng.gen_range(0..n)
}

/// Trusted: `SliceRandom::shuffle` on a vector of cards. rand's shuffle is a
/// Fisher-Yates pass of swaps, so the result holds exactly the same cards;
/// their order is left open.
#[verifier::external_body]
pub(crate) fn shuffle_cards(cards: &mut Vec<Card>, rng: &mut StdRng)
    ensures
        final(cards)@.len() == old(cards)@.len(),
        final(cards)@.to_multiset() == old(cards)@.to_multiset(),
{
    cards.shuffle(rng)
}

} // verus!

//! The random source used by seeding.
//!
//! Randomness is injectable: the whole algorithm is seeded by one word, and
//! the pseudo-random stream drawn from that word is a fixed function of it,
//! which is what makes a clustering run reproducible.

use vstd::prelude::*;
use rand::SeedableRng;
use rand::RngCore;

verus! {

#[verifier::external_type_specification]
#[verifier::external_body]
pub struct ExStdRng(rand::rngs::StdRng);

/// The i-th word of the deterministic stream that rand's `StdRng` yields
/// after `seed_from_u64(seed)`. `StdRng` is a pure pseudo-random
/// algorithm, so for the rand version this crate locks, the word is a
/// function of the seed and the position alone, on every machine.
pub uninterp spec fn rng_word(seed: u64, i: int) -> u64;

/// A seeded pseudo-random word stream together with its position.
pub struct SeedStream {
    pub inner: rand::rngs::StdRng,
    pub seed: Ghost<u64>,
    pub drawn: Ghost<int>,
}

/// Relies on rand's `SeedableRng::seed_from_u64`: seeding a `StdRng` is a
/// pure computation, so the stream the generator will yield is fixed by
/// `seed` alone.
#[verifier::external_body]
pub(crate) fn seed_stream_new(seed: u64) -> (s: SeedStream)
    ensures
        s.seed@ == seed,
        s.drawn@ == 0,
{
    SeedStream {
        inner: rand::rngs::StdRng::seed_from_u64(seed),
        seed: Ghost(seed),
        drawn: Ghost(0),
    }
}

/// Relies on rand's `RngCore::next_u64` on `StdRng`: the generator is a
/// pure pseudo-random function, so its i-th output after seeding is a
/// function of the seed and of i alone.
#[verifier::external_body]
pub(crate) fn seed_stream_next(s: &mut SeedStream) -> (r: u64)
    ensures
        final(s).seed@ == old(s).seed@,
        final(s).drawn@ == old(s).drawn@ + 1,
        r == rng_word(old(s).seed@, old(s).drawn@),
{
    s.inner.next_u64()
}

/// Relies on `rand::random`: one word of operating-system-seeded entropy.
/// Nothing is promised of its value.
#[verifier::external_body]
pub(crate) fn fresh_seed() -> (r: u64) {
    rand::random::<u64>()
}

} // verus!

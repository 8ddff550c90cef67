//! The pseudo-random source behind Monte Carlo simulation and backtesting:
//! a thin trusted boundary around `rand`'s `StdRng`.
//!
//! A [`RandomSource`] is either seeded from a `u64` — then its output stream
//! is a pure function of that seed, named here [`stream_of_seed`] — or
//! seeded from operating-system entropy, in which case nothing is assumed
//! about its outputs. The ghost trace records which case holds and how many
//! values have been drawn, so callers can state exactly which stream
//! position each draw came from.

use vstd::prelude::*;
use rand::RngCore;
use rand::SeedableRng;

verus! {

/// Declares `rand::rngs::StdRng` so it can stand in fields; the verifier
/// treats its values as opaque.
#[verifier::external_type_specification]
#[verifier::external_body]
pub struct ExStdRng(rand::rngs::StdRng);

/// The `i`-th 64-bit value drawn from a `StdRng` built with
/// `StdRng::seed_from_u64(seed)`. The generator is the ChaCha12 cipher, so
/// this is a pure function of the seed and the position; it is named rather
/// than written out.
pub uninterp spec fn stream_of_seed(seed: u64, i: int) -> u64;

/// A pseudo-random source with a ghost record of its provenance: the seed
/// it was built from (`None` for operating-system entropy) and the number
/// of values drawn so far.
pub struct RandomSource {
    inner: rand::rngs::StdRng,
    trace: Ghost<(Option<u64>, int)>,
}

impl RandomSource {
    /// The seed this source was built from, if it was built
    /// deterministically.
    pub closed spec fn provenance(&self) -> Option<u64> {
        self.trace@.0
    }

    /// How many 64-bit values have been drawn from this source.
    pub closed spec fn drawn(&self) -> int {
        self.trace@.1
    }
}

/// Relies on rand 0.8's `StdRng::seed_from_u64`: construction from a `u64`
/// seed is deterministic (rand documents a change of it as value-breaking).
#[verifier::external_body]
fn stdrng_from_seed(seed: u64) -> rand::rngs::StdRng {
    rand::rngs::StdRng::seed_from_u64(seed)
}

/// Relies on rand 0.8's `StdRng::from_entropy`: a generator seeded by the
/// operating system. Nothing is assumed about its outputs; the underlying
/// call aborts only if the OS entropy source itself fails.
#[verifier::external_body]
fn stdrng_from_entropy() -> rand::rngs::StdRng {
    rand::rngs::StdRng::from_entropy()
}

/// A deterministic source: its stream is [`stream_of_seed`] of the seed.
pub(crate) fn source_from_seed(seed: u64) -> (r: RandomSource)
    ensures
        r.provenance() == Some(seed),
        r.drawn() == 0,
{
    RandomSource { inner: stdrng_from_seed(seed), trace: Ghost((Some(seed), 0int)) }
}

/// A non-deterministic source, seeded by the operating system.
pub(crate) fn source_from_entropy() -> (r: RandomSource)
    ensures
        r.provenance() == None::<u64>,
        r.drawn() == 0,
{
    RandomSource { inner: stdrng_from_entropy(), trace: Ghost((None, 0int)) }
}

/// Relies on rand_core 0.6's `RngCore::next_u64` for `StdRng`: the next
/// value is a pure function of the generator state, hence — for a seeded
/// source — of the seed and the number of values drawn before it.
#[verifier::external_body]
pub(crate) fn draw_u64(rng: &mut RandomSource) -> (u: u64)
    ensures
        final(rng).provenance() == old(rng).provenance(),
        final(rng).drawn() == old(rng).drawn() + 1,
        old(rng).provenance() matches Some(seed) ==> u == stream_of_seed(seed, old(rng).drawn()),
{
    rng.inner.next_u64()
}

} // verus!

//! The deterministic random stream: created once per run, seeded by an
//! explicit integer or from process entropy, and drawn from in call
//! order by translation and execution. The stream is threaded by
//! exclusive reference through every call that needs randomness, and a
//! ghost history records every draw so contracts can say exactly which
//! draws a call consumed.

use rand::RngCore;
use rand::SeedableRng;
use vstd::prelude::*;

verus! {

/// Declares rand's `SmallRng` so the library can hold one; its state is
/// opaque here.
#[verifier::external_type_specification]
#[verifier::external_body]
pub struct ExSmallRng(rand::rngs::SmallRng);

/// Declares rand's `ThreadRng` likewise.
#[verifier::external_type_specification]
#[verifier::external_body]
pub struct ExThreadRng(rand::rngs::ThreadRng);

/// Relies on rand's `SmallRng::seed_from_u64`: the generator built from
/// an explicit seed, whose draw sequence is a deterministic function of
/// that seed.
#[verifier::external_body]
fn small_rng_from_seed(seed: u64) -> (r: rand::rngs::SmallRng) {
    rand::rngs::SmallRng::seed_from_u64(seed)
}

/// Relies on rand's `rng()`: a generator seeded from process entropy.
#[verifier::external_body]
fn entropy_rng() -> (r: rand::rngs::ThreadRng) {
    rand::rng()
}

/// Relies on rand's `RngCore::next_u64` for `SmallRng`: the stream's
/// next 64 bits. Nothing is assumed of the value.
#[verifier::external_body]
fn small_rng_next(rng: &mut rand::rngs::SmallRng) -> (r: u64) {
    rng.next_u64()
}

/// Relies on rand's `RngCore::next_u64` for `ThreadRng`: the stream's
/// next 64 bits. Nothing is assumed of the value.
#[verifier::external_body]
fn thread_rng_next(rng: &mut rand::rngs::ThreadRng) -> (r: u64) {
    rng.next_u64()
}

/// Which source backs the stream.
enum RngSource {
    Seeded(rand::rngs::SmallRng),
    Entropy(rand::rngs::ThreadRng),
}

/// One pseudo-random stream, owned exclusively by a run. The ghost
/// `history` holds every value drawn so far, in draw order.
pub struct RngStream {
    source: RngSource,
    pub history: Ghost<Seq<u64>>,
}

impl RngStream {
    /// The values drawn so far, in order.
    pub closed spec fn draws(&self) -> Seq<u64> {
        self.history@
    }

    /// Draw the stream's next value.
    pub fn draw(&mut self) -> (r: u64)
        ensures
            final(self).draws() == old(self).draws().push(r),
    {
        let r = match &mut self.source {
            RngSource::Seeded(rng) => small_rng_next(rng),
            RngSource::Entropy(rng) => thread_rng_next(rng),
        };
        self.history = Ghost(self.history@.push(r));
        r
    }
}

/// Create a run's random stream: seeded, with a draw sequence that is a
/// deterministic function of the seed, when a seed is given; backed by
/// process entropy otherwise.
pub fn new_rng(seed: Option<u64>) -> (r: RngStream)
    ensures
        r.draws() == Seq::<u64>::empty(),
{
    let source = match seed {
        Some(s) => RngSource::Seeded(small_rng_from_seed(s)),
        None => RngSource::Entropy(entropy_rng()),
    };
    RngStream { source, history: Ghost(Seq::empty()) }
}

} // verus!

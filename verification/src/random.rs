//! The pseudo-random generators that initial weights and input noise are
//! drawn from. Nothing in this module is proved: it states what the rest of
//! the library takes for granted of the `rand` crate.
//!
//! The thread's generator depends on the system and can fail with it. A
//! caller that wants no part of that draws the words or the noise itself
//! and hands them to `Layer::from_words` or `TrainingData::add_inputs`.

use rand::rngs::StdRng;
use rand::rngs::ThreadRng;
use vstd::prelude::*;

verus! {

/// `rand::rngs::StdRng`, a generator whose state is not looked into.
#[verifier::external_type_specification]
#[verifier::external_body]
pub struct ExStdRng(StdRng);

/// `rand::rngs::ThreadRng`, a handle to the calling thread's generator.
#[verifier::external_type_specification]
#[verifier::external_body]
pub struct ExThreadRng(ThreadRng);

/// The word at position `index` of the stream of 64-bit words that a
/// generator made by `StdRng::seed_from_u64(seed)` yields.
pub uninterp spec fn seeded_word(seed: u64, index: nat) -> u64;

/// The word that `rng` yields after `index` more draws of a 64-bit word.
pub uninterp spec fn upcoming_word(rng: StdRng, index: nat) -> u64;

/// `SeedableRng::seed_from_u64` for `StdRng`: the generator built from a
/// 64-bit seed.
///
/// The seed is expanded and the stream computed without any other input, so
/// the words to come are a function of the seed alone.
#[verifier::external_body]
pub(crate) fn seeded_generator(seed: u64) -> (rng: StdRng)
    ensures
        forall|index: nat| #[trigger] upcoming_word(rng, index) == seeded_word(seed, index),
{
    <StdRng as rand::SeedableRng>::seed_from_u64(seed)
}

/// `RngCore::next_u64` for `StdRng`: hands out the next word of the
/// generator's stream, after which the generator stands one position further.
#[verifier::external_body]
pub(crate) fn next_seeded_word(rng: &mut StdRng) -> (word: u64)
    ensures
        word == upcoming_word(*old(rng), 0),
        forall|index: nat| #[trigger]
            upcoming_word(*final(rng), index) == upcoming_word(*old(rng), index + 1),
{
    rand::RngCore::next_u64(rng)
}

/// `rand::thread_rng`: a handle to the calling thread's generator, which is
/// seeded by the system. Nothing is known of what it will yield.
///
/// No argument decides whether the call returns: the first call on a thread
/// panics if the system gives no seed or refuses to register the handler
/// that watches for forks.
#[verifier::external_body]
pub(crate) fn thread_generator() -> (rng: ThreadRng) {
    rand::thread_rng()
}

/// `RngCore::next_u64` for `ThreadRng`: any word may come out.
///
/// The generator seeds itself anew from the system after every 64 KiB
/// drawn and after a fork, and panics if the system then gives no seed.
#[verifier::external_body]
pub(crate) fn next_thread_word(rng: &mut ThreadRng) -> (word: u64) {
    rand::RngCore::next_u64(rng)
}

} // verus!

//! Deterministic pseudo-random words.
//!
//! Both the Zobrist keys and the magic-factor search draw 64-bit words from a
//! ChaCha20 stream seeded with a fixed 32-byte seed, so that hash values and
//! table layouts are reproducible across runs.
use vstd::prelude::*;
use rand_chacha::ChaCha20Rng;
use rand_core::Rng;
use rand_core::SeedableRng;

verus! {

/// The `i`-th 64-bit word of the ChaCha20 output stream for `seed`.
/// ChaCha20 is a pure function of its seed, so the same seed gives the same
/// words in every process and on every machine.
pub uninterp spec fn chacha_word(seed: Seq<u8>, i: int) -> u64;

/// Relies on `rand_chacha::ChaCha20Rng::from_seed` and
/// `rand_core::Rng::next_u64`: a ChaCha20 generator built from a 32-byte seed
/// yields a word stream that depends on the seed alone (counter and stream id
/// both start at zero).
#[verifier::external_body]
pub fn chacha_words(seed: &Vec<u8>, n: usize) -> (r: Vec<u64>)
    requires
        seed@.len() == 32,
    ensures
        r@.len() == n,
        forall|i: int| 0 <= i < n ==> r@[i] == chacha_word(seed@, i),
{
    let mut key = [0u8; 32];
    key.copy_from_slice(seed.as_slice());
    let mut rng = ChaCha20Rng::from_seed(key);
    let mut out = Vec::with_capacity(n);
    for _ in 0..n {
        out.push(rng.next_u64());
    }
    out
}

} // verus!

//! The random source: every draw comes from a ChaCha20 generator that is
//! seeded from the operating system for that draw alone.

use rand::Rng;
use rand::SeedableRng;
use rand_chacha::ChaCha20Rng;
use vstd::prelude::*;

verus! {

/// `rand_chacha::ChaCha20Rng`, a generator whose state is never inspected here.
#[verifier::external_type_specification]
#[verifier::external_body]
pub struct ExChaCha20Rng(ChaCha20Rng);

/// `ChaCha20Rng::from_entropy`: a generator seeded by the operating system.
/// Nothing is claimed of the generator returned. The call takes no input, so
/// no precondition can rule out its one failure: it aborts the process when
/// the operating system cannot supply a seed.
#[verifier::external_body]
fn seeded_generator() -> ChaCha20Rng {
    ChaCha20Rng::from_entropy()
}

/// `Rng::gen_range` on the half-open range from zero to `bound`. The call
/// rejects an empty range, hence the precondition; what it returns lies in
/// the range. Which value of the range comes back is left open.
#[verifier::external_body]
fn sample_below(generator: &mut ChaCha20Rng, bound: usize) -> (index: usize)
    requires
        0 < bound,
    ensures
        index < bound,
{
    generator.gen_range(0..bound)
}

/// Draws an index below `bound` from a freshly seeded generator.
pub fn next_index(bound: usize) -> (index: usize)
    requires
        0 < bound,
    ensures
        index < bound,
{
    let mut generator = seeded_generator();
    sample_below(&mut generator, bound)
}

} // verus!

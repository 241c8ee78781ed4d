//! The search's only source of randomness: the `rand` crate's thread-local
//! generator, reached through two trusted wrappers.  Nothing is assumed of
//! which value comes back, only of its range, or of which values remain.

use vstd::prelude::*;

use rand::seq::SliceRandom;
use rand::RngExt;

verus! {

/// The thread-local random generator of the `rand` crate.
#[verifier::external_type_specification]
#[verifier::external_body]
pub struct ExThreadRng(rand::rngs::ThreadRng);

/// Relies on rand's `RngExt::random_range`: returns a value sampled from the
/// given range, and panics only when the range is empty.
#[verifier::external_body]
pub(crate) fn rand_below(rng: &mut rand::rngs::ThreadRng, lo: usize, hi: usize) -> (r: usize)
    requires
        lo < hi,
    ensures
        lo <= r < hi,
{
    rng.random_range(lo..hi)
}

/// Relies on rand's `SliceRandom::shuffle`: permutes the slice in place, so
/// it keeps exactly the same elements and the same length.
#[verifier::external_body]
pub(crate) fn shuffle_values(v: &mut Vec<u8>, rng: &mut rand::rngs::ThreadRng)
    ensures
        final(v)@.to_multiset() == old(v)@.to_multiset(),
        final(v)@.len() == old(v)@.len(),
{
    v.shuffle(rng)
}

} // verus!

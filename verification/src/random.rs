//! Draws from the thread's random number generator: fresh session and
//! flood ids, and shuffles.
use vstd::prelude::*;
use rand::seq::SliceRandom;

verus! {

/// Calls `rand::random::<u64>()`: any `u64` may come back, so nothing is
/// claimed of it.
#[verifier::external_body]
pub(crate) fn random_u64() -> (r: u64) {
    rand::random::<u64>()
}

/// Calls `SliceRandom::shuffle` with `rand::thread_rng()`: the elements are
/// swapped in place, so the result is a permutation of the input, the same
/// elements with the same multiplicities. Which permutation is left
/// unsaid: it rests on chance.
#[verifier::external_body]
pub(crate) fn shuffle<T>(v: &mut Vec<T>)
    ensures
        final(v)@.to_multiset() == old(v)@.to_multiset(),
{
    v.shuffle(&mut rand::thread_rng());
}

} // verus!

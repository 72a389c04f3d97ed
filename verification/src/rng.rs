//! Randomness, behind trusted wrappers.
//!
//! The scanner draws random numbers for jitter delays and shuffled
//! emission orders.  Nothing downstream may depend on more than what
//! these contracts state.

use rand::seq::SliceRandom;
use vstd::prelude::*;

verus! {

/// Relies on rand's random_range: the result is drawn from the half-open
/// range, which must not be empty.
#[verifier::external_body]
pub(crate) fn random_in_range(lo: u64, hi: u64) -> (r: u64)
    requires
        lo < hi,
    ensures
        lo <= r < hi,
{
    rand::random_range(lo..hi)
}

/// Relies on rand's SliceRandom::shuffle: the slice is reordered into a
/// random permutation, so the multiset of elements is unchanged.
#[verifier::external_body]
pub(crate) fn shuffle<T>(v: &mut Vec<T>)
    ensures
        final(v)@.to_multiset() == old(v)@.to_multiset(),
        final(v)@.len() == old(v)@.len(),
{
    v.shuffle(&mut rand::rng());
}

} // verus!

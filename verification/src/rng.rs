//! Trusted boundary to the rand crate: the library's only source of
//! entropy. Each wrapper states no more than the crate documents of
//! every outcome.

use vstd::prelude::*;
use rand::Rng;
use rand::seq::SliceRandom;

verus! {

#[verifier::external_type_specification]
#[verifier::external_body]
pub struct ExThreadRng(rand::rngs::ThreadRng);

/// Relies on rand::thread_rng: obtains the thread-local generator.
#[verifier::external_body]
pub(crate) fn new_rng() -> rand::rngs::ThreadRng {
    rand::thread_rng()
}

/// Relies on rand::Rng::gen for bool: a fair coin flip. Nothing is assumed
/// of the outcome.
#[verifier::external_body]
pub(crate) fn coin_flip(rng: &mut rand::rngs::ThreadRng) -> bool {
    rng.gen::<bool>()
}

/// Relies on rand::Rng::gen_range on an inclusive range: it panics only on
/// an empty range, and the sample lies within the bounds.
#[verifier::external_body]
pub(crate) fn sample_u64_inclusive(rng: &mut rand::rngs::ThreadRng, lower: u64, upper: u64) -> (r:
    u64)
    requires
        lower <= upper,
    ensures
        lower <= r <= upper,
{
    rng.gen_range(lower..=upper)
}

/// Relies on rand::seq::SliceRandom::shuffle: an in-place, unbiased
/// permutation of the elements, so the contents are preserved.
#[verifier::external_body]
pub(crate) fn shuffle_in_place(rng: &mut rand::rngs::ThreadRng, items: &mut Vec<usize>)
    ensures
        final(items)@.to_multiset() == old(items)@.to_multiset(),
        final(items)@.len() == old(items)@.len(),
{
    items.shuffle(rng)
}

} // verus!

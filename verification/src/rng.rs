//! The random source.
//!
//! Every random decision of the search is taken from one seeded ISAAC-64
//! generator.  The generator is opaque to the proofs: a draw may be any value
//! of its type, and whatever is built on a draw is proved for every value.

use rand::seq::IteratorRandom;
use rand::seq::SliceRandom;
use rand::Rng;
use rand::SeedableRng;
use rand_isaac::isaac64::Isaac64Rng;
use vstd::prelude::*;

verus! {

/// The ISAAC-64 generator of `rand_isaac`, carried through as an opaque value.
#[verifier::external_type_specification]
#[verifier::external_body]
pub struct ExIsaac64Rng(rand_isaac::isaac64::Isaac64Rng);

/// `SeedableRng::from_seed` of `Isaac64Rng`: a generator started from `seed`.
/// Nothing is claimed of the generator.
#[verifier::external_body]
pub(crate) fn seeded(seed: &[u8; 32]) -> Isaac64Rng {
    Isaac64Rng::from_seed(*seed)
}

/// `Rng::gen::<u32>`: the next 32 bits of the generator.  Nothing is claimed
/// of the value.
#[verifier::external_body]
pub(crate) fn draw_u32(rng: &mut Isaac64Rng) -> u32 {
    rng.gen::<u32>()
}

/// `Rng::gen::<u64>`: the next 64 bits of the generator.  Nothing is claimed
/// of the value.
#[verifier::external_body]
pub(crate) fn draw_u64(rng: &mut Isaac64Rng) -> u64 {
    rng.gen::<u64>()
}

/// `rand::seq::index::sample` followed by `IndexVec::into_vec`: `amount`
/// indices below `length`, no index twice, in an order that is not stated.
/// The outside function panics where `amount` exceeds `length`.
#[verifier::external_body]
pub(crate) fn sample_indices(rng: &mut Isaac64Rng, length: usize, amount: usize) -> (r: Vec<usize>)
    requires
        amount <= length,
    ensures
        r@.len() == amount,
        forall|i: int| 0 <= i < r@.len() ==> r@[i] < length,
        r@.no_duplicates(),
{
    rand::seq::index::sample(rng, length, amount).into_vec()
}

/// `SliceRandom::shuffle`: the same items in an order that is not stated.
#[verifier::external_body]
pub(crate) fn shuffle<T>(items: &mut Vec<T>, rng: &mut Isaac64Rng)
    ensures
        final(items)@.to_multiset() == old(items)@.to_multiset(),
{
    items.shuffle(rng)
}

/// `IteratorRandom::choose_multiple` on the items of a vector: `amount` of the
/// items, none taken from one position twice, in an order that is not stated.
/// The bound on `amount` keeps the outside function's reservation within the
/// length of `items`.
#[verifier::external_body]
pub(crate) fn choose_multiple(items: Vec<usize>, rng: &mut Isaac64Rng, amount: usize) -> (r: Vec<
    usize,
>)
    requires
        amount <= items@.len(),
    ensures
        r@.len() == amount,
        r@.to_multiset().subset_of(items@.to_multiset()),
{
    items.into_iter().choose_multiple(rng, amount)
}

} // verus!

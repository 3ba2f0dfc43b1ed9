//! Calls into `rand` that the game modes make, each with what holds of
//! every outcome.

use rand::seq::{IndexedRandom, IteratorRandom, SliceRandom};
use vstd::prelude::*;

verus! {

/// Shuffles `items` in place with `rand`'s [`SliceRandom::shuffle`] on the
/// thread-local generator. The contract claims only what holds of every
/// outcome: the result is a permutation of the input. Which permutation
/// comes out is left unsaid; it rests on chance.
#[verifier::external_body]
pub(crate) fn shuffle<T>(items: &mut [T])
    ensures
        final(items)@.len() == old(items)@.len(),
        final(items)@.to_multiset() == old(items)@.to_multiset(),
{
    items.shuffle(&mut rand::rng())
}

/// Fills `buf` with elements of `items` chosen at random, with `rand`'s
/// [`IteratorRandom::choose_multiple_fill`] on the thread-local generator.
///
/// The contract claims what the source shows of every outcome: the count
/// returned is `min(buf.len(), items.len())`; that many leading slots hold
/// items taken from distinct positions of `items` (all of them, in order,
/// when `items` fits in `buf`); the slots after them are left as they were.
/// Which items are chosen and in which order rests on chance.
#[verifier::external_body]
pub(crate) fn choose_multiple_fill(items: Vec<String>, buf: &mut [String]) -> (filled: usize)
    ensures
        final(buf)@.len() == old(buf)@.len(),
        filled as int == if items@.len() < old(buf)@.len() {
            items@.len() as int
        } else {
            old(buf)@.len() as int
        },
        final(buf)@.take(filled as int).to_multiset().subset_of(items@.to_multiset()),
        items@.len() <= old(buf)@.len() ==> final(buf)@.take(filled as int) == items@,
        final(buf)@.skip(filled as int) == old(buf)@.skip(filled as int),
{
    items.into_iter().choose_multiple_fill(&mut rand::rng(), buf)
}

/// Picks one element of `items` at random with `rand`'s
/// [`IndexedRandom::choose`] on the thread-local generator: `None` exactly
/// when `items` is empty, otherwise one of its elements. Which one rests on
/// chance.
#[verifier::external_body]
pub(crate) fn pick_one<T>(items: &[T]) -> (picked: Option<&T>)
    ensures
        items@.len() == 0 <==> picked is None,
        picked matches Some(p) ==> items@.contains(*p),
{
    items.choose(&mut rand::rng())
}

/// A fair coin toss from `rand`'s [`rand::random`]. Nothing is claimed of
/// the result: it rests on chance.
#[verifier::external_body]
pub(crate) fn coin_toss() -> bool {
    rand::random::<bool>()
}

} // verus!

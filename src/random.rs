//! The random choices that card effects make, taken from the `rand` crate.
use vstd::prelude::*;

use rand::seq::IteratorRandom;
use rand::seq::SliceRandom;

use crate::card::Card;

verus! {

/// Relies on rand's `IteratorRandom::choose`: it returns one element of the
/// iterator, and `None` if and only if the iterator is empty.
#[verifier::external_body]
pub(crate) fn choose_index(candidates: &Vec<usize>) -> (r: Option<usize>)
    ensures
        r.is_none() <==> candidates@.len() == 0,
        r matches Some(x) ==> candidates@.contains(x),
{
    candidates.iter().copied().choose(&mut rand::thread_rng())
}

/// Relies on rand's `SliceRandom::choose_multiple`: it yields
/// `min(amount, len)` elements of the slice, taken at distinct positions, so
/// they form a sub-multiset of the slice.
#[verifier::external_body]
pub(crate) fn choose_cards(cards: &Vec<Card>, amount: usize) -> (r: Vec<Card>)
    ensures
        r@.len() == if amount < cards@.len() { amount as int } else { cards@.len() as int },
        forall|j: int| 0 <= j < r@.len() ==> cards@.contains(#[trigger] r@[j]),
        r@.to_multiset().subset_of(cards@.to_multiset()),
{
    cards.choose_multiple(&mut rand::thread_rng(), amount).cloned().collect()
}

/// Relies on `rand::random::<bool>`: a fair coin; nothing is known of the outcome.
#[verifier::external_body]
pub(crate) fn coin_flip() -> (r: bool) {
    rand::random::<bool>()
}

} // verus!

use crate::card::Card;
use rand::rngs::StdRng;
use vstd::prelude::*;

verus! {

/// `rand::rngs::StdRng`, the seedable generator that the game draws from. Nothing is
/// known of its state.
#[verifier::external_type_specification]
#[verifier::external_body]
pub struct ExStdRng(rand::rngs::StdRng);

/// One of `candidates`, chosen uniformly at random by `rand::seq::IteratorRandom::choose`.
///
/// Trusted: the call returns `None` exactly when there is nothing to choose from, and
/// otherwise one of the items. Which one is not said, and two calls may differ.
#[verifier::external_body]
pub(crate) fn pick(candidates: &Vec<usize>, rng: &mut StdRng) -> (choice: Option<usize>)
    ensures
        choice is None <==> candidates@.len() == 0,
        choice is Some ==> candidates@.contains(choice->Some_0),
{
    rand::seq::IteratorRandom::choose(candidates.iter(), rng).copied()
}

/// Shuffles `cards` in place with `rand::seq::SliceRandom::shuffle`.
///
/// Trusted: the call only swaps items, so the cards afterwards are the cards before
/// in some order. Which order is not said.
#[verifier::external_body]
pub(crate) fn shuffle(cards: &mut Vec<Card>, rng: &mut StdRng)
    ensures
        final(cards)@.to_multiset() == old(cards)@.to_multiset(),
{
    rand::seq::SliceRandom::shuffle(cards.as_mut_slice(), rng)
}

} // verus!

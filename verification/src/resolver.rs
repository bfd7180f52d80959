use crate::card::Card;
use vstd::prelude::*;

verus! {

/// How a round ends.
#[derive(Clone, Copy, Debug, PartialEq, Eq, Structural)]
pub enum Outcome {
    /// Side A bid higher and takes the prize.
    AWinsPrize,
    /// Side B bid higher and takes the prize.
    BWinsPrize,
    /// The bids are equal and the prize is discarded.
    Tied,
}

/// The outcome of two bids: the higher bid wins, equal bids tie.
pub open spec fn outcome_of(bid_a: int, bid_b: int) -> Outcome {
    if bid_a > bid_b {
        Outcome::AWinsPrize
    } else if bid_a < bid_b {
        Outcome::BWinsPrize
    } else {
        Outcome::Tied
    }
}

/// The outcome with the sides exchanged.
pub open spec fn mirrored(outcome: Outcome) -> Outcome {
    match outcome {
        Outcome::AWinsPrize => Outcome::BWinsPrize,
        Outcome::BWinsPrize => Outcome::AWinsPrize,
        Outcome::Tied => Outcome::Tied,
    }
}

/// Decides a round from the two bids. The prize takes no part in the decision: it
/// only counts later, when the pools are summed.
pub fn resolve(prize: Card, bid_a: usize, bid_b: usize) -> (outcome: Outcome)
    ensures
        outcome == outcome_of(bid_a as int, bid_b as int),
{
    let _ = prize;
    if bid_a > bid_b {
        Outcome::AWinsPrize
    } else if bid_a < bid_b {
        Outcome::BWinsPrize
    } else {
        Outcome::Tied
    }
}

/// Exchanging the bids exchanges the winner and keeps a tie: the resolver is
/// antisymmetric.
pub proof fn lemma_resolve_antisymmetric(bid_a: int, bid_b: int)
    ensures
        outcome_of(bid_b, bid_a) == mirrored(outcome_of(bid_a, bid_b)),
        outcome_of(bid_a, bid_b) is AWinsPrize <==> outcome_of(bid_b, bid_a) is BWinsPrize,
        outcome_of(bid_a, bid_b) is BWinsPrize <==> outcome_of(bid_b, bid_a) is AWinsPrize,
        outcome_of(bid_a, bid_b) is Tied <==> outcome_of(bid_b, bid_a) is Tied,
{
}

/// Every pair of bids has exactly one outcome, and the bids alone decide which:
/// the resolver is total.
pub proof fn lemma_resolve_total(bid_a: int, bid_b: int)
    ensures
        outcome_of(bid_a, bid_b) is AWinsPrize <==> bid_a > bid_b,
        outcome_of(bid_a, bid_b) is BWinsPrize <==> bid_a < bid_b,
        outcome_of(bid_a, bid_b) is Tied <==> bid_a == bid_b,
        ({
            let o = outcome_of(bid_a, bid_b);
            &&& o is AWinsPrize || o is BWinsPrize || o is Tied
            &&& !(o is AWinsPrize && o is BWinsPrize)
            &&& !(o is AWinsPrize && o is Tied)
            &&& !(o is BWinsPrize && o is Tied)
        }),
{
}

} // verus!

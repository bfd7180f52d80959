use crate::card::{all_wf, full_suit, Card, GameError, Suit};
use crate::hand::{lemma_remaining_is_playable, playable, played, remaining, slots_of, Hand};
use crate::random::pick;
use rand::rngs::StdRng;
use vstd::prelude::*;

verus! {

/// The sum of the ranks of `cards`. An empty slot counts for nothing.
pub open spec fn total(cards: Seq<Card>) -> nat
    decreases cards.len(),
{
    if cards.len() == 0 {
        0
    } else {
        total(cards.drop_last()) + cards.last().value()
    }
}

/// What a side holds: the slots of its hand and the prizes that it has won.
#[verifier::ext_equal]
pub struct PlayerView {
    pub suit: Suit,
    pub slots: Seq<Card>,
    pub pool: Seq<Card>,
}

impl PlayerView {
    /// The hand is a hand of `suit`, and the pool holds at most thirteen well-formed cards.
    pub open spec fn wf(self) -> bool {
        &&& slots_of(self.suit, self.slots)
        &&& self.pool.len() <= 13
        &&& all_wf(self.pool)
    }

    /// The side once it has bid slot `index`.
    pub open spec fn bid(self, index: int) -> PlayerView {
        PlayerView { suit: self.suit, slots: played(self.slots, index), pool: self.pool }
    }

    /// The side once it has won `prize`.
    pub open spec fn award(self, prize: Card) -> PlayerView {
        PlayerView { suit: self.suit, slots: self.slots, pool: self.pool.push(prize) }
    }

    /// A side of `suit` that has neither played nor won anything.
    pub open spec fn fresh(suit: Suit) -> PlayerView {
        PlayerView { suit, slots: full_suit(suit), pool: Seq::empty() }
    }
}

/// One side of the game: its hand and its pool of winnings.
pub struct Player {
    hand: Hand,
    pool: Vec<Card>,
}

impl View for Player {
    type V = PlayerView;

    closed spec fn view(&self) -> PlayerView {
        PlayerView { suit: self.hand.spec_suit(), slots: self.hand@, pool: self.pool@ }
    }
}

impl Player {
    /// See `PlayerView::wf`.
    pub open spec fn wf(&self) -> bool {
        self@.wf()
    }

    /// A side that bids from `suit`, with a full hand and an empty pool.
    pub fn with_suit(suit: Suit) -> (player: Player)
        ensures
            player@ == PlayerView::fresh(suit),
            player.wf(),
    {
        Player { hand: Hand::new(suit), pool: Vec::new() }
    }

    /// The human side: a full hand of hearts and an empty pool.
    pub fn new() -> (player: Player)
        ensures
            player@ == PlayerView::fresh(Suit::Hearts),
            player.wf(),
    {
        Player::with_suit(Suit::Hearts)
    }

    /// The automated side: a full hand of spades and an empty pool.
    pub fn new_computer() -> (player: Player)
        ensures
            player@ == PlayerView::fresh(Suit::Spades),
            player.wf(),
    {
        Player::with_suit(Suit::Spades)
    }

    /// The side's hand.
    pub fn hand(&self) -> (hand: &Hand)
        ensures
            hand@ == self@.slots,
            hand.spec_suit() == self@.suit,
    {
        &self.hand
    }

    /// The prizes won so far, in the order in which they were won.
    pub fn pool(&self) -> (pool: &Vec<Card>)
        ensures
            pool@ == self@.pool,
    {
        &self.pool
    }

    /// Whether the slot at position `spot`, counted from zero, still holds a card.
    /// Position `spot` is slot number `spot + 1`.
    pub fn is_valid_choice(&self, spot: usize) -> (ok: bool)
        ensures
            ok == playable(self@.slots, spot + 1),
    {
        if spot >= self.hand.cards().len() {
            return false;
        }
        self.hand.is_playable(spot + 1)
    }

    /// Commits the bid `choice`, a slot number, if that slot can be played: its card
    /// leaves the hand and the bid is `choice`. Any other number is refused and nothing
    /// changes, so that the caller can ask again. There is no way to pass: 0 is refused
    /// like every other number that names no playable slot.
    pub fn get_choice(&mut self, choice: usize) -> (bid: Result<usize, GameError>)
        requires
            old(self).wf(),
        ensures
            final(self).wf(),
            playable(old(self)@.slots, choice as int) ==> bid == Ok::<usize, GameError>(choice)
                && final(self)@ == old(self)@.bid(choice as int),
            !playable(old(self)@.slots, choice as int) ==> bid == Err::<usize, GameError>(
                GameError::InvalidBidIndex,
            ) && final(self)@ == old(self)@,
    {
        if choice != 0 && self.is_valid_choice(choice - 1) {
            self.hand.play(choice);
            Ok(choice)
        } else {
            Err(GameError::InvalidBidIndex)
        }
    }

    /// Bids a slot chosen at random among those that can still be played, and commits
    /// it. With nothing left to play the bidder fails and nothing changes.
    pub fn get_rand(&mut self, rng: &mut StdRng) -> (bid: Result<usize, GameError>)
        requires
            old(self).wf(),
        ensures
            final(self).wf(),
            remaining(old(self)@.slots).len() == 0 ==> bid == Err::<usize, GameError>(
                GameError::EmptyHandExhausted,
            ) && final(self)@ == old(self)@,
            remaining(old(self)@.slots).len() > 0 ==> bid is Ok,
            bid is Ok ==> remaining(old(self)@.slots).contains(bid->Ok_0) && playable(
                old(self)@.slots,
                bid->Ok_0 as int,
            ) && final(self)@ == old(self)@.bid(bid->Ok_0 as int),
    {
        let choices = self.hand.remaining_indices();
        match pick(&choices, rng) {
            Some(choice) => {
                proof {
                    lemma_remaining_is_playable(self@.slots, choice);
                }
                self.get_choice(choice)
            },
            None => Err(GameError::EmptyHandExhausted),
        }
    }

    /// Adds a won prize to the pool.
    pub fn award(&mut self, prize: Card)
        requires
            old(self).wf(),
            old(self)@.pool.len() < 13,
            prize.wf(),
        ensures
            final(self).wf(),
            final(self)@ == old(self)@.award(prize),
    {
        self.pool.push(prize);
    }

    /// The side's score: the sum of the ranks in its pool.
    pub fn accumulate(&self) -> (sum: u8)
        requires
            self.wf(),
        ensures
            sum == total(self@.pool),
    {
        let mut sum: u8 = 0;
        let mut i: usize = 0;
        while i < self.pool.len()
            invariant
                i <= self.pool@.len() <= 13,
                all_wf(self.pool@),
                sum == total(self.pool@.take(i as int)),
                sum <= 13 * i,
            decreases self.pool@.len() - i,
        {
            proof {
                assert(self.pool@.take(i + 1).drop_last() =~= self.pool@.take(i as int));
            }
            sum = sum + self.pool[i].num().unwrap_or(0);
            i = i + 1;
        }
        assert(self.pool@.take(i as int) =~= self.pool@);
        sum
    }
}

/// The total is the sum of the ranks: an empty pool counts nothing, and each prize
/// that is won raises the total by its rank.
pub proof fn lemma_total_sums_ranks(cards: Seq<Card>, prize: Card)
    ensures
        total(Seq::<Card>::empty()) == 0,
        total(cards.push(prize)) == total(cards) + prize.value(),
{
    assert(cards.push(prize).drop_last() =~= cards);
}

} // verus!

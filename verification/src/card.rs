use vstd::prelude::*;

verus! {

/// What can go wrong in a game.
#[derive(Clone, Copy, Debug, PartialEq, Eq, Structural)]
pub enum GameError {
    /// A card was asked for with a rank outside `ACE..=KING`.
    InvalidRank,
    /// A bid named a slot that is out of range or already played.
    InvalidBidIndex,
    /// The automated bidder was asked to bid from a hand with nothing left in it.
    EmptyHandExhausted,
}

/// The four suits of a standard deck.
#[derive(Clone, Copy, Debug, PartialEq, Eq, Structural)]
pub enum Suit {
    Clubs,
    Hearts,
    Spades,
    Diamonds,
}

/// A playing card, or the empty placeholder that a played card leaves behind.
#[derive(Clone, Copy, Debug, PartialEq, Eq, Structural)]
pub enum Card {
    /// No card: an empty slot.
    Empty,
    /// A card of the given suit and rank.
    Regular(Suit, u8),
}

/// The thirteen cards of one suit, ace first.
pub open spec fn full_suit(suit: Suit) -> Seq<Card> {
    Seq::new(13, |i: int| Card::Regular(suit, (i + 1) as u8))
}

/// Every card of `cards` is well formed.
pub open spec fn all_wf(cards: Seq<Card>) -> bool {
    forall|i: int| 0 <= i < cards.len() ==> (#[trigger] cards[i]).wf()
}

/// The thirteen cards of `suit`, ace first.
pub fn suit_cards(suit: Suit) -> (cards: Vec<Card>)
    ensures
        cards@ == full_suit(suit),
        all_wf(cards@),
{
    let mut cards: Vec<Card> = Vec::new();
    let mut rank: u8 = Card::ACE;
    while rank <= Card::KING
        invariant
            1 <= rank <= 14,
            cards@.len() == rank - 1,
            forall|i: int|
                0 <= i < cards@.len() ==> cards@[i] == Card::Regular(suit, (i + 1) as u8),
        decreases 14 - rank,
    {
        cards.push(Card::Regular(suit, rank));
        rank = rank + 1;
    }
    cards
}

impl Card {
    /// The lowest rank.
    pub const ACE: u8 = 1;

    /// The highest rank.
    pub const KING: u8 = 13;

    /// The rank of a card; an empty slot has none.
    pub open spec fn rank(self) -> Option<u8> {
        match self {
            Card::Empty => None,
            Card::Regular(_, r) => Some(r),
        }
    }

    /// What a card counts for when a pool is summed: its rank, or 0 for an empty slot.
    pub open spec fn value(self) -> nat {
        match self {
            Card::Empty => 0,
            Card::Regular(_, r) => r as nat,
        }
    }

    /// A card is well formed when it is empty or its rank lies in `ACE..=KING`.
    pub open spec fn wf(self) -> bool {
        match self {
            Card::Empty => true,
            Card::Regular(_, r) => Card::ACE <= r <= Card::KING,
        }
    }

    /// What `make` returns.
    pub open spec fn made(suit: Suit, rank: u8) -> Result<Card, GameError> {
        if Card::ACE <= rank <= Card::KING {
            Ok(Card::Regular(suit, rank))
        } else {
            Err(GameError::InvalidRank)
        }
    }

    /// Builds the card of the given suit and rank. A rank outside `ACE..=KING` is
    /// rejected, never clamped.
    pub fn make(suit: Suit, rank: u8) -> (r: Result<Card, GameError>)
        ensures
            r == Card::made(suit, rank),
            r is Ok <==> Card::ACE <= rank <= Card::KING,
    {
        if Card::ACE <= rank && rank <= Card::KING {
            Ok(Card::Regular(suit, rank))
        } else {
            Err(GameError::InvalidRank)
        }
    }

    /// Whether the card is well formed.
    pub fn is_valid(&self) -> (ok: bool)
        ensures
            ok == self.wf(),
    {
        match self {
            Card::Regular(_, r) => Card::ACE <= *r && *r <= Card::KING,
            Card::Empty => true,
        }
    }

    /// The rank of the card, or `None` for an empty slot.
    pub fn num(&self) -> (r: Option<u8>)
        ensures
            r == self.rank(),
    {
        match self {
            Card::Regular(_, r) => Some(*r),
            Card::Empty => None,
        }
    }

    /// Empties the slot.
    pub fn to_none(&mut self)
        ensures
            *final(self) == Card::Empty,
    {
        *self = Card::Empty
    }
}

/// A card made from a rank in `ACE..=KING` has that rank, and no other rank makes a card.
pub proof fn lemma_make_keeps_rank(suit: Suit, rank: u8)
    ensures
        1 <= rank <= 13 ==> Card::made(suit, rank) is Ok
            && Card::made(suit, rank)->Ok_0.rank() == Some(rank)
            && Card::made(suit, rank)->Ok_0.wf(),
        !(1 <= rank <= 13) ==> Card::made(suit, rank) == Err::<Card, GameError>(
            GameError::InvalidRank,
        ),
{
}

} // verus!

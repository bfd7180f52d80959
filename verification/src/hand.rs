use crate::card::{full_suit, suit_cards, Card, Suit};
use vstd::prelude::*;

verus! {

/// The slot numbers `1..=n`, in order. Slots are numbered from one, as ranks are.
pub open spec fn slot_numbers(n: nat) -> Seq<usize> {
    Seq::new(n, |i: int| (i + 1) as usize)
}

/// Slot `index` can be played: it exists and still holds a card.
pub open spec fn playable(cards: Seq<Card>, index: int) -> bool {
    1 <= index <= cards.len() && cards[index - 1] != Card::Empty
}

/// `playable` as a predicate on slot numbers.
pub open spec fn open_slot(cards: Seq<Card>) -> spec_fn(usize) -> bool {
    |k: usize| playable(cards, k as int)
}

/// The playable slot numbers, in ascending order.
pub open spec fn remaining(cards: Seq<Card>) -> Seq<usize> {
    slot_numbers(cards.len()).filter(open_slot(cards))
}

/// The slots once slot `index` has been played.
pub open spec fn played(cards: Seq<Card>, index: int) -> Seq<Card> {
    cards.update(index - 1, Card::Empty)
}

/// The slots of a hand of `suit`: slot `i` is empty or holds the card of rank `i`.
pub open spec fn slots_of(suit: Suit, cards: Seq<Card>) -> bool {
    &&& cards.len() == 13
    &&& forall|i: int|
        0 <= i < 13 ==> #[trigger] cards[i] == Card::Empty || cards[i] == Card::Regular(
            suit,
            (i + 1) as u8,
        )
}

/// A side's biddable cards: one slot per rank, emptied as the cards are played.
pub struct Hand {
    suit: Suit,
    cards: Vec<Card>,
}

impl View for Hand {
    type V = Seq<Card>;

    /// The thirteen slots, ace first.
    closed spec fn view(&self) -> Seq<Card> {
        self.cards@
    }
}

impl Hand {
    /// The suit that every card of the hand has.
    pub closed spec fn spec_suit(&self) -> Suit {
        self.suit
    }

    /// Thirteen slots, of which slot `i` is empty or holds the card of rank `i`
    /// in the hand's suit. So no rank occurs twice.
    pub open spec fn wf(&self) -> bool {
        slots_of(self.spec_suit(), self@)
    }

    /// A full hand of `suit`: ranks ace to king, nothing played.
    pub fn new(suit: Suit) -> (hand: Hand)
        ensures
            hand.wf(),
            hand.spec_suit() == suit,
            hand@ == full_suit(suit),
    {
        Hand { suit, cards: suit_cards(suit) }
    }

    /// The suit of the hand.
    #[verifier::when_used_as_spec(spec_suit)]
    pub fn suit(&self) -> (suit: Suit)
        ensures
            suit == self.spec_suit(),
    {
        self.suit
    }

    /// The slots as they stand, ace first.
    pub fn cards(&self) -> (cards: &Vec<Card>)
        ensures
            cards@ == self@,
    {
        &self.cards
    }

    /// Whether slot `index` can be played: `1 <= index <= 13` and the slot is not empty.
    pub fn is_playable(&self, index: usize) -> (ok: bool)
        ensures
            ok == playable(self@, index as int),
    {
        if index == 0 || index > self.cards.len() {
            return false;
        }
        match self.cards[index - 1] {
            Card::Empty => false,
            Card::Regular(_, _) => true,
        }
    }

    /// Plays slot `index`: the slot is emptied and the card that it held is returned.
    /// Its rank is `index`.
    pub fn play(&mut self, index: usize) -> (card: Card)
        requires
            old(self).wf(),
            playable(old(self)@, index as int),
        ensures
            final(self).wf(),
            final(self).spec_suit() == old(self).spec_suit(),
            final(self)@ == played(old(self)@, index as int),
            card == old(self)@[index - 1],
            card == Card::Regular(old(self).spec_suit(), index as u8),
    {
        let card = self.cards[index - 1];
        self.cards[index - 1].to_none();
        card
    }

    /// The playable slot numbers, in ascending order.
    pub fn remaining_indices(&self) -> (indices: Vec<usize>)
        ensures
            indices@ == remaining(self@),
    {
        let n = self.cards.len();
        let mut indices: Vec<usize> = Vec::new();
        let mut i: usize = 0;
        while i < n
            invariant
                n == self.cards@.len(),
                i <= n,
                indices@ == slot_numbers(i as nat).filter(open_slot(self.cards@)),
            decreases n - i,
        {
            let index = i + 1;
            proof {
                assert(slot_numbers(index as nat) =~= slot_numbers(i as nat).push(index));
                slot_numbers(i as nat).lemma_filter_push(index, open_slot(self.cards@));
            }
            if self.is_playable(index) {
                indices.push(index);
            }
            i = index;
        }
        indices
    }
}

/// Of the slot numbers `1..=n`, the playable ones are at most `n`, and they ascend.
proof fn lemma_prefix_ascending(cards: Seq<Card>, n: nat)
    requires
        n <= usize::MAX,
    ensures
        forall|i: int|
            0 <= i < slot_numbers(n).filter(open_slot(cards)).len() ==> 1 <= #[trigger] slot_numbers(
                n,
            ).filter(open_slot(cards))[i] <= n,
        forall|i: int, j: int|
            0 <= i < j < slot_numbers(n).filter(open_slot(cards)).len() ==> slot_numbers(n).filter(
                open_slot(cards),
            )[i] < slot_numbers(n).filter(open_slot(cards))[j],
    decreases n,
{
    if n == 0 {
        assert(slot_numbers(0).filter(open_slot(cards)).len() == 0) by {
            slot_numbers(0).lemma_filter_len(open_slot(cards));
        }
    } else {
        let before = slot_numbers((n - 1) as nat);
        lemma_prefix_ascending(cards, (n - 1) as nat);
        assert(slot_numbers(n) =~= before.push(n as usize));
        before.lemma_filter_push(n as usize, open_slot(cards));
    }
}

/// Playing slot `index` leaves the playable slots below it as they were, and takes
/// one away from those up to any `n` from `index` on.
proof fn lemma_prefix_after_play(cards: Seq<Card>, index: int, n: nat)
    requires
        playable(cards, index),
        n <= cards.len() <= usize::MAX,
    ensures
        n < index ==> slot_numbers(n).filter(open_slot(played(cards, index))) == slot_numbers(
            n,
        ).filter(open_slot(cards)),
        n >= index ==> slot_numbers(n).filter(open_slot(played(cards, index))).len()
            == slot_numbers(n).filter(open_slot(cards)).len() - 1,
    decreases n,
{
    let after = played(cards, index);
    if n == 0 {
        assert(slot_numbers(0).filter(open_slot(after)) =~= slot_numbers(0).filter(
            open_slot(cards),
        )) by {
            slot_numbers(0).lemma_filter_len(open_slot(after));
            slot_numbers(0).lemma_filter_len(open_slot(cards));
        }
    } else {
        let before = slot_numbers((n - 1) as nat);
        lemma_prefix_after_play(cards, index, (n - 1) as nat);
        assert(slot_numbers(n) =~= before.push(n as usize));
        before.lemma_filter_push(n as usize, open_slot(cards));
        before.lemma_filter_push(n as usize, open_slot(after));
    }
}

/// A slot number is among the remaining ones exactly when the slot is playable.
pub proof fn lemma_remaining_is_playable(cards: Seq<Card>, index: usize)
    requires
        cards.len() <= usize::MAX,
    ensures
        remaining(cards).contains(index) <==> playable(cards, index as int),
{
    let all = slot_numbers(cards.len());
    if playable(cards, index as int) {
        all.lemma_filter_contains(open_slot(cards), index - 1);
    }
    if remaining(cards).contains(index) {
        all.lemma_filter_contains_rev(open_slot(cards), index);
    }
}

/// The remaining slot numbers lie in `1..=len` and strictly ascend, so none occurs twice.
pub proof fn lemma_remaining_ascending(cards: Seq<Card>)
    requires
        cards.len() <= usize::MAX,
    ensures
        remaining(cards).len() <= cards.len(),
        forall|i: int|
            0 <= i < remaining(cards).len() ==> 1 <= #[trigger] remaining(cards)[i] <= cards.len(),
        forall|i: int, j: int|
            0 <= i < j < remaining(cards).len() ==> remaining(cards)[i] < remaining(cards)[j],
{
    lemma_prefix_ascending(cards, cards.len());
    slot_numbers(cards.len()).lemma_filter_len(open_slot(cards));
}

/// In a full hand every slot is playable: the remaining slot numbers are `1..=13`.
pub proof fn lemma_full_hand_remaining(suit: Suit)
    ensures
        slots_of(suit, full_suit(suit)),
        remaining(full_suit(suit)) == slot_numbers(13),
        remaining(full_suit(suit)).len() == 13,
        forall|index: int| 1 <= index <= 13 ==> playable(full_suit(suit), index),
{
    let cards = full_suit(suit);
    assert forall|n: nat| n <= 13 implies #[trigger] slot_numbers(n).filter(open_slot(cards))
        == slot_numbers(n) by {
        lemma_full_prefix(suit, n);
    }
}

/// Of a full hand, every slot number up to `n` is playable.
proof fn lemma_full_prefix(suit: Suit, n: nat)
    requires
        n <= 13,
    ensures
        slot_numbers(n).filter(open_slot(full_suit(suit))) == slot_numbers(n),
    decreases n,
{
    let cards = full_suit(suit);
    if n == 0 {
        assert(slot_numbers(0).filter(open_slot(cards)) =~= slot_numbers(0)) by {
            slot_numbers(0).lemma_filter_len(open_slot(cards));
        }
    } else {
        let before = slot_numbers((n - 1) as nat);
        lemma_full_prefix(suit, (n - 1) as nat);
        assert(slot_numbers(n) =~= before.push(n as usize));
        before.lemma_filter_push(n as usize, open_slot(cards));
    }
}

/// Playing a playable slot takes exactly that slot number out of the remaining ones:
/// the slot is no longer playable, every other slot is playable as before, and one
/// slot number fewer remains.
pub proof fn lemma_play_removes_slot(cards: Seq<Card>, index: usize)
    requires
        cards.len() <= usize::MAX,
        playable(cards, index as int),
    ensures
        !playable(played(cards, index as int), index as int),
        !remaining(played(cards, index as int)).contains(index),
        forall|k: usize|
            k != index ==> (#[trigger] remaining(played(cards, index as int)).contains(k)
                <==> remaining(cards).contains(k)),
        remaining(played(cards, index as int)).len() == remaining(cards).len() - 1,
{
    let after = played(cards, index as int);
    lemma_remaining_is_playable(after, index);
    assert forall|k: usize| k != index implies (#[trigger] remaining(after).contains(k)
        <==> remaining(cards).contains(k)) by {
        lemma_remaining_is_playable(after, k);
        lemma_remaining_is_playable(cards, k);
    }
    lemma_prefix_after_play(cards, index as int, cards.len());
}

/// A full hand from which one card was played has twelve slot numbers left, and the
/// played one is not among them.
pub proof fn lemma_full_hand_after_play(suit: Suit, index: usize)
    requires
        1 <= index <= 13,
    ensures
        remaining(played(full_suit(suit), index as int)).len() == 12,
        !remaining(played(full_suit(suit), index as int)).contains(index),
        !playable(played(full_suit(suit), index as int), index as int),
{
    lemma_full_hand_remaining(suit);
    lemma_play_removes_slot(full_suit(suit), index);
}

} // verus!

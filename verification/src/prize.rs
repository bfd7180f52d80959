use crate::card::{all_wf, full_suit, suit_cards, Card, Suit};
use crate::random::shuffle;
use rand::rngs::StdRng;
use vstd::prelude::*;
use vstd::seq_lib::to_multiset_contains;

verus! {

/// The suit that the prizes are dealt from.
pub open spec fn prize_suit() -> Suit {
    Suit::Diamonds
}

/// `card` can be a prize: it is a card of the prize suit with a rank from ace to king.
pub open spec fn is_prize(card: Card) -> bool {
    card matches Card::Regular(suit, rank) && suit == prize_suit() && Card::ACE <= rank
        <= Card::KING
}

/// `cards` can be a prize pool: at most thirteen prizes, and none of them twice.
pub open spec fn is_prize_pool(cards: Seq<Card>) -> bool {
    &&& cards.len() <= 13
    &&& forall|i: int| 0 <= i < cards.len() ==> is_prize(#[trigger] cards[i])
    &&& cards.no_duplicates()
}

/// `cards` is a full deal: the thirteen prizes, each once, in some order.
pub open spec fn is_prize_deal(cards: Seq<Card>) -> bool {
    cards.to_multiset() == full_suit(prize_suit()).to_multiset()
}

/// Whether `cards` can be a prize pool.
pub fn check_prize_pool(cards: &Vec<Card>) -> (ok: bool)
    ensures
        ok == is_prize_pool(cards@),
{
    if cards.len() > 13 {
        return false;
    }
    let mut i: usize = 0;
    while i < cards.len()
        invariant
            i <= cards@.len(),
            forall|a: int| 0 <= a < i ==> is_prize(#[trigger] cards@[a]),
            forall|a: int, b: int| 0 <= a < b < i ==> cards@[a] != cards@[b],
        decreases cards@.len() - i,
    {
        let prize = match cards[i] {
            Card::Regular(Suit::Diamonds, _) => cards[i].is_valid(),
            _ => false,
        };
        if !prize {
            return false;
        }
        let mut j: usize = 0;
        while j < i
            invariant
                j <= i < cards@.len(),
                forall|a: int| 0 <= a < j ==> cards@[a] != cards@[i as int],
            decreases i - j,
        {
            if cards[j] == cards[i] {
                return false;
            }
            j = j + 1;
        }
        i = i + 1;
    }
    true
}

impl Card {
    /// A fresh prize pool: the thirteen diamonds, shuffled once. The pool is drained
    /// in the order that the shuffle gave, never shuffled again.
    pub fn new_prize_pool(rng: &mut StdRng) -> (pool: Vec<Card>)
        ensures
            is_prize_deal(pool@),
            pool@.len() == 13,
            all_wf(pool@),
    {
        let mut pool = suit_cards(Suit::Diamonds);
        shuffle(&mut pool, rng);
        proof {
            lemma_same_cards(pool@, full_suit(Suit::Diamonds));
        }
        pool
    }
}

/// Two sequences that hold the same cards equally often have the same length and
/// the same members; if the cards of one are well formed, so are those of the other.
pub proof fn lemma_same_cards(a: Seq<Card>, b: Seq<Card>)
    requires
        a.to_multiset() == b.to_multiset(),
    ensures
        a.len() == b.len(),
        forall|card: Card| a.contains(card) <==> b.contains(card),
        all_wf(b) ==> all_wf(a),
{
    a.to_multiset_ensures();
    b.to_multiset_ensures();
    assert forall|card: Card| a.contains(card) <==> b.contains(card) by {
        to_multiset_contains(a, card);
        to_multiset_contains(b, card);
    }
    if all_wf(b) {
        assert forall|i: int| 0 <= i < a.len() implies (#[trigger] a[i]).wf() by {
            assert(b.contains(a[i]));
        }
    }
}

/// A full deal is a prize pool of thirteen cards.
pub proof fn lemma_deal_is_pool(cards: Seq<Card>)
    requires
        is_prize_deal(cards),
    ensures
        is_prize_pool(cards),
        cards.len() == 13,
{
    let full = full_suit(prize_suit());
    lemma_same_cards(cards, full);
    assert forall|i: int| 0 <= i < cards.len() implies is_prize(#[trigger] cards[i]) by {
        assert(full.contains(cards[i]));
    }
    full.lemma_multiset_has_no_duplicates();
    cards.lemma_multiset_has_no_duplicates_conv();
}

/// In a full deal every rank from ace to king occurs exactly once.
pub proof fn lemma_prize_deal_ranks(cards: Seq<Card>, rank: u8)
    requires
        is_prize_deal(cards),
        1 <= rank <= 13,
    ensures
        cards.len() == 13,
        cards.to_multiset().count(Card::Regular(prize_suit(), rank)) == 1,
{
    let full = full_suit(prize_suit());
    lemma_same_cards(cards, full);
    lemma_full_suit_counts(prize_suit(), rank);
}

/// The full suit holds each of its cards once.
pub proof fn lemma_full_suit_counts(suit: Suit, rank: u8)
    requires
        1 <= rank <= 13,
    ensures
        full_suit(suit).to_multiset().count(Card::Regular(suit, rank)) == 1,
{
    let full = full_suit(suit);
    let card = Card::Regular(suit, rank);
    full.lemma_multiset_has_no_duplicates();
    assert(full[rank - 1] == card);
    full.to_multiset_ensures();
}

} // verus!

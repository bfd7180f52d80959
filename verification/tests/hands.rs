use goofspiel::card::{Card, Suit};
use goofspiel::hand::Hand;

#[test]
fn a_new_hand_holds_every_rank_of_its_suit() {
    let hand = Hand::new(Suit::Hearts);
    assert_eq!(hand.suit(), Suit::Hearts);
    assert_eq!(hand.cards().len(), 13);
    for (i, card) in hand.cards().iter().enumerate() {
        assert_eq!(*card, Card::Regular(Suit::Hearts, i as u8 + 1));
    }
}

#[test]
fn a_new_hand_has_all_thirteen_indices_remaining() {
    let hand = Hand::new(Suit::Spades);
    assert_eq!(hand.remaining_indices(), vec![1, 2, 3, 4, 5, 6, 7, 8, 9, 10, 11, 12, 13]);
}

#[test]
fn only_slots_one_to_thirteen_are_playable() {
    let hand = Hand::new(Suit::Clubs);
    assert!(!hand.is_playable(0));
    for index in 1..=13 {
        assert!(hand.is_playable(index));
    }
    assert!(!hand.is_playable(14));
    assert!(!hand.is_playable(usize::MAX));
}

#[test]
fn playing_a_slot_removes_exactly_that_index() {
    for index in 1usize..=13 {
        let mut hand = Hand::new(Suit::Hearts);
        let card = hand.play(index);
        assert_eq!(card, Card::Regular(Suit::Hearts, index as u8));
        assert_eq!(card.num(), Some(index as u8));
        assert_eq!(hand.cards()[index - 1], Card::Empty);
        assert!(!hand.is_playable(index));
        let left = hand.remaining_indices();
        assert_eq!(left.len(), 12);
        assert!(!left.contains(&index));
        let expected: Vec<usize> = (1..=13).filter(|k| *k != index).collect();
        assert_eq!(left, expected);
    }
}

#[test]
fn remaining_indices_ascend_and_shrink_until_the_hand_is_empty() {
    let mut hand = Hand::new(Suit::Diamonds);
    let order = [7usize, 1, 13, 4, 10, 2, 12, 3, 9, 5, 11, 6, 8];
    let mut played: Vec<usize> = Vec::new();
    for index in order {
        assert!(hand.is_playable(index));
        hand.play(index);
        played.push(index);
        let left = hand.remaining_indices();
        assert_eq!(left.len(), 13 - played.len());
        for pair in left.windows(2) {
            assert!(pair[0] < pair[1]);
        }
        for k in 1..=13 {
            assert_eq!(left.contains(&k), !played.contains(&k));
            assert_eq!(hand.is_playable(k), !played.contains(&k));
        }
    }
    assert_eq!(hand.remaining_indices(), Vec::<usize>::new());
    assert_eq!(hand.suit(), Suit::Diamonds);
}

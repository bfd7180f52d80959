use goofspiel::card::{Card, Suit};
use goofspiel::resolver::{resolve, Outcome};

#[test]
fn the_higher_bid_wins_and_equal_bids_tie() {
    let prize = Card::Regular(Suit::Diamonds, 5);
    assert_eq!(resolve(prize, 10, 4), Outcome::AWinsPrize);
    assert_eq!(resolve(prize, 1, 6), Outcome::BWinsPrize);
    assert_eq!(resolve(prize, 9, 9), Outcome::Tied);
    assert_eq!(resolve(prize, 13, 12), Outcome::AWinsPrize);
    assert_eq!(resolve(prize, 1, 13), Outcome::BWinsPrize);
}

#[test]
fn exchanging_the_bids_exchanges_the_winner() {
    let prize = Card::Regular(Suit::Diamonds, 8);
    for a in 1usize..=13 {
        for b in 1usize..=13 {
            let there = resolve(prize, a, b);
            let back = resolve(prize, b, a);
            match there {
                Outcome::AWinsPrize => assert_eq!(back, Outcome::BWinsPrize),
                Outcome::BWinsPrize => assert_eq!(back, Outcome::AWinsPrize),
                Outcome::Tied => assert_eq!(back, Outcome::Tied),
            }
            assert_eq!(there == Outcome::AWinsPrize, a > b);
            assert_eq!(there == Outcome::BWinsPrize, a < b);
            assert_eq!(there == Outcome::Tied, a == b);
        }
    }
}

#[test]
fn the_prize_does_not_decide_the_round() {
    for a in 1usize..=13 {
        for b in 1usize..=13 {
            let with_ace = resolve(Card::Regular(Suit::Diamonds, 1), a, b);
            let with_king = resolve(Card::Regular(Suit::Diamonds, 13), a, b);
            let with_nothing = resolve(Card::Empty, a, b);
            assert_eq!(with_ace, with_king);
            assert_eq!(with_ace, with_nothing);
        }
    }
}

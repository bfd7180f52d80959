use goofspiel::card::{Card, Suit};
use goofspiel::render::decimal_string;

fn lines(text: [&str; 5]) -> Vec<String> {
    text.iter().map(|line| line.to_string()).collect()
}

#[test]
fn each_suit_has_its_symbol() {
    assert_eq!(Card::Regular(Suit::Clubs, 2).suit_sym(), '♣');
    assert_eq!(Card::Regular(Suit::Hearts, 2).suit_sym(), '♥');
    assert_eq!(Card::Regular(Suit::Spades, 2).suit_sym(), '♠');
    assert_eq!(Card::Regular(Suit::Diamonds, 2).suit_sym(), '♦');
    assert_eq!(Card::Empty.suit_sym(), ' ');
}

#[test]
fn court_cards_and_the_ace_show_a_letter() {
    assert_eq!(Card::Regular(Suit::Clubs, 1).rank_sym(), "A");
    assert_eq!(Card::Regular(Suit::Clubs, 11).rank_sym(), "J");
    assert_eq!(Card::Regular(Suit::Clubs, 12).rank_sym(), "Q");
    assert_eq!(Card::Regular(Suit::Clubs, 13).rank_sym(), "K");
    assert_eq!(Card::Empty.rank_sym(), "");
}

#[test]
fn the_other_ranks_show_their_number() {
    for rank in 2u8..=10 {
        assert_eq!(Card::Regular(Suit::Hearts, rank).rank_sym(), rank.to_string());
    }
    assert_eq!(Card::Regular(Suit::Hearts, 0).rank_sym(), "0");
    assert_eq!(Card::Regular(Suit::Hearts, 14).rank_sym(), "14");
    assert_eq!(Card::Regular(Suit::Hearts, 200).rank_sym(), "200");
}

#[test]
fn decimal_string_writes_every_byte() {
    for n in 0u8..=255 {
        assert_eq!(decimal_string(n), n.to_string());
    }
}

#[test]
fn the_ace_of_hearts_is_drawn_in_a_box() {
    let drawn = Card::Regular(Suit::Hearts, 1).draw().to_vec();
    assert_eq!(drawn, lines(["┌─────┐", "│A    │", "│♥   ♥│", "│    A│", "└─────┘"]));
}

#[test]
fn a_ten_fills_both_columns_of_its_corner() {
    let drawn = Card::Regular(Suit::Spades, 10).draw().to_vec();
    assert_eq!(drawn, lines(["┌─────┐", "│10   │", "│♠   ♠│", "│   10│", "└─────┘"]));
}

#[test]
fn an_empty_slot_is_drawn_as_an_empty_box() {
    let drawn = Card::Empty.draw().to_vec();
    assert_eq!(drawn, lines(["┌─────┐", "│     │", "│     │", "│     │", "└─────┘"]));
}

#[test]
fn a_rank_of_three_digits_widens_the_box() {
    let drawn = Card::Regular(Suit::Diamonds, 200).draw().to_vec();
    assert_eq!(drawn, lines(["┌─────┐", "│200   │", "│♦   ♦│", "│   200│", "└─────┘"]));
}

#[test]
fn cards_are_drawn_side_by_side() {
    let cards = vec![Card::Regular(Suit::Clubs, 13), Card::Empty, Card::Regular(Suit::Diamonds, 7)];
    assert_eq!(
        Card::draw_row(&cards),
        lines([
            "┌─────┐┌─────┐┌─────┐",
            "│K    ││     ││7    │",
            "│♣   ♣││     ││♦   ♦│",
            "│    K││     ││    7│",
            "└─────┘└─────┘└─────┘"
        ])
    );
}

#[test]
fn a_row_of_no_cards_is_five_empty_lines() {
    assert_eq!(Card::draw_row(&Vec::new()), lines(["", "", "", "", ""]));
}

#[test]
fn a_row_of_one_card_is_its_drawing() {
    for rank in 1u8..=13 {
        let card = Card::Regular(Suit::Hearts, rank);
        assert_eq!(Card::draw_row(&vec![card]), card.draw().to_vec());
    }
}

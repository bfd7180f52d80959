use goofspiel::card::{Card, GameError, Suit};
use goofspiel::player::Player;
use rand::rngs::StdRng;
use rand::SeedableRng;

#[test]
fn the_player_bids_hearts_and_the_computer_spades() {
    let player = Player::new();
    let computer = Player::new_computer();
    assert_eq!(player.hand().suit(), Suit::Hearts);
    assert_eq!(computer.hand().suit(), Suit::Spades);
    assert_eq!(player.hand().cards()[0], Card::Regular(Suit::Hearts, 1));
    assert_eq!(computer.hand().cards()[12], Card::Regular(Suit::Spades, 13));
    assert!(player.pool().is_empty());
    assert!(computer.pool().is_empty());
    assert_eq!(Player::with_suit(Suit::Clubs).hand().suit(), Suit::Clubs);
}

#[test]
fn is_valid_choice_counts_positions_from_zero() {
    let mut player = Player::new();
    for spot in 0..13 {
        assert!(player.is_valid_choice(spot));
    }
    assert!(!player.is_valid_choice(13));
    assert!(!player.is_valid_choice(usize::MAX));
    assert_eq!(player.get_choice(1), Ok(1));
    assert!(!player.is_valid_choice(0));
    assert!(player.is_valid_choice(1));
}

#[test]
fn get_choice_commits_a_playable_slot() {
    let mut player = Player::new();
    assert_eq!(player.get_choice(5), Ok(5));
    assert_eq!(player.hand().cards()[4], Card::Empty);
    assert_eq!(player.hand().remaining_indices().len(), 12);
    assert!(player.pool().is_empty());
}

#[test]
fn get_choice_refuses_what_cannot_be_played() {
    let mut player = Player::new();
    assert_eq!(player.get_choice(0), Err(GameError::InvalidBidIndex));
    assert_eq!(player.get_choice(14), Err(GameError::InvalidBidIndex));
    assert_eq!(player.get_choice(usize::MAX), Err(GameError::InvalidBidIndex));
    assert_eq!(player.hand().remaining_indices().len(), 13);
    assert_eq!(player.get_choice(13), Ok(13));
    assert_eq!(player.get_choice(13), Err(GameError::InvalidBidIndex));
    assert_eq!(player.hand().remaining_indices().len(), 12);
}

#[test]
fn get_rand_plays_each_slot_once_and_then_fails() {
    for seed in 0u64..20 {
        let mut rng = StdRng::seed_from_u64(seed);
        let mut computer = Player::new_computer();
        let mut bids: Vec<usize> = Vec::new();
        for _ in 0..13 {
            let before = computer.hand().remaining_indices();
            let bid = computer.get_rand(&mut rng).unwrap();
            assert!(before.contains(&bid));
            assert!(!computer.hand().is_playable(bid));
            assert_eq!(computer.hand().remaining_indices().len(), before.len() - 1);
            bids.push(bid);
        }
        bids.sort();
        assert_eq!(bids, vec![1, 2, 3, 4, 5, 6, 7, 8, 9, 10, 11, 12, 13]);
        assert_eq!(computer.get_rand(&mut rng), Err(GameError::EmptyHandExhausted));
        assert_eq!(computer.hand().remaining_indices().len(), 0);
    }
}

#[test]
fn get_rand_does_not_always_bid_the_same_slot() {
    let mut first_bids: Vec<usize> = Vec::new();
    for seed in 0u64..40 {
        let mut rng = StdRng::seed_from_u64(seed);
        let mut computer = Player::new_computer();
        first_bids.push(computer.get_rand(&mut rng).unwrap());
    }
    first_bids.sort();
    first_bids.dedup();
    assert!(first_bids.len() > 1);
}

#[test]
fn automated_bidder_stays_within_the_remaining_indices() {
    let mut rng = StdRng::seed_from_u64(2024);
    let mut rounds = 0;
    while rounds < 10_000 {
        let mut computer = Player::new_computer();
        for _ in 0..13 {
            let before = computer.hand().remaining_indices();
            let bid = computer.get_rand(&mut rng).unwrap();
            assert!(1 <= bid && bid <= 13);
            assert!(before.contains(&bid));
            rounds += 1;
        }
    }
    assert!(rounds >= 10_000);
}

#[test]
fn the_score_is_the_sum_of_the_ranks() {
    let mut player = Player::new();
    assert_eq!(player.accumulate(), 0);
    player.award(Card::Regular(Suit::Diamonds, 3));
    player.award(Card::Regular(Suit::Diamonds, 7));
    player.award(Card::Regular(Suit::Diamonds, 1));
    assert_eq!(player.accumulate(), 11);
    assert_eq!(
        *player.pool(),
        vec![
            Card::Regular(Suit::Diamonds, 3),
            Card::Regular(Suit::Diamonds, 7),
            Card::Regular(Suit::Diamonds, 1)
        ]
    );
}

#[test]
fn an_empty_slot_in_the_pool_counts_nothing() {
    let mut player = Player::new_computer();
    player.award(Card::Empty);
    player.award(Card::Regular(Suit::Diamonds, 12));
    player.award(Card::Empty);
    assert_eq!(player.accumulate(), 12);
}

#[test]
fn a_pool_of_all_thirteen_prizes_scores_ninety_one() {
    let mut player = Player::new();
    for rank in 1u8..=13 {
        player.award(Card::Regular(Suit::Diamonds, rank));
    }
    assert_eq!(player.accumulate(), 91);
}

#[test]
fn thirteen_kings_still_fit_the_score() {
    let mut player = Player::new();
    for _ in 0..13 {
        player.award(Card::Regular(Suit::Diamonds, 13));
    }
    assert_eq!(player.accumulate(), 169);
}

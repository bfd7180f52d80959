use crate::card::{all_wf, Card, GameError, Suit};
use crate::hand::{lemma_full_hand_remaining, lemma_play_removes_slot, playable, remaining};
use crate::player::{total, Player, PlayerView};
use crate::prize::{
    check_prize_pool, is_prize_deal, is_prize_pool, lemma_deal_is_pool, lemma_prize_deal_ranks,
    prize_suit,
};
use crate::resolver::{outcome_of, resolve, Outcome};
use rand::rngs::StdRng;
use vstd::multiset::Multiset;
use vstd::prelude::*;
use vstd::seq_lib::to_multiset_contains;

verus! {

/// Where a session stands. A session is set up by its constructor, so it is never
/// seen before `Playing`.
#[derive(Clone, Copy, Debug, PartialEq, Eq, Structural)]
pub enum Phase {
    /// Prizes are left to bid for.
    Playing,
    /// Every prize is gone; the totals have not been taken yet.
    Scoring,
    /// The totals are taken and the result stands.
    Done,
}

/// Who won the game.
#[derive(Clone, Copy, Debug, PartialEq, Eq, Structural)]
pub enum GameResult {
    PlayerWins,
    ComputerWins,
    Draw,
}

/// What happened in one round.
#[derive(Clone, Copy, Debug, PartialEq, Eq, Structural)]
pub struct Round {
    /// The prize that was bid for.
    pub prize: Card,
    /// The slot number that the player bid.
    pub player_bid: usize,
    /// The slot number that the computer bid.
    pub computer_bid: usize,
    /// Who took the prize. Side A is the player, side B the computer.
    pub outcome: Outcome,
}

/// The totals of both sides and the result that they give.
#[derive(Clone, Copy, Debug, PartialEq, Eq, Structural)]
pub struct FinalScore {
    pub player_total: u8,
    pub computer_total: u8,
    pub result: GameResult,
}

/// The result that two totals give: the greater total wins, equal totals draw.
pub open spec fn result_of(player_total: int, computer_total: int) -> GameResult {
    if player_total > computer_total {
        GameResult::PlayerWins
    } else if player_total < computer_total {
        GameResult::ComputerWins
    } else {
        GameResult::Draw
    }
}

/// The state of a session.
#[verifier::ext_equal]
pub struct SessionView {
    /// The prize pool as it was dealt. It never changes.
    pub dealt: Seq<Card>,
    /// The prizes not yet bid for. The next prize is the last one.
    pub prizes: Seq<Card>,
    /// Side A.
    pub player: PlayerView,
    /// Side B.
    pub computer: PlayerView,
    /// The prizes that were tied on.
    pub discarded: Seq<Card>,
    /// The final score, once it was taken.
    pub score: Option<FinalScore>,
}

impl SessionView {
    /// The session that is set up on the prize pool `prizes`: two full hands, empty
    /// pools, nothing discarded.
    pub open spec fn start(prizes: Seq<Card>) -> SessionView {
        SessionView {
            dealt: prizes,
            prizes,
            player: PlayerView::fresh(Suit::Hearts),
            computer: PlayerView::fresh(Suit::Spades),
            discarded: Seq::empty(),
            score: None,
        }
    }

    /// Where the session stands.
    pub open spec fn phase(self) -> Phase {
        if self.prizes.len() > 0 {
            Phase::Playing
        } else if self.score is None {
            Phase::Scoring
        } else {
            Phase::Done
        }
    }

    /// The cards that left the prize pool, wherever they went.
    pub open spec fn shared_out(self) -> Multiset<Card> {
        self.player.pool.to_multiset().add(self.computer.pool.to_multiset()).add(
            self.discarded.to_multiset(),
        )
    }

    /// The session invariant.
    ///
    /// Both sides are well formed and so is every card. What was dealt is a prize pool:
    /// at most thirteen prizes, none of them twice. What is left of it is the front of
    /// what was dealt. Every card that was dealt is in the prize pool, in one of the
    /// two pools or discarded, and nothing else is. Each hand has at least as many cards
    /// left as there are prizes, so that no side runs out of cards before the prizes
    /// do. A score is only taken once the prizes are gone, and it is the score of the
    /// two pools.
    pub open spec fn wf(self) -> bool {
        &&& self.player.wf()
        &&& self.computer.wf()
        &&& all_wf(self.prizes)
        &&& all_wf(self.discarded)
        &&& is_prize_pool(self.dealt)
        &&& self.prizes.len() <= self.dealt.len()
        &&& self.prizes == self.dealt.take(self.prizes.len() as int)
        &&& self.dealt.to_multiset() == self.prizes.to_multiset().add(self.shared_out())
        &&& self.prizes.len() <= remaining(self.player.slots).len()
        &&& self.prizes.len() <= remaining(self.computer.slots).len()
        &&& self.score is Some ==> self.prizes.len() == 0 && self.score == Some(
            self.final_score(),
        )
    }

    /// The session once both sides have committed their bids.
    pub open spec fn bids(self, bid_a: int, bid_b: int) -> SessionView {
        SessionView {
            dealt: self.dealt,
            prizes: self.prizes,
            player: self.player.bid(bid_a),
            computer: self.computer.bid(bid_b),
            discarded: self.discarded,
            score: self.score,
        }
    }

    /// The session once the next prize has been drawn and handed to whom the bids
    /// give it: to the higher bidder's pool, or to the discard on a tie.
    pub open spec fn settle(self, bid_a: int, bid_b: int) -> SessionView {
        let prize = self.prizes.last();
        let rest = self.prizes.drop_last();
        match outcome_of(bid_a, bid_b) {
            Outcome::AWinsPrize => SessionView {
                dealt: self.dealt,
                prizes: rest,
                player: self.player.award(prize),
                computer: self.computer,
                discarded: self.discarded,
                score: self.score,
            },
            Outcome::BWinsPrize => SessionView {
                dealt: self.dealt,
                prizes: rest,
                player: self.player,
                computer: self.computer.award(prize),
                discarded: self.discarded,
                score: self.score,
            },
            Outcome::Tied => SessionView {
                dealt: self.dealt,
                prizes: rest,
                player: self.player,
                computer: self.computer,
                discarded: self.discarded.push(prize),
                score: self.score,
            },
        }
    }

    /// The session after one round with the given bids.
    pub open spec fn round(self, bid_a: int, bid_b: int) -> SessionView {
        self.bids(bid_a, bid_b).settle(bid_a, bid_b)
    }

    /// What a round with the given bids reports.
    pub open spec fn report(self, bid_a: usize, bid_b: usize) -> Round {
        Round {
            prize: self.prizes.last(),
            player_bid: bid_a,
            computer_bid: bid_b,
            outcome: outcome_of(bid_a as int, bid_b as int),
        }
    }

    /// The score of the two pools as they stand.
    pub open spec fn final_score(self) -> FinalScore {
        FinalScore {
            player_total: total(self.player.pool) as u8,
            computer_total: total(self.computer.pool) as u8,
            result: result_of(total(self.player.pool) as int, total(self.computer.pool) as int),
        }
    }

    /// The session once the score has been taken.
    pub open spec fn scored(self) -> SessionView {
        SessionView {
            dealt: self.dealt,
            prizes: self.prizes,
            player: self.player,
            computer: self.computer,
            discarded: self.discarded,
            score: Some(self.final_score()),
        }
    }
}

/// One game: the prize pool, the two sides and the discard.
pub struct Session {
    dealt: Ghost<Seq<Card>>,
    prizes: Vec<Card>,
    player: Player,
    computer: Player,
    discarded: Vec<Card>,
    score: Option<FinalScore>,
}

impl View for Session {
    type V = SessionView;

    closed spec fn view(&self) -> SessionView {
        SessionView {
            dealt: self.dealt@,
            prizes: self.prizes@,
            player: self.player@,
            computer: self.computer@,
            discarded: self.discarded@,
            score: self.score,
        }
    }
}

impl Session {
    /// Sets up a game: a freshly shuffled prize pool of thirteen cards, two full hands,
    /// empty pools and an empty discard. Play can begin.
    pub fn setup(rng: &mut StdRng) -> (session: Session)
        ensures
            session@.wf(),
            session@ == SessionView::start(session@.dealt),
            is_prize_deal(session@.dealt),
            session@.dealt.len() == 13,
            session@.phase() is Playing,
    {
        let prizes = Card::new_prize_pool(rng);
        proof {
            lemma_deal_is_pool(prizes@);
        }
        Session::deal(prizes)
    }

    /// Sets up a game on a prize pool that the caller dealt; its last card is bid for
    /// first. The pool may hold fewer than thirteen prizes, and an empty pool gives a
    /// session with nothing to play. What is no prize pool is refused: more than
    /// thirteen cards, a card that is no prize, or a card twice.
    pub fn with_prizes(prizes: Vec<Card>) -> (session: Option<Session>)
        ensures
            session is Some <==> is_prize_pool(prizes@),
            session is Some ==> session->Some_0@.wf() && session->Some_0@ == SessionView::start(
                prizes@,
            ),
    {
        if check_prize_pool(&prizes) {
            Some(Session::deal(prizes))
        } else {
            None
        }
    }

    /// The session at its start, on the prize pool `prizes`.
    fn deal(prizes: Vec<Card>) -> (session: Session)
        requires
            is_prize_pool(prizes@),
        ensures
            session@.wf(),
            session@ == SessionView::start(prizes@),
    {
        proof {
            lemma_start_wf(prizes@);
        }
        Session {
            dealt: Ghost(prizes@),
            prizes,
            player: Player::new(),
            computer: Player::new_computer(),
            discarded: Vec::new(),
            score: None,
        }
    }

    /// Where the session stands.
    pub fn phase(&self) -> (phase: Phase)
        ensures
            phase == self@.phase(),
    {
        if self.prizes.len() > 0 {
            Phase::Playing
        } else if self.score.is_none() {
            Phase::Scoring
        } else {
            Phase::Done
        }
    }

    /// The prize that the next round is played for, if one is left.
    pub fn current_prize(&self) -> (prize: Option<Card>)
        ensures
            self@.prizes.len() == 0 ==> prize is None,
            self@.prizes.len() > 0 ==> prize == Some(self@.prizes.last()),
    {
        let n = self.prizes.len();
        if n == 0 {
            None
        } else {
            Some(self.prizes[n - 1])
        }
    }

    /// How many prizes are left to bid for.
    pub fn prizes_left(&self) -> (n: usize)
        ensures
            n == self@.prizes.len(),
    {
        self.prizes.len()
    }

    /// Side A: the human player.
    pub fn player(&self) -> (player: &Player)
        ensures
            player@ == self@.player,
    {
        &self.player
    }

    /// Side B: the automated player.
    pub fn computer(&self) -> (computer: &Player)
        ensures
            computer@ == self@.computer,
    {
        &self.computer
    }

    /// The prizes that were tied on, in the order in which they were discarded.
    pub fn discarded(&self) -> (discarded: &Vec<Card>)
        ensures
            discarded@ == self@.discarded,
    {
        &self.discarded
    }

    /// The final score, once it has been taken.
    pub fn final_score(&self) -> (score: Option<FinalScore>)
        ensures
            score == self@.score,
    {
        self.score
    }

    /// Draws the next prize and hands it to whom the bids give it.
    fn settle(&mut self, bid_a: usize, bid_b: usize) -> (round: Round)
        requires
            old(self)@.player.wf(),
            old(self)@.computer.wf(),
            all_wf(old(self)@.prizes),
            old(self)@.prizes.len() > 0,
            old(self)@.player.pool.len() < 13,
            old(self)@.computer.pool.len() < 13,
        ensures
            final(self)@ == old(self)@.settle(bid_a as int, bid_b as int),
            round == old(self)@.report(bid_a, bid_b),
    {
        let n = self.prizes.len();
        let prize = self.prizes[n - 1];
        self.prizes.truncate(n - 1);
        let outcome = resolve(prize, bid_a, bid_b);
        match outcome {
            Outcome::AWinsPrize => self.player.award(prize),
            Outcome::BWinsPrize => self.computer.award(prize),
            Outcome::Tied => self.discarded.push(prize),
        }
        Round { prize, player_bid: bid_a, computer_bid: bid_b, outcome }
    }

    /// Plays one round with the bids of both sides given. If both slots can be played,
    /// both cards leave their hands, the next prize is drawn and goes to the higher
    /// bidder, or to the discard on a tie. If either slot cannot be played the round
    /// is refused and nothing changes.
    pub fn play_bids(&mut self, bid_a: usize, bid_b: usize) -> (round: Result<Round, GameError>)
        requires
            old(self)@.wf(),
            old(self)@.phase() is Playing,
        ensures
            final(self)@.wf(),
            playable(old(self)@.player.slots, bid_a as int) && playable(
                old(self)@.computer.slots,
                bid_b as int,
            ) ==> round == Ok::<Round, GameError>(old(self)@.report(bid_a, bid_b)) && final(self)@
                == old(self)@.round(bid_a as int, bid_b as int),
            !(playable(old(self)@.player.slots, bid_a as int) && playable(
                old(self)@.computer.slots,
                bid_b as int,
            )) ==> round == Err::<Round, GameError>(GameError::InvalidBidIndex) && final(self)@
                == old(self)@,
    {
        if !self.player.hand().is_playable(bid_a) || !self.computer.hand().is_playable(bid_b) {
            return Err(GameError::InvalidBidIndex);
        }
        proof {
            lemma_round_keeps_wf(self@, bid_a, bid_b);
            lemma_every_prize_accounted_for(self@);
        }
        let _ = self.player.get_choice(bid_a);
        let _ = self.computer.get_choice(bid_b);
        Ok(self.settle(bid_a, bid_b))
    }

    /// Plays one round in which the player bids `choice` and the computer bids a slot
    /// chosen at random among those that it can still play. If `choice` cannot be
    /// played the round is refused and nothing changes, so that the player can be
    /// asked again. The computer never runs out of cards while a prize is left.
    pub fn play_round(&mut self, choice: usize, rng: &mut StdRng) -> (round: Result<
        Round,
        GameError,
    >)
        requires
            old(self)@.wf(),
            old(self)@.phase() is Playing,
        ensures
            final(self)@.wf(),
            !playable(old(self)@.player.slots, choice as int) ==> round == Err::<Round, GameError>(
                GameError::InvalidBidIndex,
            ) && final(self)@ == old(self)@,
            playable(old(self)@.player.slots, choice as int) ==> round is Ok && playable(
                old(self)@.computer.slots,
                round->Ok_0.computer_bid as int,
            ) && round->Ok_0 == old(self)@.report(choice, round->Ok_0.computer_bid) && final(self)@
                == old(self)@.round(choice as int, round->Ok_0.computer_bid as int),
    {
        if !self.player.hand().is_playable(choice) {
            return Err(GameError::InvalidBidIndex);
        }
        match self.computer.get_rand(rng) {
            Ok(bid_b) => {
                proof {
                    lemma_round_keeps_wf(old(self)@, choice, bid_b);
                    lemma_every_prize_accounted_for(old(self)@);
                }
                let _ = self.player.get_choice(choice);
                Ok(self.settle(choice, bid_b))
            },
            Err(e) => Err(e),
        }
    }

    /// Takes the score: each side's total is the sum of the ranks in its pool, the
    /// greater total wins and equal totals draw. The session is then done.
    pub fn score(&mut self) -> (score: FinalScore)
        requires
            old(self)@.wf(),
            !(old(self)@.phase() is Playing),
        ensures
            final(self)@.wf(),
            final(self)@ == old(self)@.scored(),
            final(self)@.phase() is Done,
            score == old(self)@.final_score(),
            score.player_total == total(old(self)@.player.pool),
            score.computer_total == total(old(self)@.computer.pool),
            score.result == result_of(score.player_total as int, score.computer_total as int),
    {
        let player_total = self.player.accumulate();
        let computer_total = self.computer.accumulate();
        let result = if player_total > computer_total {
            GameResult::PlayerWins
        } else if player_total < computer_total {
            GameResult::ComputerWins
        } else {
            GameResult::Draw
        };
        let score = FinalScore { player_total, computer_total, result };
        self.score = Some(score);
        score
    }
}

/// A session that is set up on a prize pool meets the invariant.
pub proof fn lemma_start_wf(prizes: Seq<Card>)
    requires
        is_prize_pool(prizes),
    ensures
        SessionView::start(prizes).wf(),
{
    let s = SessionView::start(prizes);
    lemma_full_hand_remaining(Suit::Hearts);
    lemma_full_hand_remaining(Suit::Spades);
    assert(prizes.take(prizes.len() as int) =~= prizes);
    Seq::<Card>::empty().to_multiset_ensures();
    assert(prizes.to_multiset().add(s.shared_out()) =~= prizes.to_multiset());
}

/// Whatever was dealt is still in the prize pool, in a pool or discarded, card for
/// card; so the four hold as many cards as were dealt.
pub proof fn lemma_every_prize_accounted_for(s: SessionView)
    requires
        s.wf(),
    ensures
        s.dealt.len() == s.prizes.len() + s.player.pool.len() + s.computer.pool.len()
            + s.discarded.len(),
        forall|card: Card|
            #![trigger s.dealt.to_multiset().count(card)]
            s.dealt.to_multiset().count(card) == s.prizes.to_multiset().count(card)
                + s.player.pool.to_multiset().count(card) + s.computer.pool.to_multiset().count(
                card,
            ) + s.discarded.to_multiset().count(card),
{
    s.dealt.to_multiset_ensures();
    s.prizes.to_multiset_ensures();
    s.player.pool.to_multiset_ensures();
    s.computer.pool.to_multiset_ensures();
    s.discarded.to_multiset_ensures();
}

/// A round keeps the invariant: played in a well-formed session that has a prize
/// left, with two bids that can be played, it gives a well-formed session.
pub proof fn lemma_round_keeps_wf(s: SessionView, bid_a: usize, bid_b: usize)
    requires
        s.wf(),
        s.phase() is Playing,
        playable(s.player.slots, bid_a as int),
        playable(s.computer.slots, bid_b as int),
    ensures
        s.round(bid_a as int, bid_b as int).wf(),
        s.round(bid_a as int, bid_b as int).dealt == s.dealt,
        s.round(bid_a as int, bid_b as int).prizes.len() == s.prizes.len() - 1,
{
    let t = s.round(bid_a as int, bid_b as int);
    let prize = s.prizes.last();
    let rest = s.prizes.drop_last();
    lemma_every_prize_accounted_for(s);
    lemma_play_removes_slot(s.player.slots, bid_a);
    lemma_play_removes_slot(s.computer.slots, bid_b);
    assert(rest =~= s.dealt.take(rest.len() as int));
    assert(s.prizes =~= rest.push(prize));
    rest.to_multiset_ensures();
    s.player.pool.to_multiset_ensures();
    s.computer.pool.to_multiset_ensures();
    s.discarded.to_multiset_ensures();
    assert(t.prizes.to_multiset().add(t.shared_out()) =~= s.prizes.to_multiset().add(
        s.shared_out(),
    ));
}

/// Once the prizes are gone, the two pools and the discard hold what was dealt and
/// nothing else: as many cards as were dealt, each card that was dealt in exactly
/// one of the three and there once, and no other card in any of them.
pub proof fn lemma_finished_session_places_every_prize(s: SessionView, card: Card)
    requires
        s.wf(),
        !(s.phase() is Playing),
    ensures
        s.player.pool.len() + s.computer.pool.len() + s.discarded.len() == s.dealt.len(),
        s.shared_out() == s.dealt.to_multiset(),
        s.dealt.contains(card) ==> s.player.pool.to_multiset().count(card)
            + s.computer.pool.to_multiset().count(card) + s.discarded.to_multiset().count(card)
            == 1,
        !s.dealt.contains(card) ==> !s.player.pool.contains(card) && !s.computer.pool.contains(
            card,
        ) && !s.discarded.contains(card),
{
    lemma_every_prize_accounted_for(s);
    s.prizes.to_multiset_ensures();
    s.dealt.lemma_multiset_has_no_duplicates();
    to_multiset_contains(s.dealt, card);
    to_multiset_contains(s.player.pool, card);
    to_multiset_contains(s.computer.pool, card);
    to_multiset_contains(s.discarded, card);
}

/// After a full game on the thirteen prizes, the two pools and the discard hold
/// thirteen cards together, and the prize of each rank lies in exactly one of the
/// three, once.
pub proof fn lemma_finished_game_places_every_rank(s: SessionView, rank: u8)
    requires
        s.wf(),
        is_prize_deal(s.dealt),
        !(s.phase() is Playing),
        1 <= rank <= 13,
    ensures
        s.player.pool.len() + s.computer.pool.len() + s.discarded.len() == 13,
        s.player.pool.to_multiset().count(Card::Regular(prize_suit(), rank))
            + s.computer.pool.to_multiset().count(Card::Regular(prize_suit(), rank))
            + s.discarded.to_multiset().count(Card::Regular(prize_suit(), rank)) == 1,
{
    let card = Card::Regular(prize_suit(), rank);
    lemma_finished_session_places_every_prize(s, card);
    lemma_prize_deal_ranks(s.dealt, rank);
}

} // verus!

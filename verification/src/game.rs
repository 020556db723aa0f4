//! A game from its start to its end.
//!
//! A `FreshGame` holds a seed. Starting it shuffles a fresh deck, deals the
//! opening cards and gives an `InProgressGame`, which is then played round by
//! round: the first player puts down a card, the second player answers, and
//! the game deals again or ends once the hands are empty.

use vstd::prelude::*;
use vstd::pervasive::unreached;
use crate::card::{standard_deck, Card};
use crate::deck::{lemma_first_match, same_card, same_number, Deck};
use crate::event::{find_last_scorer, is_over, last_scorer, GameEvent, Seat};
use crate::integrity::{
    lemma_capture_before_end, lemma_opening, lemma_played, lemma_standard_table, lemma_turns,
    nothing_captured, well_formed,
};
use crate::rules::{
    capture_all, events_of_play, events_of_round, events_of_turn, has_number, lemma_capture_all,
    lemma_has_number, opening, other_number, placed, playable, played, swept_to,
    table_after_round, table_after_turn, GameView,
};
use crate::score::{lemma_pile_score_bound, pile_score};
use crate::state::{move_top_card, GameState, Player};

verus! {

/// A game that is set up but not started: nothing but a seed.
#[derive(Debug)]
pub struct FreshGame {
    seed: u64,
}

impl View for FreshGame {
    type V = u64;

    /// The seed the game will be shuffled with.
    closed spec fn view(&self) -> u64 {
        self.seed
    }
}

/// A game in progress: the table and the log of what has happened.
#[derive(Debug)]
pub struct InProgressGame {
    game_state: GameState,
    events: Vec<GameEvent>,
}

impl View for InProgressGame {
    type V = GameView;

    closed spec fn view(&self) -> GameView {
        GameView { table: self.game_state@, events: self.events@ }
    }
}

/// Why a move was turned down.
#[derive(Debug, Copy, Clone, PartialEq, Eq, Structural)]
pub enum Rejection {
    /// The game is over.
    GameOver,
    /// The first player does not hold the card.
    CardNotInHand,
    /// The second player does not hold the card that was to answer.
    AnswerNotInHand,
}

/// A move that was made: the game after it and what it added to the log.
#[derive(Debug)]
pub struct Played {
    pub game: InProgressGame,
    pub new_events: Vec<GameEvent>,
}

/// A move that was turned down: the game as it was, and the reason.
#[derive(Debug)]
pub struct Refused {
    pub game: InProgressGame,
    pub reason: Rejection,
}

/// Why a round with `card1` and the answer `card2` cannot be played, if it
/// cannot.
pub open spec fn rejection(game: GameView, card1: Card, card2: Card) -> Option<Rejection> {
    if is_over(game.events) {
        Some(Rejection::GameOver)
    } else if !game.table.player1.hand.contains(card1) {
        Some(Rejection::CardNotInHand)
    } else if !game.table.player2.hand.contains(card2) {
        Some(Rejection::AnswerNotInHand)
    } else {
        None
    }
}

/// `outcome` is what a round with `card1` and the answer `card2` gives in
/// `game`: where the round cannot be played, the game as it was and the
/// reason; otherwise the game after the round and what the round added to
/// the log.
pub open spec fn is_outcome_of(
    outcome: Result<Played, Refused>,
    game: InProgressGame,
    card1: Card,
    card2: Card,
) -> bool {
    match rejection(game@, card1, card2) {
        None => outcome is Ok && outcome->Ok_0.game@ == played(game@, card1, card2)
            && outcome->Ok_0.new_events@ == events_of_play(game@, card1, card2),
        Some(reason) => outcome is Err && outcome->Err_0.game == game && outcome->Err_0.reason
            == reason,
    }
}

/// Appends `event` to the log and to the list of what is new in it.
fn record(log: &mut Vec<GameEvent>, fresh: &mut Vec<GameEvent>, event: GameEvent)
    ensures
        final(log)@ == old(log)@.push(event),
        final(fresh)@ == old(fresh)@.push(event),
{
    log.push(event);
    fresh.push(event);
}

/// Lets the player at `seat` play `card`, which the player holds.
fn take_turn(
    table: &mut GameState,
    seat: Seat,
    card: Card,
    log: &mut Vec<GameEvent>,
    fresh: &mut Vec<GameEvent>,
)
    requires
        old(table)@.player(seat).hand.contains(card),
        old(table)@.player(seat).wip_gains < usize::MAX,
    ensures
        final(table)@ == table_after_turn(old(table)@, seat, card),
        final(log)@ == old(log)@ + events_of_turn(old(table)@, seat, card),
        final(fresh)@ == old(fresh)@ + events_of_turn(old(table)@, seat, card),
{
    let scored = match seat {
        Seat::One => {
            let _ = table.player1.hand.take_same_card(&card);
            InProgressGame::play_and_score(&mut table.middle, &mut table.player1.score_pile, card)
        },
        Seat::Two => {
            let _ = table.player2.hand.take_same_card(&card);
            InProgressGame::play_and_score(&mut table.middle, &mut table.player2.score_pile, card)
        },
    };
    if scored {
        record(log, fresh, seat.scored_event());
    }
    if table.middle.is_empty() {
        match seat {
            Seat::One => {
                table.player1.wip_gains += 1;
            },
            Seat::Two => {
                table.player2.wip_gains += 1;
            },
        }
        record(log, fresh, seat.wipped_event());
    }
    record(log, fresh, seat.played_event());
    proof {
        lemma_first_match(old(table)@.player(seat).hand, same_card(card));
        assert(table@ =~= table_after_turn(old(table)@, seat, card));
        assert(log@ =~= old(log)@ + events_of_turn(old(table)@, seat, card));
        assert(fresh@ =~= old(fresh)@ + events_of_turn(old(table)@, seat, card));
    }
}

/// Moves what is left in the middle to the score pile of the player at
/// `seat`, the top card first.
fn sweep_to(table: &mut GameState, seat: Seat)
    ensures
        final(table)@ == swept_to(old(table)@, seat),
{
    let ghost middle = table.middle@;
    let ghost pile = table@.player(seat).score_pile;
    while !table.middle.is_empty()
        invariant
            table.middle@ == middle.take(table.middle@.len() as int),
            table.middle@.len() <= middle.len(),
            table@.player(seat).score_pile == pile + middle.skip(
                table.middle@.len() as int,
            ).reverse(),
            table@.player(seat).hand == old(table)@.player(seat).hand,
            table@.player(seat).wip_gains == old(table)@.player(seat).wip_gains,
            table@.player(seat.other()) == old(table)@.player(seat.other()),
            table@.deck == old(table)@.deck,
            middle == old(table)@.middle,
            pile == old(table)@.player(seat).score_pile,
        decreases table.middle@.len(),
    {
        let ghost before = table.middle@.len() as int;
        match seat {
            Seat::One => {
                move_top_card(&mut table.middle, &mut table.player1.score_pile);
            },
            Seat::Two => {
                move_top_card(&mut table.middle, &mut table.player2.score_pile);
            },
        }
        proof {
            assert(table.middle@ =~= middle.take(before - 1));
            assert(middle.skip(before - 1).reverse() =~= middle.skip(before).reverse().push(
                middle[before - 1],
            ));
        }
    }
    proof {
        assert(middle.skip(0) =~= middle);
        assert(table.middle@ =~= Seq::<Card>::empty());
        assert(table@ =~= swept_to(old(table)@, seat));
    }
}

/// Closes the round once the first hand is empty: deals anew where the draw
/// pile allows it, and ends the game otherwise.
fn end_round(table: &mut GameState, log: &mut Vec<GameEvent>, fresh: &mut Vec<GameEvent>)
    requires
        old(table)@.cards() == standard_deck().to_multiset(),
        old(table)@.deck.len() % 8 == 0,
        old(table)@.player1.hand.len() == old(table)@.player2.hand.len(),
        last_scorer(old(log)@) is None ==> nothing_captured(old(table)@),
    ensures
        final(table)@ == table_after_round(old(table)@, old(log)@),
        final(log)@ == old(log)@ + events_of_round(old(table)@),
        final(fresh)@ == old(fresh)@ + events_of_round(old(table)@),
{
    if table.player1.hand.is_empty() {
        if table.can_deal() {
            record(log, fresh, GameEvent::RoundOver);
            table.deal();
            record(log, fresh, GameEvent::Dealt);
        } else {
            let scorer = find_last_scorer(log);
            record(log, fresh, GameEvent::RoundOver);
            match scorer {
                Some(seat) => {
                    sweep_to(table, seat);
                },
                None => {
                    // No game ends before somebody has captured.
                    proof {
                        lemma_capture_before_end(old(table)@, old(log)@);
                    }
                    unreached()
                },
            }
            record(log, fresh, GameEvent::GameOver);
        }
    }
    proof {
        assert(log@ =~= old(log)@ + events_of_round(old(table)@));
        assert(fresh@ =~= old(fresh)@ + events_of_round(old(table)@));
    }
}

impl FreshGame {
    /// A game that will be shuffled with `seed`.
    pub fn new(seed: u64) -> (game: FreshGame)
        ensures
            game@ == seed,
    {
        FreshGame { seed }
    }

    /// Starts the game: a fresh deck is shuffled with the seed, and two
    /// cards go to the first player, two to the middle and two to the second
    /// player, twice in a row. Afterwards each hand and the middle hold four
    /// cards, the draw pile holds forty, nothing has been captured, and the
    /// log reads `Started`, `Shuffled`, `Dealt`.
    pub fn start(self) -> (game: InProgressGame)
        ensures
            game@ == opening(self@),
            well_formed(game@),
            game@.table.player1.hand.len() == 4,
            game@.table.player2.hand.len() == 4,
            game@.table.middle.len() == 4,
            game@.table.deck.len() == 40,
            game@.table.player1.score_pile.len() == 0,
            game@.table.player2.score_pile.len() == 0,
            game@.table.card_count() == 52,
            game@.events == seq![GameEvent::Started, GameEvent::Shuffled, GameEvent::Dealt],
    {
        let mut game_state = GameState {
            deck: Deck::new(),
            middle: Deck::empty(),
            player1: Player::new(),
            player2: Player::new(),
        };
        let mut events: Vec<GameEvent> = Vec::new();
        events.push(GameEvent::Started);
        game_state.deck.shuffle(self.seed);
        events.push(GameEvent::Shuffled);
        game_state.deal_opening();
        events.push(GameEvent::Dealt);
        proof {
            lemma_opening(self@);
            assert(game_state@ =~= opening(self@).table);
            assert(events@ =~= opening(self@).events);
        }
        InProgressGame { game_state, events }
    }
}

impl Clone for InProgressGame {
    /// A game in the same state with the same log.
    fn clone(&self) -> (copy: InProgressGame)
        ensures
            copy@ == self@,
    {
        proof {
            use_type_invariant(self);
        }
        let events = self.events.clone();
        assert(events@ =~= self.events@);
        InProgressGame { game_state: self.game_state.clone(), events }
    }
}

impl InProgressGame {
    /// Every game in progress is well formed: that is established by
    /// `start` and kept by every move.
    #[verifier::type_invariant]
    pub open spec fn is_well_formed(&self) -> bool {
        well_formed(self@)
    }

    /// Puts `card` down. Where the middle holds cards with the number of
    /// `card`, all of them go to the score pile, one after the other, and
    /// `card` follows them: that is a capture. Otherwise `card` goes on top
    /// of the middle.
    pub fn play_and_score(middle: &mut Deck, score_pile: &mut Deck, card: Card) -> (scored: bool)
        ensures
            scored == has_number(old(middle)@, card.card_number),
            (final(middle)@, final(score_pile)@) == placed(old(middle)@, old(score_pile)@, card),
            scored ==> !has_number(final(middle)@, card.card_number),
            scored ==> final(middle)@.to_multiset() == old(middle)@.to_multiset().filter(
                other_number(card.card_number),
            ),
            scored ==> final(score_pile)@.to_multiset() == old(score_pile)@.to_multiset().add(
                old(middle)@.to_multiset().filter(same_number(card.card_number)),
            ).insert(card),
            !scored ==> final(middle)@ == old(middle)@.push(card),
            !scored ==> final(score_pile)@ == old(score_pile)@,
    {
        let mut scored = false;
        loop
            invariant_except_break
                capture_all(middle@, score_pile@, card.card_number) == capture_all(
                    old(middle)@,
                    old(score_pile)@,
                    card.card_number,
                ),
                scored ==> has_number(old(middle)@, card.card_number),
                !scored ==> middle@ == old(middle)@ && score_pile@ == old(score_pile)@,
            ensures
                (middle@, score_pile@) == capture_all(
                    old(middle)@,
                    old(score_pile)@,
                    card.card_number,
                ),
                scored == has_number(old(middle)@, card.card_number),
            decreases middle@.len(),
        {
            proof {
                lemma_has_number(middle@, card.card_number);
                lemma_first_match(middle@, same_number(card.card_number));
            }
            match middle.take_same_number(&card) {
                Some(matching) => {
                    scored = true;
                    score_pile.push_card(matching);
                },
                None => {
                    break ;
                },
            }
        }
        proof {
            lemma_capture_all(old(middle)@, old(score_pile)@, card.card_number);
        }
        if scored {
            score_pile.push_card(card);
        } else {
            middle.push_card(card);
        }
        proof {
            broadcast use vstd::seq_lib::group_to_multiset_ensures;

        }
        scored
    }

    /// True once the game is over.
    pub fn is_finished(&self) -> (over: bool)
        ensures
            over == is_over(self@.events),
    {
        let count = self.events.len();
        count > 0 && self.events[count - 1] == GameEvent::GameOver
    }

    /// Plays a round: the first player puts down `player1_card` and the
    /// second player answers with `player2_card`.
    ///
    /// The round is turned down, and the game handed back as it was, where
    /// the game is over, where the first player does not hold
    /// `player1_card`, or where the second player does not hold
    /// `player2_card`. Otherwise both cards are played in turn, the round is
    /// closed if the hands are empty, and the game comes back together with
    /// the entries that the round added to the log.
    pub fn play_cards(self, player1_card: Card, player2_card: Card) -> (outcome: Result<
        Played,
        Refused,
    >)
        ensures
            is_outcome_of(outcome, self, player1_card, player2_card),
            match outcome {
                Ok(done) => well_formed(done.game@) && done.game@.events == self@.events
                    + done.new_events@ && done.game@.table.card_count() == 52,
                Err(refused) => refused.game == self,
            },
    {
        proof {
            use_type_invariant(&self);
            lemma_standard_table(self@.table);
        }
        if self.is_finished() {
            return Err(Refused { game: self, reason: Rejection::GameOver });
        }
        if !self.game_state.player1.hand.holds(&player1_card) {
            return Err(Refused { game: self, reason: Rejection::CardNotInHand });
        }
        if !self.game_state.player2.hand.holds(&player2_card) {
            return Err(Refused { game: self, reason: Rejection::AnswerNotInHand });
        }
        proof {
            lemma_played(self@, player1_card, player2_card);
            lemma_turns(self@, player1_card, player2_card);
        }
        let InProgressGame { game_state, events } = self;
        let mut game_state = game_state;
        let mut events = events;
        let mut new_events: Vec<GameEvent> = Vec::new();
        take_turn(&mut game_state, Seat::One, player1_card, &mut events, &mut new_events);
        take_turn(&mut game_state, Seat::Two, player2_card, &mut events, &mut new_events);
        end_round(&mut game_state, &mut events, &mut new_events);
        proof {
            assert(new_events@ =~= events_of_play(self@, player1_card, player2_card));
            assert(events@ =~= self@.events + events_of_play(self@, player1_card, player2_card));
        }
        Ok(Played { game: InProgressGame { game_state, events }, new_events })
    }

    /// The middle as it will lie once the first player has played `card`:
    /// what the second player looks at before answering.
    pub fn middle_after(&self, card: Card) -> (cards: Vec<Card>)
        ensures
            cards@ == table_after_turn(self@.table, Seat::One, card).middle,
    {
        let mut middle = self.game_state.middle.clone();
        let mut pile = self.game_state.player1.score_pile.clone();
        let _ = InProgressGame::play_and_score(&mut middle, &mut pile, card);
        middle.cards()
    }

    /// Plays a round in which the first player puts down `card` and
    /// `opponent` decides for the second player. `opponent` is shown the hand
    /// of the second player and the middle as the first player leaves it,
    /// and names the card to answer with.
    ///
    /// Where the game is over or the first player does not hold `card`, the
    /// round is turned down and `opponent` is not asked. Otherwise the round
    /// goes as `play_cards` says for the card that `opponent` named; a card
    /// that the second player does not hold is turned down there.
    pub fn play_card_with<F: FnOnce(Vec<Card>, Vec<Card>) -> Card>(
        self,
        card: Card,
        opponent: F,
    ) -> (outcome: Result<Played, Refused>)
        requires
            playable(self@, card) ==> forall|hand: Vec<Card>, middle: Vec<Card>|
                hand@ == self@.table.player2.hand && middle@ == table_after_turn(
                    self@.table,
                    Seat::One,
                    card,
                ).middle ==> call_requires(opponent, (hand, middle)),
        ensures
            !playable(self@, card) ==> outcome is Err && outcome->Err_0.game == self
                && outcome->Err_0.reason == if is_over(self@.events) {
                Rejection::GameOver
            } else {
                Rejection::CardNotInHand
            },
            playable(self@, card) ==> exists|hand: Vec<Card>, middle: Vec<Card>, answer: Card|
                hand@ == self@.table.player2.hand && middle@ == table_after_turn(
                    self@.table,
                    Seat::One,
                    card,
                ).middle && #[trigger] call_ensures(opponent, (hand, middle), answer)
                    && is_outcome_of(outcome, self, card, answer),
            match outcome {
                Ok(done) => well_formed(done.game@) && done.game@.events == self@.events
                    + done.new_events@ && done.game@.table.card_count() == 52,
                Err(refused) => refused.game == self,
            },
    {
        proof {
            use_type_invariant(&self);
        }
        if self.is_finished() {
            return Err(Refused { game: self, reason: Rejection::GameOver });
        }
        if !self.game_state.player1.hand.holds(&card) {
            return Err(Refused { game: self, reason: Rejection::CardNotInHand });
        }
        let hand = self.get_player_2_hand();
        let middle = self.middle_after(card);
        let answer = opponent(hand, middle);
        self.play_cards(card, answer)
    }

    /// The card the second player answers with when nobody decides for
    /// that player: the last card of the hand.
    pub fn default_answer(&self) -> (answer: Option<Card>)
        ensures
            self@.table.player2.hand.len() == 0 ==> answer is None,
            self@.table.player2.hand.len() > 0 ==> answer == Some(self@.table.player2.hand.last()),
    {
        self.game_state.player2.hand.top_card()
    }

    /// Plays a round in which the first player puts down `card` and the
    /// second player answers with the last card of the hand. Gives the game
    /// after the round, or nothing where the game is over or the first
    /// player does not hold `card`.
    pub fn play_card(self, card: Card) -> (next: Option<InProgressGame>)
        ensures
            match next {
                Some(game) => playable(self@, card) && game@ == played(
                    self@,
                    card,
                    self@.table.player2.hand.last(),
                ) && well_formed(game@) && game@.table.card_count() == 52,
                None => !playable(self@, card),
            },
    {
        proof {
            use_type_invariant(&self);
        }
        match self.default_answer() {
            Some(answer) => {
                assert(self@.table.player2.hand.contains(answer));
                match self.play_cards(card, answer) {
                    Ok(done) => Some(done.game),
                    Err(_) => None,
                }
            },
            None => None,
        }
    }

    /// The log of the game.
    pub fn get_events(&self) -> (events: Vec<GameEvent>)
        ensures
            events@ == self@.events,
    {
        let events = self.events.clone();
        assert(events@ =~= self.events@);
        events
    }

    /// The hand of the first player.
    pub fn get_player_1_hand(&self) -> (cards: Vec<Card>)
        ensures
            cards@ == self@.table.player1.hand,
    {
        self.game_state.player1.hand.cards()
    }

    /// The cards the first player has captured.
    pub fn get_player_1_score_pile(&self) -> (cards: Vec<Card>)
        ensures
            cards@ == self@.table.player1.score_pile,
    {
        self.game_state.player1.score_pile.cards()
    }

    /// The hand of the second player.
    pub fn get_player_2_hand(&self) -> (cards: Vec<Card>)
        ensures
            cards@ == self@.table.player2.hand,
    {
        self.game_state.player2.hand.cards()
    }

    /// The cards the second player has captured.
    pub fn get_player_2_score_pile(&self) -> (cards: Vec<Card>)
        ensures
            cards@ == self@.table.player2.score_pile,
    {
        self.game_state.player2.score_pile.cards()
    }

    /// The cards in the middle.
    pub fn get_middle(&self) -> (cards: Vec<Card>)
        ensures
            cards@ == self@.table.middle,
    {
        self.game_state.middle.cards()
    }

    /// The draw pile.
    pub fn get_deck(&self) -> (cards: Vec<Card>)
        ensures
            cards@ == self@.table.deck,
    {
        self.game_state.deck.cards()
    }

    /// The score of the first player as it stands: the value of the cards
    /// captured so far and a point for every sweep.
    pub fn get_player_1_score(&self) -> (score: usize)
        ensures
            score == pile_score(self@.table.player1.score_pile.to_multiset())
                + self@.table.player1.wip_gains,
    {
        proof {
            use_type_invariant(self);
            lemma_standard_table(self@.table);
            lemma_pile_score_bound(self@.table.player1.score_pile.to_multiset());
            vstd::seq_lib::to_multiset_len(self@.table.player1.score_pile);
        }
        self.game_state.player1.score_pile.count_score() + self.game_state.player1.wip_gains
    }

    /// The score of the second player as it stands: the value of the cards
    /// captured so far and a point for every sweep.
    pub fn get_player_2_score(&self) -> (score: usize)
        ensures
            score == pile_score(self@.table.player2.score_pile.to_multiset())
                + self@.table.player2.wip_gains,
    {
        proof {
            use_type_invariant(self);
            lemma_standard_table(self@.table);
            lemma_pile_score_bound(self@.table.player2.score_pile.to_multiset());
            vstd::seq_lib::to_multiset_len(self@.table.player2.score_pile);
        }
        self.game_state.player2.score_pile.count_score() + self.game_state.player2.wip_gains
    }
}

} // verus!

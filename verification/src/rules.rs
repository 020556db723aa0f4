//! The rules of the game, stated over plain sequences of cards.
//!
//! A table is described by the cards of its six piles and the sweep counters
//! of the two players; a game is a table and the log of what happened. Every
//! move is a function from one such description to the next.

use vstd::prelude::*;
use vstd::multiset::*;
use vstd::seq_lib::*;
use crate::card::{standard_deck, Card, CardNumber};
use crate::deck::{
    first_match, lemma_first_match, lemma_without, same_card, same_number, without, SHUFFLE_ROUNDS,
};
use crate::event::{is_over, last_scorer, GameEvent, Seat};
use crate::shuffle::shuffled;

verus! {

/// The cards with another number than `number`.
pub open spec fn other_number(number: CardNumber) -> spec_fn(Card) -> bool {
    |other: Card| other.card_number != number
}

/// Some card of `pile` has the number `number`.
pub open spec fn has_number(pile: Seq<Card>, number: CardNumber) -> bool {
    exists|k: int| 0 <= k < pile.len() && (#[trigger] pile[k]).card_number == number
}

/// The middle pile and a score pile after every card with the number
/// `number` has left the middle for the score pile. The cards leave one
/// after the other, the first in the middle first; each time the top card
/// of the middle moves into the gap.
pub open spec fn capture_all(middle: Seq<Card>, pile: Seq<Card>, number: CardNumber) -> (
    Seq<Card>,
    Seq<Card>,
)
    decreases middle.len(),
{
    match first_match(middle, same_number(number)) {
        Some(index) => capture_all(without(middle, index), pile.push(middle[index]), number),
        None => (middle, pile),
    }
}

/// The middle pile and the score pile of a player after the player has put
/// down `card`. Where the middle holds cards with the number of `card`, all
/// of them go to the score pile and `card` follows them; otherwise `card`
/// stays in the middle, on top.
pub open spec fn placed(middle: Seq<Card>, pile: Seq<Card>, card: Card) -> (Seq<Card>, Seq<Card>) {
    if has_number(middle, card.card_number) {
        let taken = capture_all(middle, pile, card.card_number);
        (taken.0, taken.1.push(card))
    } else {
        (middle.push(card), pile)
    }
}

/// A pile holds a card with a number exactly when a search for that number
/// finds one.
pub proof fn lemma_has_number(pile: Seq<Card>, number: CardNumber)
    ensures
        has_number(pile, number) <==> first_match(pile, same_number(number)) is Some,
{
    lemma_first_match(pile, same_number(number));
    if first_match(pile, same_number(number)) is Some {
        let index = first_match(pile, same_number(number))->0;
        assert(pile[index].card_number == number);
    }
}

/// A capture takes every card with the number out of the middle and no
/// other card; all of them, and nothing else, arrive on top of the score
/// pile, which keeps the cards it had in their places.
pub proof fn lemma_capture_all(middle: Seq<Card>, pile: Seq<Card>, number: CardNumber)
    ensures
        !has_number(capture_all(middle, pile, number).0, number),
        capture_all(middle, pile, number).0.to_multiset() == middle.to_multiset().filter(
            other_number(number),
        ),
        capture_all(middle, pile, number).1.to_multiset() == pile.to_multiset().add(
            middle.to_multiset().filter(same_number(number)),
        ),
        capture_all(middle, pile, number).0.len() + capture_all(middle, pile, number).1.len()
            == middle.len() + pile.len(),
        capture_all(middle, pile, number).1.len() >= pile.len(),
        capture_all(middle, pile, number).1.take(pile.len() as int) == pile,
        has_number(middle, number) ==> capture_all(middle, pile, number).1.len() > pile.len(),
    decreases middle.len(),
{
    broadcast use group_multiset_axioms;
    broadcast use group_to_multiset_ensures;

    lemma_first_match(middle, same_number(number));
    lemma_has_number(middle, number);
    let result = capture_all(middle, pile, number);
    match first_match(middle, same_number(number)) {
        Some(index) => {
            let rest = without(middle, index);
            let more = pile.push(middle[index]);
            lemma_without(middle, index);
            lemma_capture_all(rest, more, number);
            assert(result.0.to_multiset() =~= middle.to_multiset().filter(other_number(number)));
            assert(result.1.to_multiset() =~= pile.to_multiset().add(
                middle.to_multiset().filter(same_number(number)),
            ));
            assert(result.1.take(pile.len() as int) =~= more.take(pile.len() as int));
            assert(more.take(pile.len() as int) =~= pile);
        },
        None => {
            assert forall|card: Card| middle.to_multiset().count(card) > 0 implies card.card_number
                != number by {
                assert(middle.contains(card));
            }
            assert(result.0.to_multiset() =~= middle.to_multiset().filter(other_number(number)));
            assert(result.1.to_multiset() =~= pile.to_multiset().add(
                middle.to_multiset().filter(same_number(number)),
            ));
            assert(pile.take(pile.len() as int) =~= pile);
        },
    }
}

/// What a player holds: the hand, the pile of captured cards and the number
/// of sweeps made so far.
pub struct PlayerView {
    pub hand: Seq<Card>,
    pub score_pile: Seq<Card>,
    pub wip_gains: nat,
}

/// The table: the draw pile, the two players and the middle pile. In every
/// pile the last card is the one on top.
pub struct TableView {
    pub deck: Seq<Card>,
    pub player1: PlayerView,
    pub player2: PlayerView,
    pub middle: Seq<Card>,
}

/// A game: the table and the log of what has happened so far.
pub struct GameView {
    pub table: TableView,
    pub events: Seq<GameEvent>,
}

impl TableView {
    /// The player at `seat`.
    pub open spec fn player(self, seat: Seat) -> PlayerView {
        match seat {
            Seat::One => self.player1,
            Seat::Two => self.player2,
        }
    }

    /// The table with `player` at `seat`.
    pub open spec fn with_player(self, seat: Seat, player: PlayerView) -> TableView {
        match seat {
            Seat::One => TableView {
                deck: self.deck,
                player1: player,
                player2: self.player2,
                middle: self.middle,
            },
            Seat::Two => TableView {
                deck: self.deck,
                player1: self.player1,
                player2: player,
                middle: self.middle,
            },
        }
    }

    /// The table with `middle` as its middle pile.
    pub open spec fn with_middle(self, middle: Seq<Card>) -> TableView {
        TableView { deck: self.deck, player1: self.player1, player2: self.player2, middle }
    }

    /// All cards on the table, pile by pile.
    pub open spec fn cards(self) -> Multiset<Card> {
        self.deck.to_multiset().add(self.player1.hand.to_multiset()).add(
            self.player2.hand.to_multiset(),
        ).add(self.middle.to_multiset()).add(self.player1.score_pile.to_multiset()).add(
            self.player2.score_pile.to_multiset(),
        )
    }

    /// The number of cards on the table.
    pub open spec fn card_count(self) -> nat {
        self.deck.len() + self.player1.hand.len() + self.player2.hand.len() + self.middle.len()
            + self.player1.score_pile.len() + self.player2.score_pile.len()
    }
}

/// What the log gains by a turn of the player at `seat`: a capture, if
/// there was one, then a sweep, if the middle was left empty, then the end of
/// the turn. A turn never logs more than one capture, however many cards
/// were taken.
pub open spec fn turn_events(seat: Seat, scored: bool, swept: bool) -> Seq<GameEvent> {
    let capture = if scored {
        seq![seat.scored()]
    } else {
        Seq::<GameEvent>::empty()
    };
    let sweep = if swept {
        seq![seat.wipped()]
    } else {
        Seq::<GameEvent>::empty()
    };
    capture + sweep + seq![seat.played()]
}

/// The table after the player at `seat` has played `card`: the card leaves
/// the hand, is put down as `placed` says, and the player's sweep counter
/// goes up by one exactly when the middle is empty afterwards.
pub open spec fn table_after_turn(table: TableView, seat: Seat, card: Card) -> TableView {
    let player = table.player(seat);
    let hand = match first_match(player.hand, same_card(card)) {
        Some(index) => without(player.hand, index),
        None => player.hand,
    };
    let put = placed(table.middle, player.score_pile, card);
    let gain: nat = if put.0.len() == 0 {
        1
    } else {
        0
    };
    table.with_middle(put.0).with_player(
        seat,
        PlayerView { hand, score_pile: put.1, wip_gains: player.wip_gains + gain },
    )
}

/// What the log gains when the player at `seat` plays `card` on `table`.
pub open spec fn events_of_turn(table: TableView, seat: Seat, card: Card) -> Seq<GameEvent> {
    turn_events(
        seat,
        has_number(table.middle, card.card_number),
        placed(table.middle, table.player(seat).score_pile, card).0.len() == 0,
    )
}

/// The table after one round of the deal that opens a game: two cards go
/// from the top of the draw pile to the first hand, two to the middle and two
/// to the second hand.
pub open spec fn opening_round(table: TableView) -> TableView {
    let d = table.deck;
    let n = d.len() as int;
    TableView {
        deck: d.take(n - 6),
        player1: PlayerView {
            hand: table.player1.hand.push(d[n - 1]).push(d[n - 2]),
            score_pile: table.player1.score_pile,
            wip_gains: table.player1.wip_gains,
        },
        player2: PlayerView {
            hand: table.player2.hand.push(d[n - 5]).push(d[n - 6]),
            score_pile: table.player2.score_pile,
            wip_gains: table.player2.wip_gains,
        },
        middle: table.middle.push(d[n - 3]).push(d[n - 4]),
    }
}

/// The table after the deal that opens a game, which has two rounds.
pub open spec fn opening_deal(table: TableView) -> TableView {
    opening_round(opening_round(table))
}

/// The table after one round of a deal between two rounds of play: two
/// cards go from the top of the draw pile to the first hand and two to the
/// second.
pub open spec fn deal_round(table: TableView) -> TableView {
    let d = table.deck;
    let n = d.len() as int;
    TableView {
        deck: d.take(n - 4),
        player1: PlayerView {
            hand: table.player1.hand.push(d[n - 1]).push(d[n - 2]),
            score_pile: table.player1.score_pile,
            wip_gains: table.player1.wip_gains,
        },
        player2: PlayerView {
            hand: table.player2.hand.push(d[n - 3]).push(d[n - 4]),
            score_pile: table.player2.score_pile,
            wip_gains: table.player2.wip_gains,
        },
        middle: table.middle,
    }
}

/// The table after a deal between two rounds of play, which has two rounds
/// and so gives each player four cards.
pub open spec fn dealt(table: TableView) -> TableView {
    deal_round(deal_round(table))
}

/// The table after the cards left in the middle went to the score pile of
/// the player at `seat`, the top card of the middle first.
pub open spec fn swept_to(table: TableView, seat: Seat) -> TableView {
    let player = table.player(seat);
    table.with_middle(Seq::empty()).with_player(
        seat,
        PlayerView {
            hand: player.hand,
            score_pile: player.score_pile + table.middle.reverse(),
            wip_gains: player.wip_gains,
        },
    )
}

/// A deal between rounds needs at least four cards in the draw pile.
pub open spec fn can_deal(table: TableView) -> bool {
    table.deck.len() >= 4
}

/// The table after both players have had their turn. While the first hand
/// still holds cards nothing happens. Once it is empty the round is over:
/// where the draw pile allows it the hands are dealt anew, otherwise the
/// game ends and what is left in the middle goes to the player whose capture
/// is the last one in `log`.
pub open spec fn table_after_round(table: TableView, log: Seq<GameEvent>) -> TableView {
    if table.player1.hand.len() > 0 {
        table
    } else if can_deal(table) {
        dealt(table)
    } else {
        match last_scorer(log) {
            Some(seat) => swept_to(table, seat),
            None => table,
        }
    }
}

/// What the log gains after both players have had their turn.
pub open spec fn events_of_round(table: TableView) -> Seq<GameEvent> {
    if table.player1.hand.len() > 0 {
        Seq::empty()
    } else if can_deal(table) {
        seq![GameEvent::RoundOver, GameEvent::Dealt]
    } else {
        seq![GameEvent::RoundOver, GameEvent::GameOver]
    }
}

/// An empty table with a fresh deck as its draw pile.
pub open spec fn fresh_table(deck: Seq<Card>) -> TableView {
    let nobody = PlayerView { hand: Seq::empty(), score_pile: Seq::empty(), wip_gains: 0 };
    TableView { deck, player1: nobody, player2: nobody, middle: Seq::empty() }
}

/// The game as it stands after the start with `seed`: a fresh deck was
/// shuffled and the opening deal was made.
pub open spec fn opening(seed: u64) -> GameView {
    GameView {
        table: opening_deal(
            fresh_table(shuffled(standard_deck(), seed, SHUFFLE_ROUNDS as nat)),
        ),
        events: seq![GameEvent::Started, GameEvent::Shuffled, GameEvent::Dealt],
    }
}

/// The first player may play `card`: the game is not over and the card is
/// in the first hand.
pub open spec fn playable(game: GameView, card: Card) -> bool {
    !is_over(game.events) && game.table.player1.hand.contains(card)
}

/// What the log gains by a round in which the first player plays `card1`
/// and the second player answers with `card2`.
pub open spec fn events_of_play(game: GameView, card1: Card, card2: Card) -> Seq<GameEvent> {
    let first = table_after_turn(game.table, Seat::One, card1);
    let second = table_after_turn(first, Seat::Two, card2);
    events_of_turn(game.table, Seat::One, card1) + events_of_turn(first, Seat::Two, card2)
        + events_of_round(second)
}

/// The game after a round in which the first player plays `card1` and the
/// second player answers with `card2`.
pub open spec fn played(game: GameView, card1: Card, card2: Card) -> GameView {
    let first = table_after_turn(game.table, Seat::One, card1);
    let second = table_after_turn(first, Seat::Two, card2);
    let log = game.events + events_of_turn(game.table, Seat::One, card1) + events_of_turn(
        first,
        Seat::Two,
        card2,
    );
    GameView {
        table: table_after_round(second, log),
        events: game.events + events_of_play(game, card1, card2),
    }
}

} // verus!

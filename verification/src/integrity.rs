//! What holds of every game from its start to its end, and why.

use vstd::prelude::*;
use vstd::multiset::*;
use vstd::seq_lib::*;
use vstd::set_lib::*;
use crate::card::{lemma_standard_deck_cards, standard_deck, Card};
use crate::deck::{
    first_match, lemma_first_match, lemma_without, same_card, same_number, SHUFFLE_ROUNDS,
};
use crate::event::{is_over, last_scorer, lemma_last_scorer_skips, GameEvent, Seat};
use crate::rules::{
    can_deal, deal_round, dealt, events_of_play, events_of_round, events_of_turn, fresh_table,
    has_number, lemma_capture_all, opening, opening_round, other_number, placed, playable, played,
    swept_to, table_after_turn, turn_events, GameView, TableView,
};
use crate::shuffle::{lemma_shuffled_is_permutation, shuffled};

verus! {

/// No two cards of `pile` have the same number.
pub open spec fn numbers_differ(pile: Seq<Card>) -> bool {
    forall|i: int, j: int|
        0 <= i < j < pile.len() ==> (#[trigger] pile[i]).card_number != (
        #[trigger] pile[j]).card_number
}

/// The table of a game in which nobody has captured anything yet: the score
/// piles are empty, and the cards that were put down since the opening deal
/// lie in the middle, each with a number of its own.
pub open spec fn nothing_captured(table: TableView) -> bool {
    &&& table.player1.score_pile.len() == 0
    &&& table.player2.score_pile.len() == 0
    &&& table.middle.len() >= 4
    &&& numbers_differ(table.middle.skip(3))
}

/// What holds of a game at every moment between two moves.
///
/// - The table holds the fifty-two cards of a standard deck, each once.
/// - Both hands hold the same number of cards, four at most.
/// - The draw pile holds a multiple of eight cards.
/// - The game is over exactly when the hands are empty, and then the draw
///   pile and the middle are empty too.
/// - As long as the log holds no capture, nothing has been captured.
/// - Every sweep brought at least two cards into a score pile.
pub open spec fn well_formed(game: GameView) -> bool {
    let table = game.table;
    &&& table.cards() == standard_deck().to_multiset()
    &&& table.player1.hand.len() == table.player2.hand.len()
    &&& table.player1.hand.len() <= 4
    &&& table.deck.len() % 8 == 0
    &&& is_over(game.events) <==> table.player1.hand.len() == 0
    &&& is_over(game.events) ==> table.deck.len() == 0 && table.middle.len() == 0
    &&& last_scorer(game.events) is None ==> nothing_captured(table)
    &&& 2 * (table.player1.wip_gains + table.player2.wip_gains) <= table.player1.score_pile.len()
        + table.player2.score_pile.len()
}

/// The cards of a table are as many as its piles hold together.
pub proof fn lemma_cards_len(table: TableView)
    ensures
        table.cards().len() == table.card_count(),
{
    broadcast use group_multiset_axioms;
    broadcast use group_to_multiset_ensures;

}

/// A table with the cards of a standard deck holds fifty-two cards, each of
/// them a standard card, and none of them twice.
pub proof fn lemma_standard_table(table: TableView)
    requires
        table.cards() == standard_deck().to_multiset(),
    ensures
        table.card_count() == 52,
        forall|card: Card| #[trigger] table.cards().count(card) > 0 ==> card.is_standard(),
        forall|card: Card| #[trigger] table.cards().count(card) <= 1,
{
    broadcast use group_multiset_axioms;
    broadcast use group_to_multiset_ensures;

    lemma_cards_len(table);
    lemma_standard_deck_cards();
    standard_deck().lemma_multiset_has_no_duplicates();
    assert forall|card: Card| #[trigger] table.cards().count(card) > 0 implies card.is_standard() by {
        assert(standard_deck().contains(card));
    }
}

/// A pile of standard cards with a number each of its own holds thirteen
/// cards at most.
pub proof fn lemma_numbers_run_out(pile: Seq<Card>)
    requires
        numbers_differ(pile),
        forall|k: int| 0 <= k < pile.len() ==> (#[trigger] pile[k]).is_standard(),
    ensures
        pile.len() <= 13,
{
    let numbers = Seq::new(pile.len(), |k: int| pile[k].card_number.0 as int);
    assert(numbers.no_duplicates()) by {
        assert forall|i: int, j: int|
            0 <= i < numbers.len() && 0 <= j < numbers.len() && i != j implies numbers[i]
            != numbers[j] by {
            if i < j {
                assert(pile[i].card_number != pile[j].card_number);
            } else {
                assert(pile[j].card_number != pile[i].card_number);
            }
        }
    }
    numbers.unique_seq_to_set();
    lemma_int_range(1, 14);
    assert(numbers.to_set().subset_of(set_int_range(1, 14))) by {
        assert forall|n: int| numbers.to_set().contains(n) implies set_int_range(1, 14).contains(
            n,
        ) by {
            let k = choose|k: int| 0 <= k < numbers.len() && numbers[k] == n;
            assert(pile[k].is_standard());
        }
    }
    lemma_len_subset(numbers.to_set(), set_int_range(1, 14));
}

/// What a turn does to the table, for a card that the player holds. No card
/// is lost or added; the hand loses the card played; the other player and
/// the draw pile are left alone. Where the middle holds the number of the
/// card, all cards with that number leave the middle, and they and the card
/// played arrive in the score pile of the player; otherwise the card lies on
/// top of the middle and the score pile is as it was. The sweep counter goes
/// up by one exactly when the middle is empty after the turn, which takes a
/// capture.
pub proof fn lemma_turn(table: TableView, seat: Seat, card: Card)
    requires
        table.player(seat).hand.contains(card),
    ensures
        ({
            let before = table.player(seat);
            let after = table_after_turn(table, seat, card);
            let number = card.card_number;
            &&& after.cards() == table.cards()
            &&& after.deck == table.deck
            &&& after.player(seat.other()) == table.player(seat.other())
            &&& after.player(seat).hand.len() + 1 == before.hand.len()
            &&& after.player(seat).hand.to_multiset() == before.hand.to_multiset().remove(card)
            &&& after.player(seat).wip_gains == before.wip_gains + if after.middle.len() == 0 {
                1nat
            } else {
                0nat
            }
            &&& after.middle.len() == 0 ==> has_number(table.middle, number)
            &&& has_number(table.middle, number) ==> {
                &&& !has_number(after.middle, number)
                &&& after.middle.to_multiset() == table.middle.to_multiset().filter(
                    other_number(number),
                )
                &&& after.player(seat).score_pile.to_multiset()
                    == before.score_pile.to_multiset().add(
                    table.middle.to_multiset().filter(same_number(number)),
                ).insert(card)
                &&& after.player(seat).score_pile.len() >= before.score_pile.len() + 2
            }
            &&& !has_number(table.middle, number) ==> {
                &&& after.middle == table.middle.push(card)
                &&& after.player(seat).score_pile == before.score_pile
            }
        }),
{
    broadcast use group_multiset_axioms;
    broadcast use group_to_multiset_ensures;

    let player = table.player(seat);
    let after = table_after_turn(table, seat, card);
    lemma_first_match(player.hand, same_card(card));
    let k = choose|k: int| 0 <= k < player.hand.len() && player.hand[k] == card;
    assert(same_card(card)(player.hand[k]));
    let index = first_match(player.hand, same_card(card))->0;
    lemma_without(player.hand, index);
    lemma_capture_all(table.middle, player.score_pile, card.card_number);
    let put = placed(table.middle, player.score_pile, card);
    assert(put.0.to_multiset().add(put.1.to_multiset()) =~= table.middle.to_multiset().add(
        player.score_pile.to_multiset(),
    ).insert(card));
    assert(after.cards() =~= table.cards());
}

/// What a turn does to the log: the turn is the last capture in the log
/// exactly when it was a capture, and a log that ends with a turn is not
/// closed.
pub proof fn lemma_turn_events(log: Seq<GameEvent>, seat: Seat, scored: bool, swept: bool)
    ensures
        last_scorer(log + turn_events(seat, scored, swept)) == if scored {
            Some(seat)
        } else {
            last_scorer(log)
        },
        !is_over(log + turn_events(seat, scored, swept)),
        (log + turn_events(seat, scored, swept)).last() == seat.played(),
{
    let sweep = if swept {
        seq![seat.wipped()]
    } else {
        Seq::<GameEvent>::empty()
    };
    let tail = sweep + seq![seat.played()];
    if scored {
        let upto = log + seq![seat.scored()];
        assert(log + turn_events(seat, scored, swept) =~= upto + tail);
        lemma_last_scorer_skips(upto, tail);
        assert(upto.last() == seat.scored());
    } else {
        assert(log + turn_events(seat, scored, swept) =~= log + tail);
        lemma_last_scorer_skips(log, tail);
    }
}

/// A turn without a capture in a game without captures leaves it a game
/// without captures: the card played has a number that the middle did not
/// hold.
pub proof fn lemma_quiet_turn(table: TableView, seat: Seat, card: Card)
    requires
        table.player(seat).hand.contains(card),
        nothing_captured(table),
        !has_number(table.middle, card.card_number),
    ensures
        nothing_captured(table_after_turn(table, seat, card)),
{
    lemma_turn(table, seat, card);
    let before = table.middle.skip(3);
    let after = table_after_turn(table, seat, card).middle.skip(3);
    assert(after =~= before.push(card));
    assert forall|i: int, j: int| 0 <= i < j < after.len() implies (#[trigger] after[i]).card_number
        != (#[trigger] after[j]).card_number by {
        if j == after.len() - 1 {
            assert(after[i] == table.middle[i + 3]);
        } else {
            assert(before[i].card_number != before[j].card_number);
        }
    }
}

/// One round of a deal moves four cards from the draw pile to the hands,
/// two to each, and leaves everything else alone.
pub proof fn lemma_deal_round(table: TableView)
    requires
        table.deck.len() >= 4,
    ensures
        deal_round(table).cards() == table.cards(),
        deal_round(table).deck.len() == table.deck.len() - 4,
        deal_round(table).player1.hand.len() == table.player1.hand.len() + 2,
        deal_round(table).player2.hand.len() == table.player2.hand.len() + 2,
        deal_round(table).middle == table.middle,
        deal_round(table).player1.score_pile == table.player1.score_pile,
        deal_round(table).player2.score_pile == table.player2.score_pile,
        deal_round(table).player1.wip_gains == table.player1.wip_gains,
        deal_round(table).player2.wip_gains == table.player2.wip_gains,
{
    broadcast use group_multiset_axioms;
    broadcast use group_to_multiset_ensures;

    let d = table.deck;
    let n = d.len() as int;
    let rest = d.take(n - 4);
    assert(d =~= rest.push(d[n - 4]).push(d[n - 3]).push(d[n - 2]).push(d[n - 1]));
    assert(deal_round(table).cards() =~= table.cards());
}

/// A deal between rounds moves eight cards from the draw pile to the hands,
/// four to each, and leaves everything else alone.
pub proof fn lemma_dealt(table: TableView)
    requires
        table.deck.len() >= 8,
    ensures
        dealt(table).cards() == table.cards(),
        dealt(table).deck.len() == table.deck.len() - 8,
        dealt(table).player1.hand.len() == table.player1.hand.len() + 4,
        dealt(table).player2.hand.len() == table.player2.hand.len() + 4,
        dealt(table).middle == table.middle,
        dealt(table).player1.score_pile == table.player1.score_pile,
        dealt(table).player2.score_pile == table.player2.score_pile,
        dealt(table).player1.wip_gains == table.player1.wip_gains,
        dealt(table).player2.wip_gains == table.player2.wip_gains,
{
    lemma_deal_round(table);
    lemma_deal_round(deal_round(table));
}

/// One round of the opening deal moves six cards from the draw pile: two to
/// each hand and two to the middle.
pub proof fn lemma_opening_round(table: TableView)
    requires
        table.deck.len() >= 6,
    ensures
        opening_round(table).cards() == table.cards(),
        opening_round(table).deck.len() == table.deck.len() - 6,
        opening_round(table).player1.hand.len() == table.player1.hand.len() + 2,
        opening_round(table).player2.hand.len() == table.player2.hand.len() + 2,
        opening_round(table).middle.len() == table.middle.len() + 2,
        opening_round(table).player1.score_pile == table.player1.score_pile,
        opening_round(table).player2.score_pile == table.player2.score_pile,
        opening_round(table).player1.wip_gains == table.player1.wip_gains,
        opening_round(table).player2.wip_gains == table.player2.wip_gains,
{
    broadcast use group_multiset_axioms;
    broadcast use group_to_multiset_ensures;

    let d = table.deck;
    let n = d.len() as int;
    let rest = d.take(n - 6);
    assert(d =~= rest.push(d[n - 6]).push(d[n - 5]).push(d[n - 4]).push(d[n - 3]).push(
        d[n - 2],
    ).push(d[n - 1]));
    assert(opening_round(table).cards() =~= table.cards());
}

/// At the end of a game the cards left in the middle go to one score pile;
/// no card is lost or added on the way.
pub proof fn lemma_swept_to(table: TableView, seat: Seat)
    ensures
        ({
            let before = table.player(seat);
            let after = swept_to(table, seat);
            &&& after.cards() == table.cards()
            &&& after.middle.len() == 0
            &&& after.deck == table.deck
            &&& after.player1.hand == table.player1.hand
            &&& after.player2.hand == table.player2.hand
            &&& after.player(seat).score_pile.to_multiset() == before.score_pile.to_multiset().add(
                table.middle.to_multiset(),
            )
            &&& after.player(seat).score_pile.len() == before.score_pile.len() + table.middle.len()
            &&& after.player(seat.other()) == table.player(seat.other())
            &&& after.player1.wip_gains == table.player1.wip_gains
            &&& after.player2.wip_gains == table.player2.wip_gains
        }),
{
    broadcast use group_multiset_axioms;
    broadcast use group_to_multiset_ensures;

    table.middle.lemma_reverse_to_multiset();
    lemma_multiset_commutative(table.player(seat).score_pile, table.middle.reverse());
    assert(swept_to(table, seat).cards() =~= table.cards());
}

/// A game starts well formed, with four cards in each hand and in the
/// middle, forty cards in the draw pile, empty score piles and a log of
/// three entries.
pub proof fn lemma_opening(seed: u64)
    ensures
        well_formed(opening(seed)),
        opening(seed).table.player1.hand.len() == 4,
        opening(seed).table.player2.hand.len() == 4,
        opening(seed).table.middle.len() == 4,
        opening(seed).table.deck.len() == 40,
        opening(seed).table.player1.score_pile.len() == 0,
        opening(seed).table.player2.score_pile.len() == 0,
        opening(seed).table.player1.wip_gains == 0,
        opening(seed).table.player2.wip_gains == 0,
        opening(seed).events == seq![GameEvent::Started, GameEvent::Shuffled, GameEvent::Dealt],
{
    broadcast use group_multiset_axioms;
    broadcast use group_to_multiset_ensures;

    let deck = shuffled(standard_deck(), seed, SHUFFLE_ROUNDS as nat);
    lemma_shuffled_is_permutation(standard_deck(), seed, SHUFFLE_ROUNDS as nat);
    let table = fresh_table(deck);
    assert(table.cards() =~= deck.to_multiset());
    lemma_opening_round(table);
    lemma_opening_round(opening_round(table));
    let events = opening(seed).events;
    assert(events.last() == GameEvent::Dealt);
    reveal_with_fuel(last_scorer, 4);
    assert(events.drop_last() =~= seq![GameEvent::Started, GameEvent::Shuffled]);
    assert(events.drop_last().drop_last() =~= seq![GameEvent::Started]);
    assert(events.drop_last().drop_last().drop_last() =~= Seq::<GameEvent>::empty());
    assert(last_scorer(events) is None);
    let middle = opening(seed).table.middle;
    assert(middle.skip(3).len() == 1);
}

/// A game does not end before somebody has captured: once the draw pile and
/// the hands are empty, the log holds a capture. Without one all fifty-two
/// cards would lie in the middle, all but three of them with a number of
/// their own, and a deck has thirteen numbers.
pub proof fn lemma_capture_before_end(table: TableView, log: Seq<GameEvent>)
    requires
        table.cards() == standard_deck().to_multiset(),
        table.deck.len() == 0,
        table.player1.hand.len() == 0,
        table.player2.hand.len() == 0,
        last_scorer(log) is None ==> nothing_captured(table),
    ensures
        last_scorer(log) is Some,
{
    broadcast use group_to_multiset_ensures;
    broadcast use group_multiset_axioms;

    if last_scorer(log) is None {
        lemma_standard_table(table);
        let late = table.middle.skip(3);
        assert forall|k: int| 0 <= k < late.len() implies (#[trigger] late[k]).is_standard() by {
            let card = table.middle[k + 3];
            assert(table.middle.contains(card));
            assert(table.middle.to_multiset().count(card) > 0);
            assert(table.cards().count(card) > 0);
        }
        lemma_numbers_run_out(late);
    }
}

/// The table and the log after both players have had their turn, before the
/// round is closed. No card was lost or added, the draw pile is as it was,
/// each hand is one card shorter, and where the log still holds no capture,
/// nothing has been captured.
pub proof fn lemma_turns(game: GameView, card1: Card, card2: Card)
    requires
        well_formed(game),
        playable(game, card1),
        game.table.player2.hand.contains(card2),
    ensures
        ({
            let first = table_after_turn(game.table, Seat::One, card1);
            let second = table_after_turn(first, Seat::Two, card2);
            let log = game.events + events_of_turn(game.table, Seat::One, card1) + events_of_turn(
                first,
                Seat::Two,
                card2,
            );
            &&& first.player2.hand.contains(card2)
            &&& second.cards() == standard_deck().to_multiset()
            &&& second.deck == game.table.deck
            &&& second.player1.hand.len() + 1 == game.table.player1.hand.len()
            &&& second.player2.hand.len() + 1 == game.table.player2.hand.len()
            &&& last_scorer(log) is None ==> nothing_captured(second)
            &&& !is_over(log)
            &&& 2 * (second.player1.wip_gains + second.player2.wip_gains)
                <= second.player1.score_pile.len() + second.player2.score_pile.len()
            &&& first.player1.wip_gains <= game.table.player1.wip_gains + 1
            &&& second.player2.wip_gains <= game.table.player2.wip_gains + 1
            &&& game.table.player1.wip_gains + game.table.player2.wip_gains <= 26
        }),
{
    let first = table_after_turn(game.table, Seat::One, card1);
    let second = table_after_turn(first, Seat::Two, card2);
    let events1 = events_of_turn(game.table, Seat::One, card1);
    let events2 = events_of_turn(first, Seat::Two, card2);
    let log = game.events + events1 + events2;
    lemma_standard_table(game.table);
    lemma_turn(game.table, Seat::One, card1);
    lemma_turn(first, Seat::Two, card2);
    lemma_turn_events(
        game.events,
        Seat::One,
        has_number(game.table.middle, card1.card_number),
        first.middle.len() == 0,
    );
    lemma_turn_events(
        game.events + events1,
        Seat::Two,
        has_number(first.middle, card2.card_number),
        second.middle.len() == 0,
    );
    if last_scorer(log) is None {
        lemma_quiet_turn(game.table, Seat::One, card1);
        lemma_quiet_turn(first, Seat::Two, card2);
    }
}

/// A round of play leads from a well-formed game to a well-formed game,
/// whatever card of the first hand is played and whatever card of the second
/// hand answers it. The log only grows, the draw pile never does, and the
/// table holds fifty-two cards as before.
pub proof fn lemma_played(game: GameView, card1: Card, card2: Card)
    requires
        well_formed(game),
        playable(game, card1),
        game.table.player2.hand.contains(card2),
    ensures
        well_formed(played(game, card1, card2)),
        played(game, card1, card2).events == game.events + events_of_play(game, card1, card2),
        played(game, card1, card2).table.card_count() == 52,
        played(game, card1, card2).table.deck.len() <= game.table.deck.len(),
        played(game, card1, card2).table.deck.is_prefix_of(game.table.deck),
{
    let first = table_after_turn(game.table, Seat::One, card1);
    let second = table_after_turn(first, Seat::Two, card2);
    let events1 = events_of_turn(game.table, Seat::One, card1);
    let events2 = events_of_turn(first, Seat::Two, card2);
    let log = game.events + events1 + events2;
    let after = played(game, card1, card2);
    lemma_turns(game, card1, card2);
    let closing = events_of_round(second);
    assert(after.events =~= log + closing);
    if second.player1.hand.len() > 0 {
        assert(after.events =~= log);
    } else if can_deal(second) {
        lemma_dealt(second);
        lemma_last_scorer_skips(log, closing);
        assert(after.events.last() == GameEvent::Dealt);
        assert(after.table.deck =~= second.deck.take(second.deck.len() - 8));
    } else {
        lemma_capture_before_end(second, log);
        let seat = last_scorer(log)->0;
        lemma_swept_to(second, seat);
        lemma_last_scorer_skips(log, closing);
        assert(after.events.last() == GameEvent::GameOver);
    }
    lemma_standard_table(after.table);
}

/// What a turn writes into the log: one entry for a capture, however many
/// cards were taken, and none without a capture; one entry for a sweep, and
/// none without a sweep; and one entry that closes the turn.
pub proof fn lemma_turn_log(seat: Seat, scored: bool, swept: bool)
    ensures
        turn_events(seat, scored, swept).to_multiset().count(seat.scored()) == if scored {
            1nat
        } else {
            0nat
        },
        turn_events(seat, scored, swept).to_multiset().count(seat.wipped()) == if swept {
            1nat
        } else {
            0nat
        },
        turn_events(seat, scored, swept).to_multiset().count(seat.played()) == 1,
        turn_events(seat, scored, swept).len() == 1 + if scored {
            1nat
        } else {
            0nat
        } + if swept {
            1nat
        } else {
            0nat
        },
{
    broadcast use group_multiset_axioms;
    broadcast use group_to_multiset_ensures;

    let none = Seq::<GameEvent>::empty();
    let capture = if scored {
        none.push(seat.scored())
    } else {
        none
    };
    let sweep = if swept {
        capture.push(seat.wipped())
    } else {
        capture
    };
    assert(turn_events(seat, scored, swept) =~= sweep.push(seat.played()));
    assert(none.to_multiset().len() == 0);
}

/// The end of a game. When the last cards of the hands have been played and
/// the draw pile cannot serve another deal, the log holds a capture; what
/// is left in the middle goes to the player whose capture is the last in the
/// log, and to nobody else; the log is closed with `RoundOver` and
/// `GameOver`; and no card can be played any more.
pub proof fn lemma_game_end(game: GameView, card1: Card, card2: Card)
    requires
        well_formed(game),
        playable(game, card1),
        game.table.player2.hand.contains(card2),
        game.table.player1.hand.len() == 1,
        game.table.deck.len() < 4,
    ensures
        ({
            let first = table_after_turn(game.table, Seat::One, card1);
            let second = table_after_turn(first, Seat::Two, card2);
            let log = game.events + events_of_turn(game.table, Seat::One, card1) + events_of_turn(
                first,
                Seat::Two,
                card2,
            );
            let after = played(game, card1, card2);
            let seat = last_scorer(log)->0;
            &&& last_scorer(log) is Some
            &&& after.table == swept_to(second, seat)
            &&& after.table.middle.len() == 0
            &&& after.table.player(seat).score_pile.to_multiset()
                == second.player(seat).score_pile.to_multiset().add(second.middle.to_multiset())
            &&& after.table.player(seat.other()).score_pile
                == second.player(seat.other()).score_pile
            &&& after.events == log + seq![GameEvent::RoundOver, GameEvent::GameOver]
            &&& is_over(after.events)
            &&& forall|card: Card| !playable(after, card)
        }),
{
    let first = table_after_turn(game.table, Seat::One, card1);
    let second = table_after_turn(first, Seat::Two, card2);
    let log = game.events + events_of_turn(game.table, Seat::One, card1) + events_of_turn(
        first,
        Seat::Two,
        card2,
    );
    let after = played(game, card1, card2);
    lemma_played(game, card1, card2);
    lemma_turn(game.table, Seat::One, card1);
    lemma_turn(first, Seat::Two, card2);
    if last_scorer(log) is None {
        lemma_turn_events(
            game.events,
            Seat::One,
            has_number(game.table.middle, card1.card_number),
            first.middle.len() == 0,
        );
        lemma_turn_events(
            game.events + events_of_turn(game.table, Seat::One, card1),
            Seat::Two,
            has_number(first.middle, card2.card_number),
            second.middle.len() == 0,
        );
        lemma_quiet_turn(game.table, Seat::One, card1);
        lemma_quiet_turn(first, Seat::Two, card2);
    }
    lemma_capture_before_end(second, log);
    lemma_swept_to(second, last_scorer(log)->0);
    assert(after.events =~= log + seq![GameEvent::RoundOver, GameEvent::GameOver]);
}

/// A well-formed game has fifty-two cards on the table.
pub proof fn lemma_card_count(game: GameView)
    requires
        well_formed(game),
    ensures
        game.table.card_count() == 52,
{
    lemma_standard_table(game.table);
}

} // verus!

//! The piles on the table and the players that own them.

use vstd::prelude::*;
use crate::deck::Deck;
use crate::rules::{can_deal, deal_round, dealt, opening_deal, opening_round, PlayerView, TableView};

verus! {

/// A player: the hand, the pile of captured cards and the number of sweeps
/// made so far.
#[derive(Debug)]
pub struct Player {
    pub hand: Deck,
    pub score_pile: Deck,
    pub wip_gains: usize,
}

impl View for Player {
    type V = PlayerView;

    open spec fn view(&self) -> PlayerView {
        PlayerView {
            hand: self.hand@,
            score_pile: self.score_pile@,
            wip_gains: self.wip_gains as nat,
        }
    }
}

impl Clone for Player {
    /// A player who holds the same cards and has made as many sweeps.
    fn clone(&self) -> (copy: Player)
        ensures
            copy@ == self@,
    {
        Player {
            hand: self.hand.clone(),
            score_pile: self.score_pile.clone(),
            wip_gains: self.wip_gains,
        }
    }
}

impl Player {
    /// A player who holds nothing yet.
    pub fn new() -> (player: Player)
        ensures
            player@ == (PlayerView { hand: Seq::empty(), score_pile: Seq::empty(), wip_gains: 0 }),
    {
        Player { hand: Deck::empty(), score_pile: Deck::empty(), wip_gains: 0 }
    }
}

/// The table: the draw pile, the two players and the middle pile.
#[derive(Debug)]
pub struct GameState {
    pub deck: Deck,
    pub player1: Player,
    pub player2: Player,
    pub middle: Deck,
}

impl View for GameState {
    type V = TableView;

    open spec fn view(&self) -> TableView {
        TableView {
            deck: self.deck@,
            player1: self.player1@,
            player2: self.player2@,
            middle: self.middle@,
        }
    }
}

impl Clone for GameState {
    /// A table with the same cards in the same places.
    fn clone(&self) -> (copy: GameState)
        ensures
            copy@ == self@,
    {
        GameState {
            deck: self.deck.clone(),
            player1: self.player1.clone(),
            player2: self.player2.clone(),
            middle: self.middle.clone(),
        }
    }
}

/// Moves the top card of `from` to the top of `to`. Nothing moves where
/// `from` is empty.
pub fn move_top_card(from: &mut Deck, to: &mut Deck)
    ensures
        old(from)@.len() == 0 ==> final(from)@ == old(from)@ && final(to)@ == old(to)@,
        old(from)@.len() > 0 ==> final(from)@ == old(from)@.drop_last(),
        old(from)@.len() > 0 ==> final(to)@ == old(to)@.push(old(from)@.last()),
{
    if let Some(card) = from.take_top_card() {
        to.push_card(card);
    }
}

impl GameState {
    /// True where the draw pile holds the four cards a deal asks for.
    pub fn can_deal(&self) -> (possible: bool)
        ensures
            possible == can_deal(self@),
    {
        self.deck.len() >= 4
    }

    /// Deals four cards to each player, two at a time: two to the first
    /// player, two to the second, and the same again.
    pub fn deal(&mut self)
        requires
            old(self)@.deck.len() >= 8,
        ensures
            final(self)@ == dealt(old(self)@),
    {
        self.deal_round();
        self.deal_round();
    }

    /// Deals two cards to the first player and two to the second.
    fn deal_round(&mut self)
        requires
            old(self)@.deck.len() >= 4,
        ensures
            final(self)@ == deal_round(old(self)@),
    {
        move_top_card(&mut self.deck, &mut self.player1.hand);
        move_top_card(&mut self.deck, &mut self.player1.hand);
        move_top_card(&mut self.deck, &mut self.player2.hand);
        move_top_card(&mut self.deck, &mut self.player2.hand);
        assert(self.deck@ =~= old(self)@.deck.take(old(self)@.deck.len() - 4));
    }

    /// Deals the cards that open a game: two to the first player, two to the
    /// middle, two to the second player, and the same again.
    pub fn deal_opening(&mut self)
        requires
            old(self)@.deck.len() >= 12,
        ensures
            final(self)@ == opening_deal(old(self)@),
    {
        self.opening_round();
        self.opening_round();
    }

    /// Deals two cards to the first player, two to the middle and two to the
    /// second player.
    fn opening_round(&mut self)
        requires
            old(self)@.deck.len() >= 6,
        ensures
            final(self)@ == opening_round(old(self)@),
    {
        move_top_card(&mut self.deck, &mut self.player1.hand);
        move_top_card(&mut self.deck, &mut self.player1.hand);
        move_top_card(&mut self.deck, &mut self.middle);
        move_top_card(&mut self.deck, &mut self.middle);
        move_top_card(&mut self.deck, &mut self.player2.hand);
        move_top_card(&mut self.deck, &mut self.player2.hand);
        assert(self.deck@ =~= old(self)@.deck.take(old(self)@.deck.len() - 6));
    }
}

} // verus!

//! Cards and the standard deck of fifty-two.

use vstd::prelude::*;

verus! {

/// The four suits.
#[derive(Debug, Copy, Clone, PartialEq, Eq, Structural)]
pub enum Suit {
    Hearts,
    Diamonds,
    Clubs,
    Spades,
}

/// The number on a card: 1 is the ace, 11 to 13 are jack, queen and king.
#[derive(Debug, Copy, Clone, PartialEq, Eq, Structural)]
pub struct CardNumber(pub u8);

/// A playing card. Two cards are the same card when suit and number agree.
#[derive(Debug, Copy, Clone, PartialEq, Eq, Structural)]
pub struct Card {
    pub suit: Suit,
    pub card_number: CardNumber,
}

impl Card {
    /// A card of a standard deck: its number lies between 1 and 13.
    pub open spec fn is_standard(self) -> bool {
        1 <= self.card_number.0 <= 13
    }
}

/// The suit at position `i` of a fresh deck: hearts, diamonds, clubs and
/// spades take turns.
pub open spec fn standard_suit(i: int) -> Suit {
    if i % 4 == 0 {
        Suit::Hearts
    } else if i % 4 == 1 {
        Suit::Diamonds
    } else if i % 4 == 2 {
        Suit::Clubs
    } else {
        Suit::Spades
    }
}

/// The card at position `i` of a fresh deck: the four aces come first, then
/// the four twos, and so on up to the kings.
pub open spec fn standard_card(i: int) -> Card {
    Card { suit: standard_suit(i), card_number: CardNumber((i / 4 + 1) as u8) }
}

/// A fresh deck: one card of every suit and number, in the order of
/// `standard_card`.
pub open spec fn standard_deck() -> Seq<Card> {
    Seq::new(52, |i: int| standard_card(i))
}

/// Where a standard card sits in a fresh deck.
pub open spec fn standard_position(card: Card) -> int {
    (card.card_number.0 - 1) * 4 + match card.suit {
        Suit::Hearts => 0int,
        Suit::Diamonds => 1int,
        Suit::Clubs => 2int,
        Suit::Spades => 3int,
    }
}

/// A fresh deck holds exactly the standard cards, each of them once.
pub proof fn lemma_standard_deck_cards()
    ensures
        standard_deck().len() == 52,
        standard_deck().no_duplicates(),
        forall|card: Card| #[trigger] standard_deck().contains(card) <==> card.is_standard(),
{
    let deck = standard_deck();
    assert forall|i: int, j: int| 0 <= i < deck.len() && 0 <= j < deck.len() && i != j implies deck[i]
        != deck[j] by {
        assert(standard_position(deck[i]) == i);
        assert(standard_position(deck[j]) == j);
    }
    assert forall|card: Card| #[trigger] deck.contains(card) <==> card.is_standard() by {
        if card.is_standard() {
            let i = standard_position(card);
            assert(deck[i] == card);
        }
    }
}

} // verus!

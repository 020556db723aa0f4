//! What a pile of captured cards is worth.
//!
//! The value of a pile depends on which cards it holds and on nothing else, so
//! it is stated over the multiset of its cards.

use vstd::prelude::*;
use vstd::multiset::*;
use crate::card::{Card, CardNumber, Suit};

verus! {

/// The cards that are aces.
pub open spec fn aces() -> spec_fn(Card) -> bool {
    |card: Card| card.card_number.0 == 1
}

/// The cards that are spades.
pub open spec fn spades() -> spec_fn(Card) -> bool {
    |card: Card| card.suit == Suit::Spades
}

/// The two of spades.
pub open spec fn two_of_spades() -> Card {
    Card { suit: Suit::Spades, card_number: CardNumber(2) }
}

/// The ten of diamonds.
pub open spec fn ten_of_diamonds() -> Card {
    Card { suit: Suit::Diamonds, card_number: CardNumber(10) }
}

/// Points for single cards: one for each ace, one for each two of spades
/// and two for each ten of diamonds.
pub open spec fn card_points(cards: Multiset<Card>) -> nat {
    cards.filter(aces()).len() + cards.count(two_of_spades()) + 2 * cards.count(ten_of_diamonds())
}

/// Two points for a pile of more than 26 cards, the majority of a deck.
pub open spec fn majority_bonus(cards: Multiset<Card>) -> nat {
    if cards.len() > 26 {
        2
    } else {
        0
    }
}

/// Two points for a pile with seven or more spades.
pub open spec fn spades_bonus(cards: Multiset<Card>) -> nat {
    if cards.filter(spades()).len() >= 7 {
        2
    } else {
        0
    }
}

/// The value of a pile: the points of its cards and the two bonuses.
pub open spec fn pile_score(cards: Multiset<Card>) -> nat {
    card_points(cards) + majority_bonus(cards) + spades_bonus(cards)
}

/// Adding a card to a multiset adds it to a filtered view exactly when the
/// filter lets the card pass.
pub proof fn lemma_filter_insert(cards: Multiset<Card>, wanted: spec_fn(Card) -> bool, card: Card)
    ensures
        cards.insert(card).filter(wanted) == if wanted(card) {
            cards.filter(wanted).insert(card)
        } else {
            cards.filter(wanted)
        },
        cards.insert(card).filter(wanted).len() == cards.filter(wanted).len() + if wanted(card) {
            1nat
        } else {
            0nat
        },
{
    broadcast use group_multiset_axioms;

    if wanted(card) {
        assert(cards.insert(card).filter(wanted) =~= cards.filter(wanted).insert(card));
    } else {
        assert(cards.insert(card).filter(wanted) =~= cards.filter(wanted));
    }
}

/// A filtered view never holds more cards than the multiset it was taken
/// from.
pub proof fn lemma_filter_len(cards: Multiset<Card>, wanted: spec_fn(Card) -> bool)
    ensures
        cards.filter(wanted).len() <= cards.len(),
{
    broadcast use group_multiset_axioms;

    let rest = cards.sub(cards.filter(wanted));
    assert(cards =~= cards.filter(wanted).add(rest));
}

/// No pile is worth more than two points a card and the two bonuses.
pub proof fn lemma_pile_score_bound(cards: Multiset<Card>)
    ensures
        pile_score(cards) <= 2 * cards.len() + 4,
{
    broadcast use group_multiset_axioms;

    let single = cards.filter(|card: Card| card == two_of_spades() || card == ten_of_diamonds());
    let both = cards.filter(
        |card: Card| card.card_number.0 == 1 || card == two_of_spades() || card == ten_of_diamonds(),
    );
    lemma_filter_len(
        cards,
        |card: Card| card.card_number.0 == 1 || card == two_of_spades() || card == ten_of_diamonds(),
    );
    let picked = cards.filter(aces()).add(single);
    assert(picked =~= both);
    lemma_count_two_values(cards, two_of_spades(), ten_of_diamonds());
}

/// The cards of a multiset that are one of two different values are as many
/// as the two values occur in it.
proof fn lemma_count_two_values(cards: Multiset<Card>, a: Card, b: Card)
    requires
        a != b,
    ensures
        cards.filter(|card: Card| card == a || card == b).len() == cards.count(a) + cards.count(b),
    decreases cards.len(),
{
    broadcast use group_multiset_axioms;

    let wanted = |card: Card| card == a || card == b;
    if cards.len() == 0 {
        lemma_filter_len(cards, wanted);
        assert(cards.count(a) <= cards.len());
        assert(cards.count(b) <= cards.len());
    } else {
        let x = cards.choose();
        let rest = cards.remove(x);
        assert(cards =~= rest.insert(x));
        lemma_count_two_values(rest, a, b);
        lemma_filter_insert(rest, wanted, x);
    }
}

} // verus!

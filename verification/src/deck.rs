//! An ordered pile of cards.
//!
//! The same container serves as draw pile, hand, middle pile and score pile.
//! The last card of the sequence is the top of the pile.

use vstd::prelude::*;
use vstd::multiset::*;
use vstd::seq_lib::*;
use crate::card::{standard_card, standard_deck, Card, CardNumber, Suit};
use crate::score::{
    aces, lemma_filter_insert, lemma_filter_len, pile_score, spades, ten_of_diamonds, two_of_spades,
};
use crate::shuffle::{shuffled, Shuffle};

verus! {

/// Number of rounds a deck is shuffled with.
pub const SHUFFLE_ROUNDS: usize = 9128;

/// The cards equal to `card`.
pub open spec fn same_card(card: Card) -> spec_fn(Card) -> bool {
    |other: Card| other == card
}

/// The cards with the number `number`, whatever their suit.
pub open spec fn same_number(number: CardNumber) -> spec_fn(Card) -> bool {
    |other: Card| other.card_number == number
}

/// `index` is the position of the first card of `s` that `wanted` accepts.
pub open spec fn is_first_match(s: Seq<Card>, wanted: spec_fn(Card) -> bool, index: int) -> bool {
    &&& 0 <= index < s.len()
    &&& wanted(s[index])
    &&& forall|k: int| 0 <= k < index ==> !wanted(#[trigger] s[k])
}

/// The position of the first card of `s` that `wanted` accepts, if there is
/// one.
pub open spec fn first_match(s: Seq<Card>, wanted: spec_fn(Card) -> bool) -> Option<int> {
    if exists|index: int| is_first_match(s, wanted, index) {
        Some(choose|index: int| is_first_match(s, wanted, index))
    } else {
        None
    }
}

/// `s` after the card at `index` was taken out: the last card moves into the
/// gap, the other cards stay where they are.
pub open spec fn without(s: Seq<Card>, index: int) -> Seq<Card> {
    s.update(index, s.last()).drop_last()
}

/// The first match sits where `is_first_match` holds.
pub proof fn lemma_first_match_at(s: Seq<Card>, wanted: spec_fn(Card) -> bool, index: int)
    requires
        is_first_match(s, wanted, index),
    ensures
        first_match(s, wanted) == Some(index),
{
    let chosen = choose|i: int| is_first_match(s, wanted, i);
    assert(is_first_match(s, wanted, chosen));
    if chosen < index {
        assert(!wanted(s[chosen]));
    }
    if index < chosen {
        assert(!wanted(s[index]));
    }
}

/// What `first_match` finds: a position with an accepted card and none
/// before it, or nothing where no card is accepted.
pub proof fn lemma_first_match(s: Seq<Card>, wanted: spec_fn(Card) -> bool)
    ensures
        match first_match(s, wanted) {
            Some(index) => is_first_match(s, wanted, index),
            None => forall|k: int| 0 <= k < s.len() ==> !wanted(#[trigger] s[k]),
        },
{
    if first_match(s, wanted) is None {
        assert forall|k: int| 0 <= k < s.len() implies !wanted(#[trigger] s[k]) by {
            if wanted(s[k]) {
                lemma_some_match(s, wanted, k);
            }
        }
    }
}

/// Where some card is accepted there is a first one.
proof fn lemma_some_match(s: Seq<Card>, wanted: spec_fn(Card) -> bool, k: int)
    requires
        0 <= k < s.len(),
        wanted(s[k]),
    ensures
        exists|index: int| is_first_match(s, wanted, index),
    decreases k,
{
    if exists|j: int| 0 <= j < k && wanted(s[j]) {
        let j = choose|j: int| 0 <= j < k && wanted(s[j]);
        lemma_some_match(s, wanted, j);
    } else {
        assert(is_first_match(s, wanted, k));
    }
}

/// Taking a card out removes one copy of it and nothing else.
pub proof fn lemma_without(s: Seq<Card>, index: int)
    requires
        0 <= index < s.len(),
    ensures
        without(s, index).len() == s.len() - 1,
        without(s, index).to_multiset() == s.to_multiset().remove(s[index]),
{
    broadcast use group_to_multiset_ensures;
    broadcast use group_multiset_axioms;

    let last = s.len() - 1;
    let moved = s.update(index, s.last());
    assert(moved.drop_last() =~= moved.remove(last));
    assert(moved.to_multiset() =~= s.to_multiset().insert(s.last()).remove(s[index]));
    assert(moved[last] == s.last());
    assert(s.to_multiset().count(s[index]) > 0) by {
        assert(s.contains(s[index]));
    }
    assert(without(s, index).to_multiset() =~= s.to_multiset().remove(s[index]));
}

/// An ordered pile of cards.
#[derive(Debug)]
pub struct Deck {
    cards: Vec<Card>,
}

impl View for Deck {
    type V = Seq<Card>;

    /// The cards from the bottom of the pile to its top.
    closed spec fn view(&self) -> Seq<Card> {
        self.cards@
    }
}

impl Clone for Deck {
    /// A pile with the same cards in the same order.
    fn clone(&self) -> (copy: Deck)
        ensures
            copy@ == self@,
    {
        let cards = self.cards.clone();
        assert(cards@ =~= self.cards@);
        Deck { cards }
    }
}

impl Deck {
    /// A fresh deck of fifty-two cards, aces first and kings last, the king
    /// of spades on top.
    pub fn new() -> (deck: Deck)
        ensures
            deck@ == standard_deck(),
    {
        let mut cards: Vec<Card> = Vec::with_capacity(52);
        let mut number: u8 = 1;
        while number <= 13
            invariant
                1 <= number <= 14,
                cards@.len() == 4 * (number - 1),
                forall|k: int| 0 <= k < cards@.len() ==> cards@[k] == standard_card(k),
            decreases 14 - number,
        {
            cards.push(Card { suit: Suit::Hearts, card_number: CardNumber(number) });
            cards.push(Card { suit: Suit::Diamonds, card_number: CardNumber(number) });
            cards.push(Card { suit: Suit::Clubs, card_number: CardNumber(number) });
            cards.push(Card { suit: Suit::Spades, card_number: CardNumber(number) });
            number += 1;
        }
        assert(cards@ =~= standard_deck());
        Deck { cards }
    }

    /// A pile without cards.
    pub fn empty() -> (deck: Deck)
        ensures
            deck@ == Seq::<Card>::empty(),
    {
        let cards: Vec<Card> = Vec::new();
        Deck { cards }
    }

    /// Shuffles the pile with `SHUFFLE_ROUNDS` rounds of a generator started
    /// at `seed`. The pile afterwards holds the cards it held before.
    pub fn shuffle(&mut self, seed: u64)
        ensures
            final(self)@ == shuffled(old(self)@, seed, SHUFFLE_ROUNDS as nat),
            final(self)@.len() == old(self)@.len(),
            final(self)@.to_multiset() == old(self)@.to_multiset(),
    {
        self.cards.shuffle(seed, SHUFFLE_ROUNDS);
    }

    /// Takes the top card off the pile. Nothing is taken from an empty pile.
    pub fn take_top_card(&mut self) -> (taken: Option<Card>)
        ensures
            old(self)@.len() == 0 ==> taken is None && final(self)@ == old(self)@,
            old(self)@.len() > 0 ==> taken == Some(old(self)@.last())
                && final(self)@ == old(self)@.drop_last(),
    {
        self.cards.pop()
    }

    /// Takes the first card equal to `card` out of the pile; the top card
    /// moves into its place. Nothing happens where the pile does not hold
    /// the card.
    pub fn take_same_card(&mut self, card: &Card) -> (taken: Option<Card>)
        ensures
            match first_match(old(self)@, same_card(*card)) {
                Some(index) => taken == Some(*card) && final(self)@ == without(old(self)@, index),
                None => taken is None && final(self)@ == old(self)@,
            },
            taken is Some <==> old(self)@.contains(*card),
            taken is Some ==> final(self)@.to_multiset() == old(self)@.to_multiset().remove(*card),
    {
        match self.position_of_card(card) {
            Some(index) => {
                proof {
                    lemma_without(self@, index as int);
                }
                Some(self.cards.swap_remove(index))
            },
            None => None,
        }
    }

    /// Takes the first card with the number of `card` out of the pile; the
    /// top card moves into its place. Nothing happens where the pile holds no
    /// card of that number.
    pub fn take_same_number(&mut self, card: &Card) -> (taken: Option<Card>)
        ensures
            match first_match(old(self)@, same_number(card.card_number)) {
                Some(index) => taken == Some(old(self)@[index]) && final(self)@ == without(
                    old(self)@,
                    index,
                ),
                None => taken is None && final(self)@ == old(self)@,
            },
            taken matches Some(found) ==> found.card_number == card.card_number
                && final(self)@.to_multiset() == old(self)@.to_multiset().remove(found),
            taken is None ==> forall|k: int|
                0 <= k < old(self)@.len() ==> (#[trigger] old(self)@[k]).card_number
                    != card.card_number,
    {
        proof {
            lemma_first_match(self@, same_number(card.card_number));
        }
        match self.position_of_number(card.card_number) {
            Some(index) => {
                proof {
                    lemma_without(self@, index as int);
                }
                Some(self.cards.swap_remove(index))
            },
            None => None,
        }
    }

    /// The position of the first card equal to `card`.
    fn position_of_card(&self, card: &Card) -> (found: Option<usize>)
        ensures
            match found {
                Some(index) => index < self@.len() && first_match(self@, same_card(*card)) == Some(
                    index as int,
                ),
                None => first_match(self@, same_card(*card)) is None && !self@.contains(*card),
            },
            found is Some ==> self@.contains(*card),
    {
        let mut index: usize = 0;
        while index < self.cards.len()
            invariant
                index <= self.cards@.len(),
                forall|k: int| 0 <= k < index ==> self.cards@[k] != *card,
            decreases self.cards@.len() - index,
        {
            if self.cards[index] == *card {
                proof {
                    lemma_first_match_at(self@, same_card(*card), index as int);
                }
                return Some(index);
            }
            index += 1;
        }
        proof {
            lemma_first_match(self@, same_card(*card));
            if first_match(self@, same_card(*card)) is Some {
                let at = first_match(self@, same_card(*card))->0;
                assert(self@[at] == *card);
            }
        }
        None
    }

    /// The position of the first card with the number `number`.
    fn position_of_number(&self, number: CardNumber) -> (found: Option<usize>)
        ensures
            match found {
                Some(index) => index < self@.len() && first_match(self@, same_number(number))
                    == Some(index as int),
                None => first_match(self@, same_number(number)) is None,
            },
    {
        let mut index: usize = 0;
        while index < self.cards.len()
            invariant
                index <= self.cards@.len(),
                forall|k: int| 0 <= k < index ==> (#[trigger] self.cards@[k]).card_number != number,
            decreases self.cards@.len() - index,
        {
            if self.cards[index].card_number == number {
                proof {
                    lemma_first_match_at(self@, same_number(number), index as int);
                }
                return Some(index);
            }
            index += 1;
        }
        proof {
            lemma_first_match(self@, same_number(number));
            if first_match(self@, same_number(number)) is Some {
                let at = first_match(self@, same_number(number))->0;
                assert(self@[at].card_number == number);
            }
        }
        None
    }

    /// True where the pile holds `card`.
    pub fn holds(&self, card: &Card) -> (held: bool)
        ensures
            held == self@.contains(*card),
    {
        self.position_of_card(card).is_some()
    }

    /// The top card of the pile, which stays where it is.
    pub fn top_card(&self) -> (top: Option<Card>)
        ensures
            self@.len() == 0 ==> top is None,
            self@.len() > 0 ==> top == Some(self@.last()),
    {
        if self.cards.len() == 0 {
            None
        } else {
            Some(self.cards[self.cards.len() - 1])
        }
    }

    /// Puts `card` on top of the pile.
    pub fn push_card(&mut self, card: Card)
        ensures
            final(self)@ == old(self)@.push(card),
    {
        self.cards.push(card);
    }

    /// True for a pile without cards.
    pub fn is_empty(&self) -> (empty: bool)
        ensures
            empty == (self@.len() == 0),
    {
        self.cards.is_empty()
    }

    /// The number of cards in the pile.
    pub fn len(&self) -> (len: usize)
        ensures
            len == self@.len(),
    {
        self.cards.len()
    }

    /// The cards of the pile, bottom first.
    pub fn cards(&self) -> (cards: Vec<Card>)
        ensures
            cards@ == self@,
    {
        let cards = self.cards.clone();
        assert(cards@ =~= self.cards@);
        cards
    }

    /// The value of the pile: a point for each ace and for the two of spades,
    /// two points for the ten of diamonds, two points for holding more than
    /// 26 cards and two points for holding seven or more spades. The value
    /// depends on the cards held, not on their order.
    pub fn count_score(&self) -> (score: usize)
        requires
            pile_score(self@.to_multiset()) <= usize::MAX,
        ensures
            score == pile_score(self@.to_multiset()),
    {
        let mut ace_count: usize = 0;
        let mut two_count: usize = 0;
        let mut ten_count: usize = 0;
        let mut spade_count: usize = 0;
        let mut index: usize = 0;
        proof {
            broadcast use group_to_multiset_ensures;
            broadcast use group_multiset_axioms;

            let none = self.cards@.take(0).to_multiset();
            assert(none.len() == 0);
            lemma_filter_len(none, aces());
            lemma_filter_len(none, spades());
        }
        while index < self.cards.len()
            invariant
                index <= self.cards@.len(),
                ace_count == self.cards@.take(index as int).to_multiset().filter(aces()).len(),
                two_count == self.cards@.take(index as int).to_multiset().count(two_of_spades()),
                ten_count == self.cards@.take(index as int).to_multiset().count(ten_of_diamonds()),
                spade_count == self.cards@.take(index as int).to_multiset().filter(spades()).len(),
                ace_count <= index,
                two_count <= index,
                ten_count <= index,
                spade_count <= index,
            decreases self.cards@.len() - index,
        {
            let card = self.cards[index];
            proof {
                broadcast use group_to_multiset_ensures;
                broadcast use group_multiset_axioms;

                let seen = self.cards@.take(index as int);
                assert(self.cards@.take(index + 1) =~= seen.push(card));
                lemma_filter_insert(seen.to_multiset(), aces(), card);
                lemma_filter_insert(seen.to_multiset(), spades(), card);
            }
            if card.card_number.0 == 1 {
                ace_count += 1;
            }
            if card.card_number.0 == 2 && card.suit == Suit::Spades {
                two_count += 1;
            }
            if card.card_number.0 == 10 && card.suit == Suit::Diamonds {
                ten_count += 1;
            }
            if card.suit == Suit::Spades {
                spade_count += 1;
            }
            index += 1;
        }
        proof {
            broadcast use group_to_multiset_ensures;

            assert(self.cards@.take(index as int) =~= self.cards@);
        }
        let mut score: usize = ace_count + two_count;
        score = score + ten_count;
        score = score + ten_count;
        if self.cards.len() > 26 {
            score = score + 2;
        }
        if spade_count >= 7 {
            score = score + 2;
        }
        score
    }
}

} // verus!

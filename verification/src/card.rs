//! Card identity: one of four suits plus a rank from 1 (Ace) to 13 (King).
//!
//! A card identifier in `0..52` encodes suit as `id / 13` and rank as
//! `id % 13 + 1`.

use vstd::prelude::*;

verus! {

#[derive(Clone, Copy, Debug, PartialEq, Eq, Structural, Hash)]
pub enum Suit {
    HEARTS,
    DIAMONDS,
    CLUBS,
    SPADES,
}

/// The suit encoded by a card identifier's high part: 0 is hearts, 1 is
/// diamonds, 2 is clubs, everything else is spades.
pub open spec fn suit_of_index(index: int) -> Suit {
    if index == 0 {
        Suit::HEARTS
    } else if index == 1 {
        Suit::DIAMONDS
    } else if index == 2 {
        Suit::CLUBS
    } else {
        Suit::SPADES
    }
}

/// Hearts and diamonds are red, clubs and spades are black.
pub open spec fn is_red(suit: Suit) -> bool {
    suit == Suit::HEARTS || suit == Suit::DIAMONDS
}

/// Two suits have the same color when both are red or both are black.
pub open spec fn spec_same_color(a: Suit, b: Suit) -> bool {
    is_red(a) == is_red(b)
}

impl Suit {
    pub fn from_index(index: i8) -> (r: Self)
        ensures
            r == suit_of_index(index as int),
    {
        if index == 0 {
            Self::HEARTS
        } else if index == 1 {
            Self::DIAMONDS
        } else if index == 2 {
            Self::CLUBS
        } else {
            Self::SPADES
        }
    }

    pub fn same_color(&self, other: Suit) -> (r: bool)
        ensures
            r == spec_same_color(*self, other),
    {
        if *self == Self::HEARTS || *self == Self::DIAMONDS {
            other == Self::HEARTS || other == Self::DIAMONDS
        } else {
            other == Self::CLUBS || other == Self::SPADES
        }
    }
}

#[derive(Clone, Copy, Debug, PartialEq, Eq, Structural)]
pub struct Card {
    pub suit: Suit,
    pub suit_index: i8,
    pub number: i8,
}

/// The card encoded by an identifier in `0..52`: suit from the identifier's
/// quotient by 13, rank from its remainder plus one.
pub open spec fn spec_card(id: int) -> Card {
    Card {
        suit: suit_of_index(id / 13),
        suit_index: (id / 13) as i8,
        number: (id % 13 + 1) as i8,
    }
}

/// A well-formed card: a valid suit index, a rank between Ace and King, and
/// a suit that agrees with the suit index.
pub open spec fn card_wf(c: Card) -> bool {
    &&& 0 <= c.suit_index < 4
    &&& 1 <= c.number <= 13
    &&& c.suit == suit_of_index(c.suit_index as int)
}

impl Card {
    pub fn new(card_index: i8) -> (r: Self)
        requires
            0 <= card_index < 52,
        ensures
            r == spec_card(card_index as int),
            card_wf(r),
    {
        Self {
            suit: Suit::from_index(card_index / 13),
            suit_index: card_index / 13,
            number: card_index % 13 + 1,
        }
    }
}

} // verus!

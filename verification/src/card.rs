//! Playing cards and the random shoe they are drawn from.
//!
//! The shoe is infinite: every draw picks a rank and a suit independently and
//! uniformly at random, so there is no finite-deck depletion. A `Hidden` card
//! stands for the dealer's face-down hole card; it contributes nothing to a
//! hand's value until it is revealed.

use vstd::prelude::*;
use rand::RngExt;

verus! {

/// The rank of a card, or `Hidden` for a face-down card whose rank is
/// unknown to the viewer.
#[derive(Clone, Copy, PartialEq, Eq, Structural, Debug)]
pub enum CardValue {
    Two,
    Three,
    Four,
    Five,
    Six,
    Seven,
    Eight,
    Nine,
    Ten,
    Jack,
    Queen,
    King,
    Ace,
    Hidden,
}

/// The suit of a card, or `Hidden` for a face-down card.
#[derive(Clone, Copy, PartialEq, Eq, Structural, Debug)]
pub enum CardSuit {
    Heart,
    Spade,
    Club,
    Diamond,
    Hidden,
}

/// A single playing card. A card is either fully visible or fully hidden;
/// partial hiding never occurs (see [`Card::wf`]).
#[derive(Clone, Copy, PartialEq, Eq, Structural, Debug)]
pub struct Card {
    pub value: CardValue,
    pub suit: CardSuit,
}

/// Relies on rand's `rng` and `RngExt::random_range`: a draw from `0..n`,
/// uniform over that range, which panics only when the range is empty.
#[verifier::external_body]
fn random_below(n: u8) -> (r: u8)
    requires
        1 <= n,
    ensures
        r < n,
{
    rand::rng().random_range(0..n)
}

/// The rank at position `i` of the enumeration `Two..Ace`: the table a
/// sampled index is mapped through, so that each of the 13 indices names
/// its own rank.
pub open spec fn rank_of_index(i: int) -> CardValue {
    if i == 0 {
        CardValue::Two
    } else if i == 1 {
        CardValue::Three
    } else if i == 2 {
        CardValue::Four
    } else if i == 3 {
        CardValue::Five
    } else if i == 4 {
        CardValue::Six
    } else if i == 5 {
        CardValue::Seven
    } else if i == 6 {
        CardValue::Eight
    } else if i == 7 {
        CardValue::Nine
    } else if i == 8 {
        CardValue::Ten
    } else if i == 9 {
        CardValue::Jack
    } else if i == 10 {
        CardValue::Queen
    } else if i == 11 {
        CardValue::King
    } else {
        CardValue::Ace
    }
}

/// The suit at position `i` of the enumeration `Heart..Diamond`.
pub open spec fn suit_of_index(i: int) -> CardSuit {
    if i == 0 {
        CardSuit::Heart
    } else if i == 1 {
        CardSuit::Spade
    } else if i == 2 {
        CardSuit::Club
    } else {
        CardSuit::Diamond
    }
}

/// The visible rank at position `i` of the enumeration `Two..Ace`.
fn value_from_index(i: u8) -> (v: CardValue)
    requires
        i < 13,
    ensures
        v == rank_of_index(i as int),
        !(v is Hidden),
{
    match i {
        0 => CardValue::Two,
        1 => CardValue::Three,
        2 => CardValue::Four,
        3 => CardValue::Five,
        4 => CardValue::Six,
        5 => CardValue::Seven,
        6 => CardValue::Eight,
        7 => CardValue::Nine,
        8 => CardValue::Ten,
        9 => CardValue::Jack,
        10 => CardValue::Queen,
        11 => CardValue::King,
        12 => CardValue::Ace,
        _ => unreached(),
    }
}

/// The visible suit at position `i` of the enumeration `Heart..Diamond`.
fn suit_from_index(i: u8) -> (s: CardSuit)
    requires
        i < 4,
    ensures
        s == suit_of_index(i as int),
        !(s is Hidden),
{
    match i {
        0 => CardSuit::Heart,
        1 => CardSuit::Spade,
        2 => CardSuit::Club,
        3 => CardSuit::Diamond,
        _ => unreached(),
    }
}

impl Card {
    /// A card is either fully hidden or fully visible.
    pub open spec fn wf(self) -> bool {
        (self.value is Hidden) <==> (self.suit is Hidden)
    }

    pub open spec fn is_visible(self) -> bool {
        !(self.value is Hidden) && !(self.suit is Hidden)
    }

    pub open spec fn is_hidden(self) -> bool {
        (self.value is Hidden) && (self.suit is Hidden)
    }

    /// The blackjack points of a card: face value for `Two..Ten`, 10 for
    /// the face cards, 11 for an ace (reduced later by hand valuation where
    /// needed), and 0 for a hidden card.
    pub open spec fn points(self) -> nat {
        match self.value {
            CardValue::Two => 2,
            CardValue::Three => 3,
            CardValue::Four => 4,
            CardValue::Five => 5,
            CardValue::Six => 6,
            CardValue::Seven => 7,
            CardValue::Eight => 8,
            CardValue::Nine => 9,
            CardValue::Ten => 10,
            CardValue::Jack => 10,
            CardValue::Queen => 10,
            CardValue::King => 10,
            CardValue::Ace => 11,
            CardValue::Hidden => 0,
        }
    }

    /// Draw a fresh visible card from the shoe: rank and suit each uniform
    /// over their visible values.
    pub fn new() -> (c: Card)
        ensures
            c.is_visible(),
            c.wf(),
    {
        Card { value: value_from_index(random_below(13)), suit: suit_from_index(random_below(4)) }
    }

    /// A face-down card, used for the dealer's hole card.
    pub fn new_hidden() -> (c: Card)
        ensures
            c.is_hidden(),
            c.wf(),
    {
        Card { value: CardValue::Hidden, suit: CardSuit::Hidden }
    }

    /// Reveal a face-down card by replacing it with a fresh random draw
    /// (the shoe is infinite, so this is the same as having dealt it face
    /// up in the first place).
    pub fn flip_card(&mut self)
        ensures
            final(self).is_visible(),
            final(self).wf(),
    {
        self.value = value_from_index(random_below(13));
        self.suit = suit_from_index(random_below(4));
    }

    /// The points of the card as a machine integer.
    pub fn numerical_value(&self) -> (r: u8)
        ensures
            r as nat == self.points(),
    {
        match self.value {
            CardValue::Two => 2,
            CardValue::Three => 3,
            CardValue::Four => 4,
            CardValue::Five => 5,
            CardValue::Six => 6,
            CardValue::Seven => 7,
            CardValue::Eight => 8,
            CardValue::Nine => 9,
            CardValue::Ten => 10,
            CardValue::Jack => 10,
            CardValue::Queen => 10,
            CardValue::King => 10,
            CardValue::Ace => 11,
            CardValue::Hidden => 0,
        }
    }
}

} // verus!

//! Card identity, trump-relative rank predicates, and scoring value.

use vstd::prelude::*;

verus! {

/// The four suits: Hearts, Diamonds, Clubs, Spades.
#[derive(Copy, Clone, Eq, PartialEq, Structural, Debug, Hash)]
pub enum Suit {
    H,
    D,
    C,
    S,
}

/// A card is either suit-ranked (rank 2 through 14, where 11..14 stand for
/// Jack, Queen, King, Ace) or the single Joker.
#[derive(Copy, Clone, Eq, PartialEq, Structural, Debug, Hash)]
pub enum Card {
    Shaped(Suit, u8),
    Joker,
}

impl Card {
    /// A card that can occur in the deck: any rank between 2 and 14, or the Joker.
    pub open spec fn valid(self) -> bool {
        match self {
            Card::Shaped(_, n) => 2 <= n && n <= 14,
            Card::Joker => true,
        }
    }

    /// The Mighty is the single strongest card: normally the Spade Ace, but
    /// the Diamond Ace when trump is Spades.
    pub open spec fn is_mighty_spec(self, trump: Option<Suit>) -> bool {
        match self {
            Card::Shaped(suit, n) => match trump {
                Some(Suit::S) => suit == Suit::D && n == 14,
                _ => suit == Suit::S && n == 14,
            },
            Card::Joker => false,
        }
    }

    pub fn is_mighty(&self, trump: Option<Suit>) -> (r: bool)
        ensures
            r == self.is_mighty_spec(trump),
    {
        match *self {
            Card::Shaped(suit, n) => match trump {
                Some(Suit::S) => suit == Suit::D && n == 14,
                _ => suit == Suit::S && n == 14,
            },
            Card::Joker => false,
        }
    }

    /// One scoring point for every rank of 10 or above; the Joker scores nothing.
    pub open spec fn score_spec(self) -> int {
        match self {
            Card::Shaped(_, n) => if n >= 10 {
                1
            } else {
                0
            },
            Card::Joker => 0,
        }
    }

    pub fn score(&self) -> (r: u8)
        ensures
            r as int == self.score_spec(),
    {
        match *self {
            Card::Shaped(_, n) => if n >= 10 {
                1
            } else {
                0
            },
            Card::Joker => 0,
        }
    }

    /// Scoring value as seen at the deal: the Mighty does not count, every
    /// other rank of 10 or above counts one point.
    pub open spec fn deal_score_spec(self, trump: Option<Suit>) -> int {
        if self.is_mighty_spec(trump) {
            0
        } else {
            self.score_spec()
        }
    }

    pub fn deal_score(&self, trump: Option<Suit>) -> (r: u8)
        ensures
            r as int == self.deal_score_spec(trump),
    {
        if self.is_mighty(trump) {
            0
        } else {
            self.score()
        }
    }

    /// The Joker-call card forces the Joker out when led: normally the Club 3,
    /// but the Heart 3 when trump is Clubs.
    pub open spec fn is_joker_call_spec(self, trump: Option<Suit>) -> bool {
        match self {
            Card::Shaped(suit, n) => match trump {
                Some(Suit::C) => suit == Suit::H && n == 3,
                _ => suit == Suit::C && n == 3,
            },
            Card::Joker => false,
        }
    }

    pub fn is_joker_call(&self, trump: Option<Suit>) -> (r: bool)
        ensures
            r == self.is_joker_call_spec(trump),
    {
        match *self {
            Card::Shaped(suit, n) => match trump {
                Some(Suit::C) => suit == Suit::H && n == 3,
                _ => suit == Suit::C && n == 3,
            },
            Card::Joker => false,
        }
    }
}

} // verus!

//! Shared types: hands, seats, contracts, actions, and error kinds.

use vstd::prelude::*;
use crate::card::{Card, Suit};

verus! {

/// A hand is a collection of distinct cards owned by one seat. Uniqueness is
/// stated by the owning phase's well-formedness predicate, not by the type.
pub type Hand = Vec<Card>;

/// One of the 5 seat positions (0 through 4).
pub type PlayerIndex = usize;

/// The ceiling on effective counts: a contract at or above it ends bidding.
pub const MAX_EFFECTIVE_COUNT: u8 = 21;

/// The condition under which the declarer's hidden partner is revealed.
#[derive(Copy, Clone, Eq, PartialEq, Structural, Debug)]
pub enum PartnerCondition {
    /// The seat that eventually plays this card becomes the partner.
    CardCondition(Card),
    /// The winner of the given round becomes the partner.
    Round(u8),
    /// A fixed seat is the partner.
    Player(PlayerIndex),
    /// The declarer plays alone.
    NoPartner,
}

/// One move in the trick-play phase.
#[derive(Copy, Clone, Eq, PartialEq, Structural, Debug)]
pub enum PlayAction {
    /// Play a held card.
    Hand(Card),
    /// Lead the Joker-call card, forcing the Joker out this round.
    JokerCall(Card),
    /// Lead the Joker and name the suit the round is played in.
    JokerStart(Suit),
}

/// A bid: an optional trump suit and a target trick count.
#[derive(Copy, Clone, Eq, PartialEq, Structural, Debug)]
pub struct Contract {
    pub suit: Option<Suit>,
    pub count: u8,
}

impl Contract {
    /// A no-trump bid outranks a trump bid of the same count, so it is
    /// effectively one level higher.
    pub open spec fn effective_count_spec(self) -> int {
        match self.suit {
            Some(_) => self.count as int,
            None => self.count as int + 1,
        }
    }

    pub fn effective_count(&self) -> (r: u8)
        requires
            self.count < 255,
        ensures
            r as int == self.effective_count_spec(),
    {
        match self.suit {
            Some(_) => self.count,
            None => self.count + 1,
        }
    }
}

/// The distinct failure kinds an engine operation can surface. All of them
/// are caller bugs: the offending operation is aborted and the state is left
/// unchanged.
#[derive(Copy, Clone, Eq, PartialEq, Structural, Debug)]
pub enum GameError {
    /// The acting seat is not the one whose turn it is.
    NotYourTurn,
    /// A bid whose effective count does not exceed the running threshold.
    BidTooLow,
    /// A final contract below the contract won at bidding's end.
    ContractLowered,
    /// A discard that is not part of the declarer's hand.
    DiscardNotHeld,
    /// Playing a card the seat does not hold.
    CardNotHeld,
    /// Holding the round suit but playing another suit.
    MustFollowSuit,
    /// The round starter may not play the Joker as a plain card.
    StarterCannotPlayJoker,
    /// A Joker call or Joker start by a seat other than the round starter.
    NotRoundStarter,
    /// A Joker call with a card that is not the Joker-call card.
    NotJokerCallCard,
}

} // verus!

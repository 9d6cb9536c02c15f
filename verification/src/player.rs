//! The decision capability: the interface a strategy implements, and a
//! baseline strategy that always picks the first legal card.

use vstd::prelude::*;
use crate::card::{Card, Suit};
use crate::common::{Contract, PartnerCondition, PlayAction};
use crate::bidding_phase::BiddingState;
use crate::extra_phase::ExtraExposedState;
use crate::play_phase::ExposedGameState;
use crate::deck::{clone_cards, contains_card, contains_suit, hand_has_suit};

verus! {

/// A strategy consulted by the orchestrator: a raise or pass while bidding,
/// a finalized plan for the exchange, and an action for each turn of play.
/// The engine checks every returned move; an illegal one is a protocol
/// violation surfaced by the phase itself.
pub trait Player {
    fn bidding(&self, state: &BiddingState) -> Option<Contract>;

    fn declare_plan(&self, state: ExtraExposedState) -> (Contract, PartnerCondition, Vec<Card>);

    fn play_action(&self, state: ExposedGameState) -> PlayAction
        requires
            state.hand@.len() > 0,
    ;
}

/// Whether a card may leave the hand to follow the round: the Mighty and
/// the Joker always may, and otherwise the round suit must be followed.
pub open spec fn follows_round(c: Card, trump: Option<Suit>, rs: Suit) -> bool {
    c.is_mighty_spec(trump) || (c matches Card::Shaped(s, _) && s == rs) || c == Card::Joker
}

/// The cards of a hand that may be played once the round suit is set and
/// the hand can follow it.
pub open spec fn follow_filter(h: Seq<Card>, trump: Option<Suit>, rs: Suit) -> Seq<Card> {
    h.filter(|c: Card| follows_round(c, trump, rs))
}

pub proof fn lemma_follow_filter_contains(h: Seq<Card>, trump: Option<Suit>, rs: Suit)
    ensures
        forall|c: Card| #[trigger] follow_filter(h, trump, rs).contains(c) <==> (h.contains(c)
            && follows_round(c, trump, rs)),
    decreases h.len(),
{
    reveal(Seq::filter);
    let m = follow_filter(h, trump, rs);
    if h.len() == 0 {
        assert forall|c: Card| #[trigger] m.contains(c) <==> (h.contains(c) && follows_round(
            c,
            trump,
            rs,
        )) by {
            if m.contains(c) {
                let i = choose|i: int| 0 <= i < m.len() && m[i] == c;
            }
            if h.contains(c) {
                let i = choose|i: int| 0 <= i < h.len() && h[i] == c;
            }
        }
    } else {
        let h0 = h.drop_last();
        let last = h.last();
        lemma_follow_filter_contains(h0, trump, rs);
        let m0 = follow_filter(h0, trump, rs);
        assert forall|c: Card| #[trigger] m.contains(c) <==> (h.contains(c) && follows_round(
            c,
            trump,
            rs,
        )) by {
            if m.contains(c) {
                let i = choose|i: int| 0 <= i < m.len() && m[i] == c;
                if follows_round(last, trump, rs) && i == m.len() - 1 {
                    assert(c == last);
                    assert(h[h.len() - 1] == c);
                } else {
                    assert(m0.contains(c));
                    assert(h0.contains(c));
                    let j = choose|j: int| 0 <= j < h0.len() && h0[j] == c;
                    assert(h[j] == c);
                }
            }
            if h.contains(c) && follows_round(c, trump, rs) {
                let i = choose|i: int| 0 <= i < h.len() && h[i] == c;
                if i < h0.len() {
                    assert(h0[i] == c);
                    assert(m0.contains(c));
                    let j = choose|j: int| 0 <= j < m0.len() && m0[j] == c;
                    if follows_round(last, trump, rs) {
                        assert(m == m0.push(last));
                        assert(m[j] == c);
                    } else {
                        assert(m == m0);
                    }
                } else {
                    assert(c == last);
                    assert(m[m.len() - 1] == c);
                }
            }
        }
    }
}

/// Which cards a seat may legally submit, as the baseline strategy reasons
/// about them: only the Joker once it was called out; any card when no
/// round suit is set or the hand cannot follow it; otherwise the round
/// suit, the Mighty, and the Joker.
pub open spec fn is_playable(
    c: Card,
    hand: Seq<Card>,
    trump: Option<Suit>,
    round_suit: Option<Suit>,
    joker_called: bool,
) -> bool {
    if joker_called && hand.contains(Card::Joker) {
        c == Card::Joker
    } else {
        match round_suit {
            None => true,
            Some(rs) => if hand_has_suit(hand, rs) {
                follows_round(c, trump, rs)
            } else {
                true
            },
        }
    }
}

/// A baseline strategy: it opens with a minimal no-trump bid, discards the
/// first cards of its hand, and plays the first card the rules allow.
pub struct RandomPlayer {}

impl RandomPlayer {
    /// The playable cards of the hand, in hand order.
    fn playable_cards(&self, state: &ExposedGameState) -> (r: Vec<Card>)
        ensures
            forall|c: Card| #[trigger] r@.contains(c) <==> (state.hand@.contains(c) && is_playable(
                c,
                state.hand@,
                state.contract.suit,
                state.round_suit,
                state.joker_called,
            )),
            state.hand@.len() > 0 ==> r@.len() > 0,
    {
        let joker_held = contains_card(&state.hand, Card::Joker);
        if state.joker_called && joker_held {
            let mut r: Vec<Card> = Vec::new();
            r.push(Card::Joker);
            proof {
                assert forall|c: Card| #[trigger] r@.contains(c) <==> (state.hand@.contains(c)
                    && is_playable(
                    c,
                    state.hand@,
                    state.contract.suit,
                    state.round_suit,
                    state.joker_called,
                )) by {
                    if r@.contains(c) {
                        let i = choose|i: int| 0 <= i < r@.len() && r@[i] == c;
                        assert(c == Card::Joker);
                    }
                    if c == Card::Joker {
                        assert(r@[0] == Card::Joker);
                    }
                }
            }
            r
        } else {
            match state.round_suit {
                None => {
                    let r = clone_cards(&state.hand);
                    proof {
                        assert forall|c: Card| r@.contains(c) implies state.hand@.contains(c) by {}
                    }
                    r
                },
                Some(rs) => {
                    if contains_suit(&state.hand, rs) {
                        let trump = state.contract.suit;
                        let hand_len: usize = state.hand.len();
                        let mut r: Vec<Card> = Vec::new();
                        let mut i: usize = 0;
                        while i < hand_len
                            invariant
                                hand_len == state.hand@.len(),
                                i <= hand_len,
                                trump == state.contract.suit,
                                r@ == follow_filter(state.hand@.take(i as int), trump, rs),
                            decreases hand_len - i,
                        {
                            proof {
                                reveal(Seq::filter);
                                assert(state.hand@.take(i as int + 1).drop_last()
                                    =~= state.hand@.take(i as int));
                                assert(state.hand@.take(i as int + 1).last()
                                    == state.hand@[i as int]);
                            }
                            let c = state.hand[i];
                            let keep = c.is_mighty(trump) || (match c {
                                Card::Shaped(s, _) => s == rs,
                                Card::Joker => true,
                            });
                            if keep {
                                r.push(c);
                            }
                            i += 1;
                        }
                        proof {
                            assert(state.hand@.take(hand_len as int) =~= state.hand@);
                            lemma_follow_filter_contains(state.hand@, trump, rs);
                            if state.hand@.len() > 0 {
                                let w = choose|w: int|
                                    0 <= w < state.hand@.len() && ((#[trigger] state.hand@[w])
                                        matches Card::Shaped(hs, _) && hs == rs);
                                assert(follows_round(state.hand@[w], trump, rs));
                                assert(r@.contains(state.hand@[w]));
                            }
                        }
                        r
                    } else {
                        clone_cards(&state.hand)
                    }
                },
            }
        }
    }
}

impl Player for RandomPlayer {
    /// Open with a minimal no-trump bid when nobody has bid yet; never
    /// raise.
    fn bidding(&self, state: &BiddingState) -> Option<Contract> {
        match state.curr_contract {
            Some(_) => None,
            None => Some(Contract { suit: None, count: 12 }),
        }
    }

    /// Keep the contract as won, bind the partner to the Spade Ace, and
    /// discard the first cards of the hand.
    fn declare_plan(&self, state: ExtraExposedState) -> (Contract, PartnerCondition, Vec<Card>) {
        let n: usize = if state.hand.len() < 3 {
            state.hand.len()
        } else {
            3
        };
        let mut discard: Vec<Card> = Vec::new();
        let mut i: usize = 0;
        while i < n
            invariant
                n <= state.hand@.len(),
                i <= n,
                discard@ == state.hand@.subrange(0, i as int),
            decreases n - i,
        {
            discard.push(state.hand[i]);
            proof {
                assert(discard@ =~= state.hand@.subrange(0, i + 1));
            }
            i += 1;
        }
        (
            state.contract,
            PartnerCondition::CardCondition(Card::Shaped(Suit::S, 14)),
            discard,
        )
    }

    /// Play the first playable card; lead with the Joker only to open a
    /// round.
    fn play_action(&self, state: ExposedGameState) -> PlayAction {
        let playable = self.playable_cards(&state);
        let card = playable[0];
        match card {
            Card::Shaped(_, _) => PlayAction::Hand(card),
            Card::Joker => {
                let mut nobody_played = true;
                let mut i: usize = 0;
                while i < state.submitted.len()
                    invariant
                        i <= state.submitted@.len(),
                    decreases state.submitted@.len() - i,
                {
                    if state.submitted[i].is_some() {
                        nobody_played = false;
                    }
                    i += 1;
                }
                if nobody_played {
                    PlayAction::JokerStart(Suit::S)
                } else {
                    PlayAction::Hand(card)
                }
            },
        }
    }
}

} // verus!

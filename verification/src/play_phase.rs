//! The trick-play phase: ten rounds of five plays each, with per-play
//! legality, a deterministic round-winner ranking, hidden-partner
//! revelation, and the final per-side scoring.

use vstd::prelude::*;
use crate::card::{Card, Suit};
use crate::common::{Contract, GameError, Hand, PartnerCondition, PlayAction, PlayerIndex};
use crate::deck::{clone_cards, contains_card, contains_suit, hand_has_suit, lemma_remove_value_props, remove_card};

verus! {

/// One archived round: who won it and the 5 cards in seat order.
#[derive(Clone, Eq, PartialEq, Debug)]
pub struct RoundResult {
    pub winner: PlayerIndex,
    pub submitted: Vec<Card>,
}

/// What one seat may see of the play phase: its own hand, the public table
/// state, and - only for the declarer - the discard set.
#[derive(Clone, Debug)]
pub struct ExposedGameState {
    // Static state
    pub hand: Hand,
    pub declarer: PlayerIndex,
    pub contract: Contract,
    pub partner_condition: PartnerCondition,
    pub discarded: Option<Vec<Card>>,
    // Dynamic state
    pub partner_revealed: Option<PlayerIndex>,
    // Round state
    pub round: u8,
    pub joker_called: bool,
    pub submitted: Vec<Option<Card>>,
    pub round_starter: PlayerIndex,
    pub round_suit: Option<Suit>,
    // History
    pub round_results: Vec<RoundResult>,
}

/// The play phase state.
#[derive(Clone, Debug)]
pub struct PlayPhase {
    // Static state
    pub hands: Vec<Hand>,
    pub declarer: PlayerIndex,
    pub contract: Contract,
    pub partner_condition: PartnerCondition,
    pub discarded: Vec<Card>,
    // Dynamic state
    pub partner_revealed: Option<PlayerIndex>,
    // Round state
    pub round: u8,
    pub joker_called: bool,
    pub submitted: Vec<Option<Card>>,
    pub round_starter: PlayerIndex,
    pub round_suit: Option<Suit>,
    // History
    pub round_results: Vec<RoundResult>,
}

/// The side that won the game.
#[derive(Clone, Copy, Eq, PartialEq, Structural, Debug)]
pub enum PartyType {
    Leading,
    Opposing,
}

/// Per-seat scores, the per-seat win marks, and the side that won.
#[derive(Clone, Eq, PartialEq, Debug)]
pub struct GameResult {
    pub scores: Vec<u8>,
    pub win: Vec<bool>,
    pub win_side: PartyType,
}

/// The seat that plays `k`-th in a round led by `starter`.
pub open spec fn seat_at(starter: int, k: int) -> int {
    (starter + k) % 5
}

/// How many seats have played this round: the number of filled submission
/// slots.
pub open spec fn plays_made(sub: Seq<Option<Card>>) -> int
    decreases sub.len(),
{
    if sub.len() == 0 {
        0
    } else {
        plays_made(sub.drop_last()) + if sub.last() is Some {
            1int
        } else {
            0int
        }
    }
}

/// The card an action submits to the table.
pub open spec fn submitted_card(a: PlayAction) -> Card {
    match a {
        PlayAction::Hand(c) => c,
        PlayAction::JokerCall(c) => c,
        PlayAction::JokerStart(_) => Card::Joker,
    }
}

/// The submitted cards of a fully played round, in seat order.
pub open spec fn cards_of(sub: Seq<Option<Card>>) -> Seq<Card> {
    Seq::new(sub.len(), |i: int| sub[i].unwrap())
}

/// The ranking value of a card within a round. The Mighty beats everything;
/// the Joker beats all but the Mighty except when it was called out or led
/// in the first or last round; trump cards beat round-suit cards, which beat
/// the rest.
pub open spec fn card_value_spec(
    card: Card,
    trump: Option<Suit>,
    round_suit: Option<Suit>,
    joker_called: bool,
    round: int,
) -> int {
    match card {
        Card::Joker => if joker_called || round == 0 || round == 9 {
            0
        } else {
            100
        },
        Card::Shaped(s, n) => if card.is_mighty_spec(trump) {
            200
        } else if trump == Some(s) {
            70 + n as int
        } else if round_suit == Some(s) {
            30 + n as int
        } else {
            n as int
        },
    }
}

/// The index of the last maximum among the first `k` values.
pub open spec fn best_index(vals: Seq<int>, k: int) -> int
    decreases k,
{
    if k <= 1 {
        0
    } else {
        let b = best_index(vals, k - 1);
        if vals[k - 1] >= vals[b] {
            k - 1
        } else {
            b
        }
    }
}

/// The best index is in range, holds a value no other index exceeds, and is
/// the last index to reach that value.
pub proof fn lemma_best_index_max(vals: Seq<int>, k: int)
    requires
        1 <= k,
    ensures
        0 <= best_index(vals, k) < k,
        forall|j: int| 0 <= j < k ==> #[trigger] vals[j] <= vals[best_index(vals, k)],
        forall|j: int| best_index(vals, k) < j < k ==> #[trigger] vals[j] < vals[best_index(
            vals,
            k,
        )],
    decreases k,
{
    if k > 1 {
        lemma_best_index_max(vals, k - 1);
    }
}

/// Filled submission slots are exactly the seats that have already played,
/// in rotation order from the round starter.
pub open spec fn slots_follow_rotation(sub: Seq<Option<Card>>, starter: int) -> bool {
    forall|k: int| 0 <= k < 5 ==> ((#[trigger] sub[seat_at(starter, k)]) is Some <==> k
        < plays_made(sub))
}

pub proof fn lemma_plays_made_bounds(sub: Seq<Option<Card>>)
    ensures
        0 <= plays_made(sub) <= sub.len(),
    decreases sub.len(),
{
    if sub.len() > 0 {
        lemma_plays_made_bounds(sub.drop_last());
    }
}

pub proof fn lemma_plays_made_update(sub: Seq<Option<Card>>, i: int, c: Card)
    requires
        0 <= i < sub.len(),
        sub[i] is None,
    ensures
        plays_made(sub.update(i, Some(c))) == plays_made(sub) + 1,
    decreases sub.len(),
{
    let t = sub.update(i, Some(c));
    if i == sub.len() - 1 {
        assert(t.drop_last() =~= sub.drop_last());
        assert(t.last() == Some(c));
    } else {
        lemma_plays_made_update(sub.drop_last(), i, c);
        assert(t.drop_last() =~= sub.drop_last().update(i, Some(c)));
        assert(t.last() == sub.last());
    }
}

pub proof fn lemma_plays_made_all_none(sub: Seq<Option<Card>>)
    requires
        forall|i: int| 0 <= i < sub.len() ==> (#[trigger] sub[i]) is None,
    ensures
        plays_made(sub) == 0,
    decreases sub.len(),
{
    if sub.len() > 0 {
        assert(sub.last() is None);
        assert(forall|i: int|
            0 <= i < sub.drop_last().len() ==> (#[trigger] sub.drop_last()[i]) == sub[i]);
        lemma_plays_made_all_none(sub.drop_last());
    }
}

/// Within one round the rotation visits each seat exactly once.
pub proof fn lemma_seat_at_injective(starter: int, k1: int, k2: int)
    requires
        0 <= starter < 5,
        0 <= k1 < 5,
        0 <= k2 < 5,
        seat_at(starter, k1) == seat_at(starter, k2),
    ensures
        k1 == k2,
{
}

/// Every seat has a place in the rotation of a round.
pub proof fn lemma_seat_at_cover(starter: int, j: int) -> (k: int)
    requires
        0 <= starter < 5,
        0 <= j < 5,
    ensures
        0 <= k < 5,
        seat_at(starter, k) == j,
{
    let k = if j >= starter {
        j - starter
    } else {
        j + 5 - starter
    };
    k
}

impl PlayPhase {
    /// Well-formedness: 5 duplicate-free hands, 5 submission slots filled in
    /// rotation order with fewer than 5 plays pending, valid seats, and a
    /// history with one 5-card entry per finished round.
    pub open spec fn wf(self) -> bool {
        &&& self.hands@.len() == 5
        &&& forall|i: int| 0 <= i < 5 ==> (#[trigger] self.hands@[i])@.no_duplicates()
        &&& forall|i: int, j: int|
            0 <= i < 5 && 0 <= j < self.hands@[i]@.len() ==> (#[trigger] self.hands@[i]@[j]).valid()
        &&& forall|i: int|
            0 <= i < 5 && (#[trigger] self.submitted@[i]) is Some
                ==> self.submitted@[i].unwrap().valid()
        &&& self.declarer < 5
        &&& self.round_starter < 5
        &&& (self.partner_revealed matches Some(q) ==> q < 5)
        &&& self.round <= 10
        &&& self.submitted@.len() == 5
        &&& slots_follow_rotation(self.submitted@, self.round_starter as int)
        &&& plays_made(self.submitted@) < 5
        &&& self.round_results@.len() == self.round as int
        &&& forall|i: int|
            0 <= i < self.round_results@.len() ==> (#[trigger] self.round_results@[i]).winner < 5
                && self.round_results@[i].submitted@.len() == 5
        &&& self.contract.count < 255
    }

    /// The ranking value each filled slot submits, under the current round
    /// state.
    pub open spec fn submission_values(self) -> Seq<int> {
        Seq::new(5, |i: int|
            card_value_spec(
                self.submitted@[i].unwrap(),
                self.contract.suit,
                self.round_suit,
                self.joker_called,
                self.round as int,
            ))
    }

    /// The winning seat of a fully submitted round: the last seat holding
    /// the maximum ranking value.
    pub open spec fn round_winner_spec(self) -> int {
        best_index(self.submission_values(), 5)
    }

    /// The canonical visitation order of the current round: the seat
    /// rotation starting at the round starter.
    pub fn current_round_order(&self) -> (r: Vec<PlayerIndex>)
        requires
            self.round_starter < 5,
        ensures
            r@.len() == 5,
            forall|k: int| 0 <= k < 5 ==> (#[trigger] r@[k]) as int == seat_at(
                self.round_starter as int,
                k,
            ),
    {
        let mut r: Vec<PlayerIndex> = Vec::new();
        let mut k: usize = 0;
        while k < 5
            invariant
                self.round_starter < 5,
                k <= 5,
                r@.len() == k,
                forall|i: int| 0 <= i < k ==> (#[trigger] r@[i]) as int == seat_at(
                    self.round_starter as int,
                    i,
                ),
            decreases 5 - k,
        {
            r.push((self.round_starter + k) % 5);
            k += 1;
        }
        r
    }

    /// The ranking value of a card within the current round.
    pub fn card_value(&self, card: Card) -> (r: u8)
        requires
            (card matches Card::Shaped(_, n) ==> n <= 14),
        ensures
            r as int == card_value_spec(
                card,
                self.contract.suit,
                self.round_suit,
                self.joker_called,
                self.round as int,
            ),
    {
        match card {
            Card::Joker => {
                if self.joker_called || self.round == 0 || self.round == 9 {
                    0
                } else {
                    100
                }
            },
            Card::Shaped(s, n) => {
                if card.is_mighty(self.contract.suit) {
                    200
                } else if (match self.contract.suit {
                    Some(t) => t == s,
                    None => false,
                }) {
                    70 + n
                } else if (match self.round_suit {
                    Some(t) => t == s,
                    None => false,
                }) {
                    30 + n
                } else {
                    n
                }
            },
        }
    }

    /// The winner of a fully submitted round.
    pub fn round_winner(&self) -> (r: PlayerIndex)
        requires
            self.submitted@.len() == 5,
            forall|i: int| 0 <= i < 5 ==> (#[trigger] self.submitted@[i]) is Some,
            forall|i: int| 0 <= i < 5 ==> ((#[trigger] self.submitted@[i]).unwrap() matches
                Card::Shaped(_, n) ==> n <= 14),
        ensures
            r < 5,
            r as int == self.round_winner_spec(),
    {
        let mut best: usize = 0;
        let mut i: usize = 1;
        while i < 5
            invariant
                1 <= i <= 5,
                best < i,
                self.submitted@.len() == 5,
                forall|k: int| 0 <= k < 5 ==> (#[trigger] self.submitted@[k]) is Some,
                forall|k: int| 0 <= k < 5 ==> ((#[trigger] self.submitted@[k]).unwrap() matches
                    Card::Shaped(_, n) ==> n <= 14),
                best as int == best_index(self.submission_values(), i as int),
            decreases 5 - i,
        {
            let ci = match self.submitted[i] {
                Some(c) => c,
                None => Card::Joker,
            };
            let cb = match self.submitted[best] {
                Some(c) => c,
                None => Card::Joker,
            };
            if self.card_value(ci) >= self.card_value(cb) {
                best = i;
            }
            i += 1;
        }
        best
    }

    /// The read-only projection handed to the acting seat: its own hand, the
    /// public round and history state, and the discard set only when the
    /// seat is the declarer.
    pub fn play_state(&self, player_index: PlayerIndex) -> (r: ExposedGameState)
        requires
            self.hands@.len() == 5,
            player_index < 5,
        ensures
            r.hand@ == self.hands@[player_index as int]@,
            r.declarer == self.declarer,
            r.contract == self.contract,
            r.partner_condition == self.partner_condition,
            player_index == self.declarer ==> (r.discarded matches Some(d) && d@
                == self.discarded@),
            player_index != self.declarer ==> r.discarded is None,
            r.partner_revealed == self.partner_revealed,
            r.round == self.round,
            r.joker_called == self.joker_called,
            r.submitted@ == self.submitted@,
            r.round_starter == self.round_starter,
            r.round_suit == self.round_suit,
            r.round_results@.len() == self.round_results@.len(),
            forall|i: int| 0 <= i < self.round_results@.len() ==> (
            #[trigger] r.round_results@[i]).winner == self.round_results@[i].winner
                && r.round_results@[i].submitted@ == self.round_results@[i].submitted@,
    {
        let discarded: Option<Vec<Card>> = if player_index == self.declarer {
            Some(clone_cards(&self.discarded))
        } else {
            None
        };
        let hand = clone_cards(&self.hands[player_index]);
        let mut submitted: Vec<Option<Card>> = Vec::new();
        let mut i: usize = 0;
        while i < self.submitted.len()
            invariant
                i <= self.submitted@.len(),
                submitted@ == self.submitted@.subrange(0, i as int),
            decreases self.submitted@.len() - i,
        {
            submitted.push(self.submitted[i]);
            proof {
                assert(submitted@ =~= self.submitted@.subrange(0, i + 1));
            }
            i += 1;
        }
        proof {
            assert(submitted@ =~= self.submitted@);
        }
        let mut round_results: Vec<RoundResult> = Vec::new();
        let mut j: usize = 0;
        while j < self.round_results.len()
            invariant
                j <= self.round_results@.len(),
                round_results@.len() == j,
                forall|k: int| 0 <= k < j ==> (#[trigger] round_results@[k]).winner
                    == self.round_results@[k].winner && round_results@[k].submitted@
                    == self.round_results@[k].submitted@,
            decreases self.round_results@.len() - j,
        {
            let rr = RoundResult {
                winner: self.round_results[j].winner,
                submitted: clone_cards(&self.round_results[j].submitted),
            };
            round_results.push(rr);
            j += 1;
        }
        ExposedGameState {
            hand,
            declarer: self.declarer,
            contract: self.contract,
            partner_condition: self.partner_condition,
            discarded,
            partner_revealed: self.partner_revealed,
            round: self.round,
            joker_called: self.joker_called,
            submitted,
            round_starter: self.round_starter,
            round_suit: self.round_suit,
            round_results,
        }
    }

    /// Which rule, if any, the action breaks, and the error surfaced for it.
    /// `None` means the action is legal.
    pub open spec fn act_error(self, p: int, a: PlayAction) -> Option<GameError> {
        let hand = self.hands@[p]@;
        match a {
            PlayAction::Hand(card) => match card {
                Card::Joker => if p == self.round_starter as int {
                    Some(GameError::StarterCannotPlayJoker)
                } else if !hand.contains(Card::Joker) {
                    Some(GameError::CardNotHeld)
                } else {
                    None
                },
                Card::Shaped(s, _) => if !hand.contains(card) {
                    Some(GameError::CardNotHeld)
                } else if !card.is_mighty_spec(self.contract.suit) && (self.round_suit matches Some(
                    rs,
                ) && hand_has_suit(hand, rs) && s != rs) {
                    Some(GameError::MustFollowSuit)
                } else {
                    None
                },
            },
            PlayAction::JokerCall(card) => if p != self.round_starter as int {
                Some(GameError::NotRoundStarter)
            } else if !card.is_joker_call_spec(self.contract.suit) {
                Some(GameError::NotJokerCallCard)
            } else if !hand.contains(card) {
                Some(GameError::CardNotHeld)
            } else {
                None
            },
            PlayAction::JokerStart(_) => if p != self.round_starter as int {
                Some(GameError::NotRoundStarter)
            } else if !hand.contains(Card::Joker) {
                Some(GameError::CardNotHeld)
            } else {
                None
            },
        }
    }

    /// The round suit once the action has been applied: a starter's
    /// suit-ranked lead or a Joker start establishes it.
    pub open spec fn mid_round_suit(self, p: int, a: PlayAction) -> Option<Suit> {
        match a {
            PlayAction::Hand(c) => match c {
                Card::Shaped(s, _) => if p == self.round_starter as int {
                    Some(s)
                } else {
                    self.round_suit
                },
                Card::Joker => self.round_suit,
            },
            PlayAction::JokerCall(_) => self.round_suit,
            PlayAction::JokerStart(s) => Some(s),
        }
    }

    pub open spec fn mid_joker_called(self, a: PlayAction) -> bool {
        self.joker_called || a matches PlayAction::JokerCall(_)
    }

    /// The revealed partner once the submitted card is on the table: playing
    /// the bound card reveals the player at once.
    pub open spec fn mid_partner(self, p: int, card: Card) -> Option<PlayerIndex> {
        if self.partner_revealed is None && (self.partner_condition
            matches PartnerCondition::CardCondition(cc) && cc == card) {
            Some(p as usize)
        } else {
            self.partner_revealed
        }
    }

    pub open spec fn mid_submitted(self, p: int, a: PlayAction) -> Seq<Option<Card>> {
        self.submitted@.update(p, Some(submitted_card(a)))
    }

    /// The five ranking values of the round as they stand right after the
    /// action, before any round-local reset.
    pub open spec fn mid_values(self, p: int, a: PlayAction) -> Seq<int> {
        Seq::new(5, |i: int|
            card_value_spec(
                self.mid_submitted(p, a)[i].unwrap(),
                self.contract.suit,
                self.mid_round_suit(p, a),
                self.mid_joker_called(a),
                self.round as int,
            ))
    }

    /// The winner of the round this action completes.
    pub open spec fn round_winner_of(self, p: int, a: PlayAction) -> int {
        best_index(self.mid_values(p, a), 5)
    }
}

/// The full transition a legal action makes from `o` to `f`: the card moves
/// from the hand to the submission slot, the round-local state follows the
/// action, a partner bound to the card is revealed, and the 5th play of a
/// round archives the round and opens the next one with the winner leading.
pub open spec fn acts_to(o: PlayPhase, p: int, a: PlayAction, f: PlayPhase) -> bool {
    let card = submitted_card(a);
    let sub_mid = o.mid_submitted(p, a);
    let rs_mid = o.mid_round_suit(p, a);
    let jc_mid = o.mid_joker_called(a);
    let pr_mid = o.mid_partner(p, card);
    &&& f.declarer == o.declarer
    &&& f.contract == o.contract
    &&& f.partner_condition == o.partner_condition
    &&& f.discarded == o.discarded
    &&& f.hands@.len() == 5
    &&& f.hands@[p]@ == o.hands@[p]@.remove_value(card)
    &&& (forall|q: int| 0 <= q < 5 && q != p ==> f.hands@[q] == o.hands@[q])
    &&& if plays_made(sub_mid) < 5 {
        &&& f.round == o.round
        &&& f.round_results == o.round_results
        &&& f.submitted@ == sub_mid
        &&& f.round_suit == rs_mid
        &&& f.joker_called == jc_mid
        &&& f.round_starter == o.round_starter
        &&& f.partner_revealed == pr_mid
    } else {
        let w = o.round_winner_of(p, a);
        &&& f.round as int == o.round as int + 1
        &&& f.round_suit is None
        &&& f.joker_called == false
        &&& f.round_starter as int == w
        &&& f.submitted@.len() == 5
        &&& (forall|i: int| 0 <= i < 5 ==> (#[trigger] f.submitted@[i]) is None)
        &&& f.round_results@.len() == o.round_results@.len() + 1
        &&& (forall|i: int|
            0 <= i < o.round_results@.len() ==> f.round_results@[i] == o.round_results@[i])
        &&& f.round_results@.last().winner as int == w
        &&& f.round_results@.last().submitted@ == cards_of(sub_mid)
        &&& f.partner_revealed == if pr_mid is None && o.partner_condition
            == PartnerCondition::Round(o.round) {
            Some(w as usize)
        } else {
            pr_mid
        }
    }
}

impl PlayPhase {
    /// One play by the seat whose turn it is. An illegal action is refused
    /// with its distinct error and changes nothing; a legal one makes
    /// exactly the `acts_to` transition.
    #[verifier::rlimit(100)]
    pub fn player_acts(&mut self, player_index: PlayerIndex, action: PlayAction) -> (r: Result<
        (),
        GameError,
    >)
        requires
            old(self).wf(),
            old(self).round < 10,
            player_index < 5,
            player_index as int == seat_at(
                old(self).round_starter as int,
                plays_made(old(self).submitted@),
            ),
        ensures
            final(self).wf(),
            match old(self).act_error(player_index as int, action) {
                Some(e) => r == Err::<(), GameError>(e) && *final(self) == *old(self),
                None => r == Ok::<(), GameError>(()) && acts_to(
                    *old(self),
                    player_index as int,
                    action,
                    *final(self),
                ),
            },
    {
        let p = player_index;
        let trump = self.contract.suit;
        proof {
            lemma_plays_made_bounds(old(self).submitted@);
        }
        // legality, in the order the rules are stated
        let err: Option<GameError> = match action {
            PlayAction::Hand(card) => match card {
                Card::Joker => {
                    if p == self.round_starter {
                        Some(GameError::StarterCannotPlayJoker)
                    } else if !contains_card(&self.hands[p], Card::Joker) {
                        Some(GameError::CardNotHeld)
                    } else {
                        None
                    }
                },
                Card::Shaped(s, _n) => {
                    if !contains_card(&self.hands[p], card) {
                        Some(GameError::CardNotHeld)
                    } else {
                        let follow_required = !card.is_mighty(trump) && (match self.round_suit {
                            Some(rs) => contains_suit(&self.hands[p], rs) && s != rs,
                            None => false,
                        });
                        if follow_required {
                            Some(GameError::MustFollowSuit)
                        } else {
                            None
                        }
                    }
                },
            },
            PlayAction::JokerCall(card) => {
                if p != self.round_starter {
                    Some(GameError::NotRoundStarter)
                } else if !card.is_joker_call(trump) {
                    Some(GameError::NotJokerCallCard)
                } else if !contains_card(&self.hands[p], card) {
                    Some(GameError::CardNotHeld)
                } else {
                    None
                }
            },
            PlayAction::JokerStart(_s) => {
                if p != self.round_starter {
                    Some(GameError::NotRoundStarter)
                } else if !contains_card(&self.hands[p], Card::Joker) {
                    Some(GameError::CardNotHeld)
                } else {
                    None
                }
            },
        };
        match err {
            Some(e) => {
                return Err(e);
            },
            None => {},
        }
        // the card this action puts on the table
        let card = match action {
            PlayAction::Hand(c) => c,
            PlayAction::JokerCall(c) => c,
            PlayAction::JokerStart(_) => Card::Joker,
        };
        // round-local effects of the action kind
        match action {
            PlayAction::Hand(c) => {
                if p == self.round_starter {
                    match c {
                        Card::Shaped(s, _) => {
                            self.round_suit = Some(s);
                        },
                        Card::Joker => {},
                    }
                }
            },
            PlayAction::JokerCall(_) => {
                self.joker_called = true;
            },
            PlayAction::JokerStart(s) => {
                self.round_suit = Some(s);
            },
        }
        // the card moves from the hand to the submission slot
        self.submitted[p] = Some(card);
        let new_hand = remove_card(&self.hands[p], card);
        self.hands[p] = new_hand;
        proof {
            lemma_remove_value_props(old(self).hands@[p as int]@, card);
            assert forall|j: int| 0 <= j < self.hands@[p as int]@.len() implies (
            #[trigger] self.hands@[p as int]@[j]).valid() by {
                let oh = old(self).hands@[p as int]@;
                assert(self.hands@[p as int]@.contains(self.hands@[p as int]@[j]));
                assert(oh.contains(self.hands@[p as int]@[j]));
                let k = choose|k: int| 0 <= k < oh.len() && oh[k] == self.hands@[p as int]@[j];
            }
        }
        // playing the bound card reveals the partner at once
        if self.partner_revealed.is_none() {
            match self.partner_condition {
                PartnerCondition::CardCondition(cc) => {
                    if card == cc {
                        self.partner_revealed = Some(p);
                    }
                },
                _ => {},
            }
        }
        proof {
            let ghost o = *old(self);
            let ghost st = o.round_starter as int;
            let ghost plays = plays_made(o.submitted@);
            assert(o.submitted@[p as int] is None);
            lemma_plays_made_update(o.submitted@, p as int, card);
            assert(self.submitted@ == o.mid_submitted(p as int, action));
        }
        // the 5th play completes the round
        if p == (self.round_starter + 4) % 5 {
            proof {
                let ghost o = *old(self);
                let ghost st = o.round_starter as int;
                let ghost plays = plays_made(o.submitted@);
                lemma_seat_at_injective(st, plays, 4);
                assert(plays == 4);
                assert forall|j: int| 0 <= j < 5 implies (#[trigger] self.submitted@[j])
                    is Some by {
                    let k = lemma_seat_at_cover(st, j);
                    if k == 4 {
                        assert(j == p as int);
                    } else {
                        assert(o.submitted@[seat_at(st, k)] is Some);
                        if seat_at(st, k) == p as int {
                            lemma_seat_at_injective(st, k, 4);
                            assert(false);
                        }
                    }
                }
            }
            let winner = self.round_winner();
            proof {
                let ghost o = *old(self);
                assert(self.submission_values() =~= o.mid_values(p as int, action));
            }
            let mut played: Vec<Card> = Vec::new();
            let mut i: usize = 0;
            while i < 5
                invariant
                    i <= 5,
                    self.submitted@.len() == 5,
                    forall|j: int| 0 <= j < 5 ==> (#[trigger] self.submitted@[j]) is Some,
                    played@.len() == i,
                    forall|k: int| 0 <= k < i ==> (#[trigger] played@[k])
                        == self.submitted@[k].unwrap(),
                decreases 5 - i,
            {
                let c = match self.submitted[i] {
                    Some(c) => c,
                    None => Card::Joker,
                };
                played.push(c);
                i += 1;
            }
            proof {
                assert(played@ =~= cards_of(self.submitted@));
            }
            self.round_results.push(RoundResult { winner, submitted: played });
            if self.partner_revealed.is_none() {
                match self.partner_condition {
                    PartnerCondition::Round(n) => {
                        if n == self.round {
                            self.partner_revealed = Some(winner);
                        }
                    },
                    _ => {},
                }
            }
            self.round = self.round + 1;
            self.round_suit = None;
            let mut empty_sub: Vec<Option<Card>> = Vec::new();
            let mut k: usize = 0;
            while k < 5
                invariant
                    k <= 5,
                    empty_sub@.len() == k,
                    forall|j: int| 0 <= j < k ==> (#[trigger] empty_sub@[j]) is None,
                decreases 5 - k,
            {
                empty_sub.push(None);
                k += 1;
            }
            self.submitted = empty_sub;
            self.round_starter = winner;
            self.joker_called = false;
            proof {
                lemma_plays_made_all_none(self.submitted@);
            }
        } else {
            proof {
                let ghost o = *old(self);
                let ghost st = o.round_starter as int;
                let ghost plays = plays_made(o.submitted@);
                if plays == 4 {
                    assert(p as int == seat_at(st, 4));
                    assert(false);
                }
                assert forall|k: int| 0 <= k < 5 implies ((#[trigger] self.submitted@[seat_at(
                    st,
                    k,
                )]) is Some <==> k < plays_made(self.submitted@)) by {
                    if k != plays {
                        if seat_at(st, k) == p as int {
                            lemma_seat_at_injective(st, k, plays);
                            assert(false);
                        }
                        assert(self.submitted@[seat_at(st, k)] == o.submitted@[seat_at(st, k)]);
                    }
                }
            }
        }
        Ok(())
    }
}

/// The scoring points one archived round yields: the sum of the card scores
/// of its 5 submitted cards.
pub open spec fn round_points(cards: Seq<Card>) -> int
    decreases cards.len(),
{
    if cards.len() == 0 {
        0
    } else {
        round_points(cards.drop_last()) + cards.last().score_spec()
    }
}

/// The scoring points a seat has accumulated: the card scores of every round
/// it won.
pub open spec fn seat_score_spec(h: Seq<RoundResult>, seat: int) -> int
    decreases h.len(),
{
    if h.len() == 0 {
        0
    } else {
        seat_score_spec(h.drop_last(), seat) + if h.last().winner as int == seat {
            round_points(h.last().submitted@)
        } else {
            0
        }
    }
}

pub proof fn lemma_round_points_bounds(cards: Seq<Card>)
    ensures
        0 <= round_points(cards) <= cards.len(),
    decreases cards.len(),
{
    if cards.len() > 0 {
        lemma_round_points_bounds(cards.drop_last());
    }
}

pub proof fn lemma_seat_score_bounds(h: Seq<RoundResult>, seat: int)
    requires
        forall|i: int| 0 <= i < h.len() ==> (#[trigger] h[i]).submitted@.len() == 5,
    ensures
        0 <= seat_score_spec(h, seat) <= 5 * h.len(),
    decreases h.len(),
{
    if h.len() > 0 {
        assert(forall|i: int|
            0 <= i < h.drop_last().len() ==> (#[trigger] h.drop_last()[i]) == h[i]);
        lemma_seat_score_bounds(h.drop_last(), seat);
        lemma_round_points_bounds(h.last().submitted@);
    }
}

impl PlayPhase {
    /// What the leading side scored: the declarer's points plus the revealed
    /// partner's, or the declarer's alone when no partner was ever revealed.
    pub open spec fn leading_total(self) -> int {
        seat_score_spec(self.round_results@, self.declarer as int) + match self.partner_revealed {
            Some(q) => seat_score_spec(self.round_results@, q as int),
            None => 0,
        }
    }

    /// The game's outcome: per-seat scores over the won rounds, the winning
    /// side, and the per-seat win marks. The leading side wins exactly when
    /// its total reaches the contract's raw count.
    pub fn result(&self) -> (r: GameResult)
        requires
            self.wf(),
        ensures
            r.scores@.len() == 5,
            forall|i: int| 0 <= i < 5 ==> (#[trigger] r.scores@[i]) as int == seat_score_spec(
                self.round_results@,
                i,
            ),
            (r.win_side == PartyType::Leading) <==> self.leading_total()
                >= self.contract.count as int,
            r.win@.len() == 5,
            forall|i: int| 0 <= i < 5 ==> (#[trigger] r.win@[i]) == if self.leading_total()
                >= self.contract.count as int {
                (i == self.declarer as int || self.partner_revealed == Some(i as usize))
            } else {
                !(i == self.declarer as int || self.partner_revealed == Some(i as usize))
            },
    {
        let h_len: usize = self.round_results.len();
        let mut scores: Vec<u8> = Vec::new();
        let mut i: usize = 0;
        while i < 5
            invariant
                self.wf(),
                i <= 5,
                h_len == self.round_results@.len(),
                h_len <= 10,
                scores@.len() == i,
                forall|k: int| 0 <= k < i ==> (#[trigger] scores@[k]) as int == seat_score_spec(
                    self.round_results@,
                    k,
                ),
            decreases 5 - i,
        {
            let mut total: u8 = 0;
            let mut rix: usize = 0;
            while rix < h_len
                invariant
                    self.wf(),
                    i < 5,
                    rix <= h_len,
                    h_len == self.round_results@.len(),
                    h_len <= 10,
                    total as int == seat_score_spec(
                        self.round_results@.take(rix as int),
                        i as int,
                    ),
                    total <= 5 * rix,
                decreases h_len - rix,
            {
                proof {
                    assert(self.round_results@.take(rix as int + 1).drop_last()
                        =~= self.round_results@.take(rix as int));
                    assert(self.round_results@.take(rix as int + 1).last()
                        == self.round_results@[rix as int]);
                }
                if self.round_results[rix].winner == i {
                    let cards = &self.round_results[rix].submitted;
                    let mut s: u8 = 0;
                    let mut k: usize = 0;
                    while k < 5
                        invariant
                            k <= 5,
                            cards@.len() == 5,
                            s as int == round_points(cards@.take(k as int)),
                            s <= k,
                        decreases 5 - k,
                    {
                        proof {
                            assert(cards@.take(k as int + 1).drop_last() =~= cards@.take(k as int));
                            assert(cards@.take(k as int + 1).last() == cards@[k as int]);
                        }
                        s = s + cards[k].score();
                        k += 1;
                    }
                    proof {
                        assert(cards@.take(5) =~= cards@);
                    }
                    total = total + s;
                } else {
                }
                rix += 1;
            }
            proof {
                assert(self.round_results@.take(h_len as int) =~= self.round_results@);
            }
            scores.push(total);
            i += 1;
        }
        proof {
            lemma_seat_score_bounds(self.round_results@, self.declarer as int);
            if self.partner_revealed is Some {
                lemma_seat_score_bounds(
                    self.round_results@,
                    self.partner_revealed.unwrap() as int,
                );
            }
        }
        let declarer_score = scores[self.declarer];
        let partner_score: u8 = match self.partner_revealed {
            Some(q) => scores[q],
            None => 0,
        };
        let leading = declarer_score + partner_score >= self.contract.count;
        let mut win: Vec<bool> = Vec::new();
        let mut j: usize = 0;
        while j < 5
            invariant
                j <= 5,
                win@.len() == j,
                leading == (self.leading_total() >= self.contract.count as int),
                forall|k: int| 0 <= k < j ==> (#[trigger] win@[k]) == if self.leading_total()
                    >= self.contract.count as int {
                    (k == self.declarer as int || self.partner_revealed == Some(k as usize))
                } else {
                    !(k == self.declarer as int || self.partner_revealed == Some(k as usize))
                },
            decreases 5 - j,
        {
            let is_partner = match self.partner_revealed {
                Some(q) => q == j,
                None => false,
            };
            let marked = j == self.declarer || is_partner;
            win.push(if leading {
                marked
            } else {
                !marked
            });
            j += 1;
        }
        let win_side = if leading {
            PartyType::Leading
        } else {
            PartyType::Opposing
        };
        GameResult { scores, win, win_side }
    }
}

/// The round winner submitted a card no other seat outranks, and on an
/// equal value the later seat in submission order wins.
pub proof fn lemma_round_winner_is_max(game: PlayPhase)
    requires
        game.submitted@.len() == 5,
    ensures
        0 <= game.round_winner_spec() < 5,
        forall|j: int| 0 <= j < 5 ==> #[trigger] game.submission_values()[j]
            <= game.submission_values()[game.round_winner_spec()],
        forall|j: int| game.round_winner_spec() < j < 5 ==> #[trigger] game.submission_values()[j]
            < game.submission_values()[game.round_winner_spec()],
{
    lemma_best_index_max(game.submission_values(), 5);
}

/// Trick completeness: the 5th play of a round archives exactly one new
/// history entry, steps the round index, and hands the next lead to the
/// round's winner, who is also recorded in the new entry.
pub proof fn lemma_trick_completeness(o: PlayPhase, p: int, a: PlayAction, f: PlayPhase)
    requires
        o.wf(),
        0 <= p < 5,
        plays_made(o.submitted@) == 4,
        p == seat_at(o.round_starter as int, 4),
        acts_to(o, p, a, f),
    ensures
        f.round_results@.len() == o.round_results@.len() + 1,
        f.round as int == o.round as int + 1,
        f.round_starter as int == o.round_winner_of(p, a),
        f.round_results@.last().winner == f.round_starter,
{
    assert(o.submitted@[p] is None);
    lemma_plays_made_update(o.submitted@, p, submitted_card(a));
}

/// A play before the 5th of a round archives nothing: the history and the
/// lead are untouched.
pub proof fn lemma_round_in_progress(o: PlayPhase, p: int, a: PlayAction, f: PlayPhase)
    requires
        o.wf(),
        0 <= p < 5,
        plays_made(o.submitted@) < 4,
        p == seat_at(o.round_starter as int, plays_made(o.submitted@)),
        acts_to(o, p, a, f),
    ensures
        f.round_results == o.round_results,
        f.round == o.round,
        f.round_starter == o.round_starter,
{
    lemma_plays_made_bounds(o.submitted@);
    assert(o.submitted@[p] is None);
    lemma_plays_made_update(o.submitted@, p, submitted_card(a));
}

/// Partner non-reveal: while the partner is bound to a card and unrevealed,
/// a play of any other card leaves the partner hidden. In particular, if
/// the bound card was discarded in the exchange and is never played, the
/// partner stays hidden through the whole game.
pub proof fn lemma_partner_stays_hidden(o: PlayPhase, p: int, a: PlayAction, f: PlayPhase)
    requires
        acts_to(o, p, a, f),
        (o.partner_condition matches PartnerCondition::CardCondition(cc) && cc != submitted_card(
            a,
        )),
        o.partner_revealed is None,
    ensures
        f.partner_revealed is None,
{
}

} // verus!

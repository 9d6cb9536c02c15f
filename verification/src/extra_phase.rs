//! The exchange phase: the declarer absorbs the kitty, finalizes the
//! contract and the partner condition, discards, and opens the play phase.

use vstd::prelude::*;
use crate::card::Card;
use crate::common::{Contract, GameError, Hand, PartnerCondition, PlayerIndex};
use crate::bidding_phase::PledgePhase;
use crate::play_phase::PlayPhase;
use crate::deck::{all_valid, complete, clone_cards, contains_card, lemma_no_dup_parts, lemma_permutation_of_no_dup};

verus! {

/// What the declarer sees while planning: its kitty-augmented hand and the
/// contract won at bidding, nothing of any other seat.
#[derive(Clone, Debug)]
pub struct ExtraExposedState {
    pub hand: Hand,
    pub contract: Contract,
}

/// The exchange phase state: 5 hands (the declarer's holds the kitty), the
/// contract won at bidding, and the declarer seat.
#[derive(Clone, Debug)]
pub struct ExtraPhase {
    pub hands: Vec<Hand>,
    pub contract: Contract,
    pub declarer: PlayerIndex,
}

/// The declarer's hand with every discarded card removed, in hand order.
pub open spec fn minus_cards(h: Seq<Card>, d: Seq<Card>) -> Seq<Card> {
    h.filter(|c: Card| !d.contains(c))
}

pub proof fn lemma_minus_cards_props(h: Seq<Card>, d: Seq<Card>)
    requires
        h.no_duplicates(),
    ensures
        minus_cards(h, d).no_duplicates(),
        forall|c: Card| #[trigger] minus_cards(h, d).contains(c) <==> (h.contains(c)
            && !d.contains(c)),
    decreases h.len(),
{
    reveal(Seq::filter);
    let m = minus_cards(h, d);
    if h.len() == 0 {
        assert forall|c: Card| #[trigger] m.contains(c) <==> (h.contains(c) && !d.contains(c)) by {
            if m.contains(c) {
                let i = choose|i: int| 0 <= i < m.len() && m[i] == c;
            }
            if h.contains(c) {
                let i = choose|i: int| 0 <= i < h.len() && h[i] == c;
            }
        }
    } else {
        let h0 = h.drop_last();
        let last = h.last();
        assert forall|i: int, j: int| 0 <= i < j < h0.len() implies h0[i] != h0[j] by {
            assert(h0[i] == h[i] && h0[j] == h[j]);
        }
        lemma_minus_cards_props(h0, d);
        let m0 = minus_cards(h0, d);
        assert(!h0.contains(last)) by {
            if h0.contains(last) {
                let i = choose|i: int| 0 <= i < h0.len() && h0[i] == last;
                assert(h[i] == h[h.len() - 1]);
            }
        }
        assert(!m0.contains(last));
        if !d.contains(last) {
            assert(m == m0.push(last));
            crate::deck::lemma_no_dup_push(m0, last);
            assert forall|c: Card| #[trigger] m.contains(c) <==> (h.contains(c) && !d.contains(
                c,
            )) by {
                if m.contains(c) {
                    let i = choose|i: int| 0 <= i < m.len() && m[i] == c;
                    if i < m0.len() {
                        assert(m0.contains(c));
                        assert(h0.contains(c));
                        let j = choose|j: int| 0 <= j < h0.len() && h0[j] == c;
                        assert(h[j] == c);
                    } else {
                        assert(c == last);
                        assert(h[h.len() - 1] == c);
                    }
                }
                if h.contains(c) && !d.contains(c) {
                    let i = choose|i: int| 0 <= i < h.len() && h[i] == c;
                    if i < h0.len() {
                        assert(h0[i] == c);
                        assert(m0.contains(c));
                        let j = choose|j: int| 0 <= j < m0.len() && m0[j] == c;
                        assert(m[j] == c);
                    } else {
                        assert(c == last);
                        assert(m[m.len() - 1] == c);
                    }
                }
            }
        } else {
            assert(m == m0);
            assert forall|c: Card| #[trigger] m.contains(c) <==> (h.contains(c) && !d.contains(
                c,
            )) by {
                if m.contains(c) {
                    assert(h0.contains(c));
                    let j = choose|j: int| 0 <= j < h0.len() && h0[j] == c;
                    assert(h[j] == c);
                }
                if h.contains(c) && !d.contains(c) {
                    let i = choose|i: int| 0 <= i < h.len() && h[i] == c;
                    if i < h0.len() {
                        assert(h0[i] == c);
                    } else {
                        assert(c == last);
                        assert(false);
                    }
                }
            }
        }
    }
}

/// Discarding a duplicate-free set of held cards shrinks the hand by
/// exactly the number of discards.
pub proof fn lemma_minus_cards_len(h: Seq<Card>, d: Seq<Card>)
    requires
        h.no_duplicates(),
        d.no_duplicates(),
        forall|i: int| 0 <= i < d.len() ==> h.contains(#[trigger] d[i]),
    ensures
        minus_cards(h, d).len() == h.len() - d.len(),
{
    broadcast use vstd::seq_lib::seq_to_set_is_finite;
    broadcast use vstd::set::group_set_axioms;

    lemma_minus_cards_props(h, d);
    let m = minus_cards(h, d);
    h.unique_seq_to_set();
    d.unique_seq_to_set();
    m.unique_seq_to_set();
    let hs = h.to_set();
    let ds = d.to_set();
    let ms = m.to_set();
    assert forall|c: Card| ds.contains(c) implies hs.contains(c) by {
        let i = choose|i: int| 0 <= i < d.len() && d[i] == c;
    }
    assert(hs =~= ms + ds);
    assert(ms.disjoint(ds));
    vstd::set_lib::lemma_set_disjoint_lens(ms, ds);
}

impl ExtraPhase {
    /// All dealt cards in one sequence: the 5 hands in seat order, the
    /// declarer's holding the kitty.
    pub open spec fn combined(self) -> Seq<Card> {
        self.hands@[0]@ + self.hands@[1]@ + self.hands@[2]@ + self.hands@[3]@ + self.hands@[4]@
    }

    /// Well-formedness: the 5 hands partition the full deck, the declarer
    /// holds 13 cards and every other seat 10.
    pub open spec fn wf(self) -> bool {
        &&& self.hands@.len() == 5
        &&& self.declarer < 5
        &&& self.combined().no_duplicates()
        &&& all_valid(self.combined())
        &&& complete(self.combined())
        &&& forall|i: int| 0 <= i < 5 ==> (#[trigger] self.hands@[i])@.no_duplicates()
        &&& forall|i: int, j: int|
            0 <= i < 5 && 0 <= j < self.hands@[i]@.len() ==> (#[trigger] self.hands@[i]@[j]).valid()
        &&& self.hands@[self.declarer as int]@.len() == 13
        &&& forall|i: int|
            0 <= i < 5 && i != self.declarer as int ==> (#[trigger] self.hands@[i])@.len() == 10
        &&& self.contract.count < 255
    }

    /// Consume a decided bidding phase: the queue's head becomes the
    /// declarer, the winning contract carries over, and the kitty joins the
    /// declarer's hand.
    pub fn from_pledge(game: PledgePhase) -> (r: Self)
        requires
            game.wf(),
            game.players_queue@.len() > 0,
            game.curr_contract is Some,
        ensures
            r.wf(),
            r.declarer == game.players_queue@[0],
            r.contract == game.curr_contract.unwrap(),
            r.hands@[r.declarer as int]@ == game.hands@[r.declarer as int]@ + game.bottom@,
            forall|q: int|
                0 <= q < 5 && q != r.declarer as int ==> (#[trigger] r.hands@[q])
                    == game.hands@[q],
    {
        let declarer = game.players_queue[0];
        let contract = match game.curr_contract {
            Some(c) => c,
            None => Contract { suit: None, count: 0 },
        };
        let mut hands = game.hands;
        let bottom = game.bottom;
        let mut new_hand = clone_cards(&hands[declarer]);
        let mut k: usize = 0;
        while k < bottom.len()
            invariant
                declarer < 5,
                hands@.len() == 5,
                k <= bottom@.len(),
                new_hand@ == hands@[declarer as int]@ + bottom@.subrange(0, k as int),
            decreases bottom@.len() - k,
        {
            new_hand.push(bottom[k]);
            proof {
                assert(new_hand@ =~= hands@[declarer as int]@ + bottom@.subrange(0, k + 1));
            }
            k += 1;
        }
        proof {
            assert(new_hand@ =~= hands@[declarer as int]@ + bottom@);
        }
        hands[declarer] = new_hand;
        let r = ExtraPhase { hands, contract, declarer };
        proof {
            let g = game;
            let d = declarer as int;
            let a0 = g.hands@[0]@;
            let a1 = g.hands@[1]@;
            let a2 = g.hands@[2]@;
            let a3 = g.hands@[3]@;
            let a4 = g.hands@[4]@;
            let b = g.bottom@;
            broadcast use vstd::seq_lib::lemma_multiset_commutative;

            assert(g.combined().to_multiset() =~= r.combined().to_multiset()) by {
                assert(g.combined() == a0 + a1 + a2 + a3 + a4 + b);
                assert(r.hands@[d]@ == g.hands@[d]@ + b);
                assert((g.hands@[d]@ + b).to_multiset() == g.hands@[d]@.to_multiset().add(
                    b.to_multiset(),
                ));
            }
            lemma_permutation_of_no_dup(g.combined(), r.combined());
            assert(complete(r.combined()));
            assert forall|i: int| 0 <= i < r.combined().len() implies (
            #[trigger] r.combined()[i]).valid() by {
                assert(r.combined().contains(r.combined()[i]));
                assert(g.combined().contains(r.combined()[i]));
                let j = choose|j: int|
                    0 <= j < g.combined().len() && g.combined()[j] == r.combined()[i];
            }
            lemma_no_dup_parts(
                r.hands@[0]@ + r.hands@[1]@ + r.hands@[2]@ + r.hands@[3]@,
                r.hands@[4]@,
            );
            lemma_no_dup_parts(r.hands@[0]@ + r.hands@[1]@ + r.hands@[2]@, r.hands@[3]@);
            lemma_no_dup_parts(r.hands@[0]@ + r.hands@[1]@, r.hands@[2]@);
            lemma_no_dup_parts(r.hands@[0]@, r.hands@[1]@);
            assert forall|i: int, j: int|
                0 <= i < 5 && 0 <= j < r.hands@[i]@.len() implies (
            #[trigger] r.hands@[i]@[j]).valid() by {
                let c = r.hands@[i]@[j];
                let off: int = if i == 0 {
                    0
                } else if i == 1 {
                    a0len(r)
                } else if i == 2 {
                    a0len(r) + a1len(r)
                } else if i == 3 {
                    a0len(r) + a1len(r) + a2len(r)
                } else {
                    a0len(r) + a1len(r) + a2len(r) + a3len(r)
                };
                assert(r.combined()[off + j] == c);
            }
        }
        r
    }

    /// The declarer seat.
    pub fn declarer(&self) -> (r: PlayerIndex)
        ensures
            r == self.declarer,
    {
        self.declarer
    }

    /// The read-only projection handed to the declarer: its kitty-augmented
    /// hand and the contract, nothing of any other seat.
    pub fn extra_state(&self) -> (r: ExtraExposedState)
        requires
            self.hands@.len() == 5,
            self.declarer < 5,
        ensures
            r.hand@ == self.hands@[self.declarer as int]@,
            r.contract == self.contract,
    {
        ExtraExposedState {
            hand: clone_cards(&self.hands[self.declarer]),
            contract: self.contract,
        }
    }

    /// The declarer submits the finalized plan: a contract at or above the
    /// one won at bidding, the partner condition, and a duplicate-free set
    /// of discards from its own hand. On success the discards leave the
    /// declarer's hand and the play phase opens with the declarer leading
    /// round 0. A lowered contract or an unheld discard is refused and
    /// changes nothing.
    #[verifier::rlimit(50)]
    pub fn submit_plan(
        &mut self,
        contract: Contract,
        partner_condition: PartnerCondition,
        discards: Vec<Card>,
    ) -> (r: Result<PlayPhase, GameError>)
        requires
            old(self).wf(),
            discards@.no_duplicates(),
            contract.count < 255,
        ensures
            ({
                let o = *old(self);
                let d = o.declarer as int;
                let hand0 = o.hands@[d]@;
                if contract.effective_count_spec() < o.contract.effective_count_spec() {
                    r == Err::<PlayPhase, GameError>(GameError::ContractLowered) && *final(self)
                        == *old(self)
                } else if exists|i: int|
                    0 <= i < discards@.len() && !hand0.contains(#[trigger] discards@[i]) {
                    r == Err::<PlayPhase, GameError>(GameError::DiscardNotHeld) && *final(self)
                        == *old(self)
                } else {
                    &&& r is Ok
                    &&& r.unwrap().wf()
                    &&& r.unwrap().hands@.len() == 5
                    &&& r.unwrap().hands@[d]@ == minus_cards(hand0, discards@)
                    &&& r.unwrap().hands@[d]@.len() == 13 - discards@.len()
                    &&& (forall|q: int|
                        0 <= q < 5 && q != d ==> (#[trigger] r.unwrap().hands@[q])@
                            == o.hands@[q]@)
                    &&& r.unwrap().declarer == o.declarer
                    &&& r.unwrap().contract == contract
                    &&& r.unwrap().partner_condition == partner_condition
                    &&& r.unwrap().discarded@ == discards@
                    &&& r.unwrap().partner_revealed is None
                    &&& r.unwrap().round == 0
                    &&& r.unwrap().joker_called == false
                    &&& r.unwrap().round_starter == o.declarer
                    &&& r.unwrap().round_suit is None
                    &&& r.unwrap().round_results@.len() == 0
                    &&& final(self).hands@.len() == 5
                    &&& final(self).hands@[d]@ == minus_cards(hand0, discards@)
                    &&& (forall|q: int|
                        0 <= q < 5 && q != d ==> (#[trigger] final(self).hands@[q])
                            == o.hands@[q])
                    &&& final(self).contract == o.contract
                    &&& final(self).declarer == o.declarer
                }
            }),
    {
        let eff_new = contract.effective_count();
        let eff_old = self.contract.effective_count();
        if eff_new < eff_old {
            return Err(GameError::ContractLowered);
        }
        let mut i: usize = 0;
        while i < discards.len()
            invariant
                self == old(self),
                old(self).wf(),
                contract.effective_count_spec() >= old(self).contract.effective_count_spec(),
                i <= discards@.len(),
                forall|j: int|
                    0 <= j < i ==> old(self).hands@[old(self).declarer as int]@.contains(
                        #[trigger] discards@[j],
                    ),
            decreases discards@.len() - i,
        {
            if !contains_card(&self.hands[self.declarer], discards[i]) {
                return Err(GameError::DiscardNotHeld);
            }
            i += 1;
        }
        let ghost hand0 = self.hands@[self.declarer as int]@;
        let hand_len: usize = self.hands[self.declarer].len();
        let mut kept: Vec<Card> = Vec::new();
        let mut k: usize = 0;
        while k < hand_len
            invariant
                self == old(self),
                old(self).wf(),
                hand0 == old(self).hands@[old(self).declarer as int]@,
                hand_len == hand0.len(),
                k <= hand_len,
                kept@ == minus_cards(hand0.take(k as int), discards@),
            decreases hand_len - k,
        {
            proof {
                reveal(Seq::filter);
                assert(hand0.take(k as int + 1).drop_last() =~= hand0.take(k as int));
                assert(hand0.take(k as int + 1).last() == hand0[k as int]);
            }
            let c = self.hands[self.declarer][k];
            if !contains_card(&discards, c) {
                kept.push(c);
            }
            k += 1;
        }
        proof {
            assert(hand0.take(hand_len as int) =~= hand0);
            lemma_minus_cards_props(hand0, discards@);
            lemma_minus_cards_len(hand0, discards@);
        }
        self.hands[self.declarer] = kept;
        let mut play_hands: Vec<Hand> = Vec::new();
        let mut q: usize = 0;
        while q < 5
            invariant
                self.hands@.len() == 5,
                q <= 5,
                play_hands@.len() == q,
                forall|j: int| 0 <= j < q ==> (#[trigger] play_hands@[j])@ == self.hands@[j]@,
            decreases 5 - q,
        {
            play_hands.push(clone_cards(&self.hands[q]));
            q += 1;
        }
        let mut submitted: Vec<Option<Card>> = Vec::new();
        let mut s: usize = 0;
        while s < 5
            invariant
                s <= 5,
                submitted@.len() == s,
                forall|j: int| 0 <= j < s ==> (#[trigger] submitted@[j]) is None,
            decreases 5 - s,
        {
            submitted.push(None);
            s += 1;
        }
        proof {
            crate::play_phase::lemma_plays_made_all_none(submitted@);
        }
        let play = PlayPhase {
            hands: play_hands,
            declarer: self.declarer,
            contract,
            partner_condition,
            discarded: discards,
            partner_revealed: None,
            round: 0,
            joker_called: false,
            submitted,
            round_starter: self.declarer,
            round_suit: None,
            round_results: Vec::new(),
        };
        proof {
            let o = *old(self);
            let d = o.declarer as int;
            assert forall|ii: int, jj: int|
                0 <= ii < 5 && 0 <= jj < play.hands@[ii]@.len() implies (
            #[trigger] play.hands@[ii]@[jj]).valid() by {
                if ii == d {
                    let c = play.hands@[ii]@[jj];
                    assert(play.hands@[d]@.contains(c));
                    assert(minus_cards(o.hands@[d]@, discards@).contains(c));
                    assert(o.hands@[d]@.contains(c));
                    let w = choose|w: int| 0 <= w < o.hands@[d]@.len() && o.hands@[d]@[w] == c;
                } else {
                    assert(play.hands@[ii]@[jj] == o.hands@[ii]@[jj]);
                }
            }
        }
        Ok(play)
    }
}

/// The lengths of the first hands, used to name each hand's offset into the
/// combined sequence.
spec fn a0len(r: ExtraPhase) -> int {
    r.hands@[0]@.len() as int
}

spec fn a1len(r: ExtraPhase) -> int {
    r.hands@[1]@.len() as int
}

spec fn a2len(r: ExtraPhase) -> int {
    r.hands@[2]@.len() as int
}

spec fn a3len(r: ExtraPhase) -> int {
    r.hands@[3]@.len() as int
}

} // verus!

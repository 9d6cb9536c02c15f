//! The bidding phase: a rotation-queue state machine that deals the deck,
//! runs the ascending-bid/pass rotation, and yields a winning contract and
//! declarer, or a cancellation.

use vstd::prelude::*;
use rand::prelude::SliceRandom;
use crate::card::{Card, Suit};
use crate::common::{Contract, GameError, Hand, PlayerIndex, MAX_EFFECTIVE_COUNT};
use crate::deck::{all_valid, complete, clone_cards, is_full_deck, lemma_no_dup_push, lemma_permutation_of_no_dup};

verus! {

/// What one seat may see while bidding: its own hand and the running best
/// contract.
#[derive(Clone, Debug)]
pub struct BiddingState {
    pub hand: Hand,
    pub curr_contract: Option<Contract>,
}

/// A full snapshot of the bidding table.
#[derive(Clone, Debug)]
pub struct BiddingPhaseState {
    pub hands: Vec<Hand>,
    pub curr_player: PlayerIndex,
    pub bidding: Vec<Option<Contract>>,
}

/// The bidding phase state: 5 hands, the running best contract, the ordered
/// call history, the rotation queue of seats still eligible to raise, the
/// undealt kitty, and the running effective-count threshold.
#[derive(Clone, Debug)]
pub struct PledgePhase {
    pub hands: Vec<Hand>,
    pub curr_contract: Option<Contract>,
    pub call_history: Vec<(PlayerIndex, Option<Contract>)>,
    pub players_queue: Vec<PlayerIndex>,
    pub bottom: Vec<Card>,
    pub min_effective_count: u8,
}

/// Index of a suit in the fixed deal order.
spec fn suit_rank(s: Suit) -> int {
    match s {
        Suit::H => 0,
        Suit::D => 1,
        Suit::C => 2,
        Suit::S => 3,
    }
}

/// The cards laid down before suit `si` reaches rank `n` while the deck is
/// being built: the Joker, every earlier suit, and the earlier ranks of `si`.
spec fn in_deck_prefix(c: Card, si: int, n: int) -> bool {
    match c {
        Card::Joker => true,
        Card::Shaped(s, m) => 2 <= m <= 14 && (suit_rank(s) < si || (suit_rank(s) == si && m < n)),
    }
}

fn suit_of(i: usize) -> (s: Suit)
    requires
        i < 4,
    ensures
        suit_rank(s) == i as int,
{
    match i {
        0 => Suit::H,
        1 => Suit::D,
        2 => Suit::C,
        _ => Suit::S,
    }
}

/// Relies on rand's `SliceRandom::shuffle` with `thread_rng`: a Fisher-Yates
/// shuffle that permutes the slice in place by swaps, so the multiset of
/// cards is unchanged.
#[verifier::external_body]
fn shuffle_cards(cards: &mut Vec<Card>)
    ensures
        final(cards)@.to_multiset() == old(cards)@.to_multiset(),
{
    cards.shuffle(&mut rand::thread_rng());
}

impl PledgePhase {
    /// All dealt cards in one sequence: the 5 hands in seat order, then the
    /// kitty.
    pub open spec fn combined(self) -> Seq<Card> {
        self.hands@[0]@ + self.hands@[1]@ + self.hands@[2]@ + self.hands@[3]@ + self.hands@[4]@
            + self.bottom@
    }

    /// Accepted bids never exceed the running threshold and strictly increase
    /// along the call history.
    pub open spec fn history_wf(self) -> bool {
        &&& forall|i: int|
            0 <= i < self.call_history@.len() && (#[trigger] self.call_history@[i]).1 is Some
                ==> self.call_history@[i].1.unwrap().effective_count_spec()
                <= self.min_effective_count as int && self.call_history@[i].1.unwrap().count < 255
        &&& forall|i: int, j: int|
            0 <= i < j < self.call_history@.len() && (#[trigger] self.call_history@[i]).1 is Some
                && (#[trigger] self.call_history@[j]).1 is Some
                ==> self.call_history@[i].1.unwrap().effective_count_spec()
                < self.call_history@[j].1.unwrap().effective_count_spec()
    }

    /// Well-formedness: 10 cards a hand and 3 in the kitty, together the 53
    /// distinct deck cards; a duplicate-free queue of valid seats; a running
    /// contract in step with the threshold; a monotone call history.
    pub open spec fn wf(self) -> bool {
        &&& self.hands@.len() == 5
        &&& forall|i: int| 0 <= i < 5 ==> (#[trigger] self.hands@[i])@.len() == 10
        &&& self.bottom@.len() == 3
        &&& self.combined().no_duplicates()
        &&& all_valid(self.combined())
        &&& complete(self.combined())
        &&& self.players_queue@.len() <= 5
        &&& forall|i: int|
            0 <= i < self.players_queue@.len() ==> (#[trigger] self.players_queue@[i]) < 5
        &&& self.players_queue@.no_duplicates()
        &&& (self.curr_contract matches Some(c) ==> c.count < 255 && c.effective_count_spec()
            == self.min_effective_count as int)
        &&& self.history_wf()
    }

    /// Bidding is over once every seat has passed, only one bidder is left
    /// holding a contract, or the ceiling has been reached.
    pub open spec fn pledge_done_spec(self) -> bool {
        match self.curr_contract {
            Some(c) => self.players_queue@.len() <= 1 || c.effective_count_spec()
                >= MAX_EFFECTIVE_COUNT as int,
            None => self.players_queue@.len() == 0,
        }
    }

    /// The whole table passed without a single bid.
    pub open spec fn cancelled_spec(self) -> bool {
        self.players_queue@.len() == 0 && self.curr_contract is None
    }

    /// Deal a fresh game: shuffle the 53-card deck, give 10 cards to each
    /// seat, leave 3 as the kitty, and seat the rotation so `start_player`
    /// bids first. The threshold starts one below `min_pledge` so that a
    /// no-trump bid of exactly `min_pledge` is a legal opener.
    pub fn new(start_player: PlayerIndex, min_pledge: u8) -> (r: Self)
        requires
            start_player < 5,
            min_pledge >= 1,
        ensures
            r.wf(),
            r.curr_contract is None,
            r.call_history@.len() == 0,
            r.players_queue@.len() == 5,
            forall|i: int| 0 <= i < 5 ==> (#[trigger] r.players_queue@[i]) as int == (
            start_player + i) % 5,
            r.min_effective_count == min_pledge - 1,
    {
        let mut cards: Vec<Card> = Vec::new();
        cards.push(Card::Joker);
        proof {
            assert forall|c: Card| cards@.contains(c) <==> in_deck_prefix(c, 0, 2) by {
                if cards@.contains(c) {
                    let j = choose|j: int| 0 <= j < cards@.len() && cards@[j] == c;
                    assert(j == 0);
                }
                if in_deck_prefix(c, 0, 2) {
                    assert(c == Card::Joker);
                    assert(cards@[0] == Card::Joker);
                }
            }
        }
        let mut si: usize = 0;
        while si < 4
            invariant
                si <= 4,
                cards@.len() == 1 + 13 * si,
                cards@.no_duplicates(),
                forall|c: Card| cards@.contains(c) <==> in_deck_prefix(c, si as int, 2),
            decreases 4 - si,
        {
            let suit = suit_of(si);
            let mut m: u8 = 2;
            while m <= 14
                invariant
                    si < 4,
                    suit_rank(suit) == si as int,
                    2 <= m <= 15,
                    cards@.len() == 1 + 13 * si + (m - 2),
                    cards@.no_duplicates(),
                    forall|c: Card| cards@.contains(c) <==> in_deck_prefix(c, si as int, m as int),
                decreases 15 - m,
            {
                let card = Card::Shaped(suit, m);
                proof {
                    assert(!in_deck_prefix(card, si as int, m as int));
                    lemma_no_dup_push(cards@, card);
                }
                let ghost prev = cards@;
                cards.push(card);
                proof {
                    assert forall|c: Card|
                        cards@.contains(c) <==> in_deck_prefix(c, si as int, m as int + 1) by {
                        if cards@.contains(c) {
                            let j = choose|j: int| 0 <= j < cards@.len() && cards@[j] == c;
                            if j < prev.len() {
                                assert(prev[j] == c);
                                assert(prev.contains(c));
                            } else {
                                assert(c == card);
                            }
                        }
                        if in_deck_prefix(c, si as int, m as int + 1) {
                            if c == card {
                                assert(cards@[prev.len() as int] == card);
                            } else {
                                assert(in_deck_prefix(c, si as int, m as int));
                                assert(prev.contains(c));
                                let j = choose|j: int| 0 <= j < prev.len() && prev[j] == c;
                                assert(cards@[j] == c);
                            }
                        }
                    }
                }
                m += 1;
            }
            si += 1;
        }
        proof {
            assert forall|c: Card| cards@.contains(c) <==> c.valid() by {
                assert(cards@.contains(c) <==> in_deck_prefix(c, 4, 2));
            }
        }
        let ghost deck0 = cards@;
        shuffle_cards(&mut cards);
        proof {
            lemma_permutation_of_no_dup(deck0, cards@);
            assert forall|i: int| 0 <= i < cards@.len() implies (#[trigger] cards@[i]).valid() by {
                assert(cards@.contains(cards@[i]));
            }
        }
        let mut hands: Vec<Hand> = Vec::new();
        let mut p: usize = 0;
        while p < 5
            invariant
                p <= 5,
                cards@.len() == 53,
                hands@.len() == p,
                forall|i: int|
                    0 <= i < p ==> (#[trigger] hands@[i])@ == cards@.subrange(10 * i, 10 * i + 10),
            decreases 5 - p,
        {
            let mut h: Vec<Card> = Vec::new();
            let mut j: usize = 0;
            while j < 10
                invariant
                    p < 5,
                    j <= 10,
                    cards@.len() == 53,
                    h@ == cards@.subrange(10 * p as int, 10 * p + j),
                decreases 10 - j,
            {
                let idx: usize = 10 * p + j;
                h.push(cards[idx]);
                proof {
                    assert(h@ =~= cards@.subrange(10 * p as int, 10 * p + j + 1));
                }
                j += 1;
            }
            hands.push(h);
            p += 1;
        }
        let mut bottom: Vec<Card> = Vec::new();
        let mut j: usize = 0;
        while j < 3
            invariant
                j <= 3,
                cards@.len() == 53,
                bottom@ == cards@.subrange(50, 50 + j),
            decreases 3 - j,
        {
            let idx: usize = 50 + j;
            bottom.push(cards[idx]);
            proof {
                assert(bottom@ =~= cards@.subrange(50, 50 + j + 1));
            }
            j += 1;
        }
        let mut players_queue: Vec<PlayerIndex> = Vec::new();
        let mut i: usize = 0;
        while i < 5
            invariant
                start_player < 5,
                i <= 5,
                players_queue@.len() == i,
                forall|k: int|
                    0 <= k < i ==> (#[trigger] players_queue@[k]) as int == (start_player + k) % 5,
            decreases 5 - i,
        {
            players_queue.push((start_player + i) % 5);
            i += 1;
        }
        proof {
            assert forall|a: int, b: int| 0 <= a < b < 5 implies players_queue@[a]
                != players_queue@[b] by {
                assert(players_queue@[a] as int == (start_player + a) % 5);
                assert(players_queue@[b] as int == (start_player + b) % 5);
            }
        }
        let r = PledgePhase {
            hands,
            curr_contract: None,
            call_history: Vec::new(),
            players_queue,
            bottom,
            min_effective_count: min_pledge - 1,
        };
        proof {
            assert(r.combined() =~= cards@);
        }
        r
    }

    /// The read-only projection handed to the seat asked to bid: its own hand
    /// and the running best contract, nothing of any other seat.
    pub fn bidding_state(&self, player: PlayerIndex) -> (r: BiddingState)
        requires
            self.hands@.len() == 5,
            player < 5,
        ensures
            r.hand@ == self.hands@[player as int]@,
            r.curr_contract == self.curr_contract,
    {
        BiddingState { hand: clone_cards(&self.hands[player]), curr_contract: self.curr_contract }
    }

    /// One call by the seat at the queue's head: a bid must beat the running
    /// threshold and rotates the seat to the tail; a pass removes the seat
    /// for good. Either way the call is appended to the history. A call out
    /// of turn or a bid at or below the threshold is refused and changes
    /// nothing.
    pub fn player_bids(&mut self, player: PlayerIndex, pledge: Option<Contract>) -> (r: Result<
        (),
        GameError,
    >)
        requires
            old(self).wf(),
            old(self).players_queue@.len() > 0,
            (pledge matches Some(c) ==> c.count < 255),
        ensures
            final(self).wf(),
            player != old(self).players_queue@[0] ==> r == Err::<(), GameError>(
                GameError::NotYourTurn,
            ) && *final(self) == *old(self),
            player == old(self).players_queue@[0] && pledge is None ==> {
                &&& r == Ok::<(), GameError>(())
                &&& final(self).curr_contract == old(self).curr_contract
                &&& final(self).min_effective_count == old(self).min_effective_count
                &&& final(self).players_queue@ == old(self).players_queue@.subrange(
                    1,
                    old(self).players_queue@.len() as int,
                )
                &&& final(self).call_history@ == old(self).call_history@.push((player, pledge))
                &&& final(self).hands == old(self).hands
                &&& final(self).bottom == old(self).bottom
            },
            player == old(self).players_queue@[0] && (pledge matches Some(c)) ==> {
                if pledge.unwrap().effective_count_spec() > old(self).min_effective_count as int {
                    &&& r == Ok::<(), GameError>(())
                    &&& final(self).curr_contract == pledge
                    &&& final(self).min_effective_count as int
                        == pledge.unwrap().effective_count_spec()
                    &&& final(self).players_queue@ == old(self).players_queue@.subrange(
                        1,
                        old(self).players_queue@.len() as int,
                    ).push(player)
                    &&& final(self).call_history@ == old(self).call_history@.push((player, pledge))
                    &&& final(self).hands == old(self).hands
                    &&& final(self).bottom == old(self).bottom
                } else {
                    r == Err::<(), GameError>(GameError::BidTooLow) && *final(self) == *old(self)
                }
            },
    {
        if player != self.players_queue[0] {
            return Err(GameError::NotYourTurn);
        }
        match pledge {
            Some(contract) => {
                let eff = contract.effective_count();
                if !(eff > self.min_effective_count) {
                    return Err(GameError::BidTooLow);
                }
                self.min_effective_count = eff;
                self.curr_contract = Some(contract);
                let head = self.players_queue.remove(0);
                let ghost rest = self.players_queue@;
                proof {
                    if rest.contains(head) {
                        let j = choose|j: int| 0 <= j < rest.len() && rest[j] == head;
                        assert(old(self).players_queue@[j + 1] == old(self).players_queue@[0]);
                        assert(false);
                    }
                    lemma_no_dup_push(rest, head);
                }
                self.players_queue.push(head);
            },
            None => {
                self.players_queue.remove(0);
            },
        }
        self.call_history.push((player, pledge));
        proof {
            let h = final(self).call_history@;
            let oh = old(self).call_history@;
            assert forall|i: int|
                0 <= i < h.len() && (#[trigger] h[i]).1 is Some
                    implies h[i].1.unwrap().effective_count_spec()
                    <= final(self).min_effective_count as int && h[i].1.unwrap().count < 255 by {
                if i < oh.len() {
                    assert(h[i] == oh[i]);
                } else {
                    assert(h[i] == (player, pledge));
                }
            }
            assert forall|i: int, j: int|
                0 <= i < j < h.len() && (#[trigger] h[i]).1 is Some && (#[trigger] h[j]).1 is Some
                    implies h[i].1.unwrap().effective_count_spec()
                    < h[j].1.unwrap().effective_count_spec() by {
                if j < oh.len() {
                    assert(h[i] == oh[i] && h[j] == oh[j]);
                } else {
                    assert(h[i] == oh[i] && h[j] == (player, pledge));
                }
            }
        }
        Ok(())
    }

    /// Whether bidding has ended: all passed with no contract, a contract
    /// with at most one eligible bidder left, or the ceiling reached.
    pub fn pledge_done(&self) -> (r: bool)
        requires
            self.wf(),
        ensures
            r == self.pledge_done_spec(),
    {
        match self.curr_contract {
            Some(curr_contract) => self.players_queue.len() <= 1
                || curr_contract.effective_count() >= MAX_EFFECTIVE_COUNT,
            None => self.players_queue.len() == 0,
        }
    }

    /// The seat whose turn it is to call.
    pub fn turn_player(&self) -> (r: PlayerIndex)
        requires
            self.players_queue@.len() > 0,
        ensures
            r == self.players_queue@[0],
    {
        self.players_queue[0]
    }

    /// The bidding was fully cancelled: every seat passed and no contract was
    /// ever won.
    pub fn cancelled(&self) -> (r: bool)
        ensures
            r == self.cancelled_spec(),
    {
        self.players_queue.len() == 0 && match self.curr_contract {
            Some(_) => false,
            None => true,
        }
    }
}

/// Deal conservation: in a well-formed bidding phase the 5 hands and the
/// kitty together hold exactly 53 cards, without duplicates, and they are
/// exactly the cards of the full deck.
pub proof fn lemma_deal_conservation(p: PledgePhase)
    requires
        p.wf(),
    ensures
        is_full_deck(p.combined()),
        forall|c: Card| p.combined().contains(c) <==> c.valid(),
{
    assert forall|c: Card| p.combined().contains(c) implies c.valid() by {
        let i = choose|i: int| 0 <= i < p.combined().len() && p.combined()[i] == c;
        assert(p.combined()[i].valid());
    }
}

/// Bidding monotonicity: across any one well-formed bidding phase, the
/// effective counts of the accepted bids strictly increase in the order the
/// calls were made.
pub proof fn lemma_bidding_monotonic(p: PledgePhase, i: int, j: int)
    requires
        p.wf(),
        0 <= i < j < p.call_history@.len(),
        p.call_history@[i].1 is Some,
        p.call_history@[j].1 is Some,
    ensures
        p.call_history@[i].1.unwrap().effective_count_spec()
            < p.call_history@[j].1.unwrap().effective_count_spec(),
{
}

} // verus!

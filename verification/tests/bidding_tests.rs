use mighty::bidding_phase::PledgePhase;
use mighty::card::{Card, Suit};
use mighty::common::{Contract, GameError};

#[test]
fn deal_is_conserved() {
    let game = PledgePhase::new(0, 13);
    assert_eq!(game.hands.len(), 5);
    for hand in &game.hands {
        assert_eq!(hand.len(), 10);
    }
    assert_eq!(game.bottom.len(), 3);

    // the 5 hands and the kitty together are the full 53-card deck
    let mut all: Vec<Card> = Vec::new();
    for hand in &game.hands {
        for &c in hand {
            all.push(c);
        }
    }
    for &c in &game.bottom {
        all.push(c);
    }
    assert_eq!(all.len(), 53);
    for i in 0..all.len() {
        for j in 0..i {
            assert_ne!(all[i], all[j]);
        }
    }
    let mut joker_count: u32 = 0;
    for &c in &all {
        match c {
            Card::Joker => joker_count += 1,
            Card::Shaped(_, n) => assert!(2 <= n && n <= 14),
        }
    }
    assert_eq!(joker_count, 1);
    // every deck card occurs
    for suit in [Suit::H, Suit::D, Suit::C, Suit::S] {
        for n in 2..=14 {
            assert!(all.contains(&Card::Shaped(suit, n)));
        }
    }
}

#[test]
fn rotation_starts_at_the_start_player() {
    let game = PledgePhase::new(2, 13);
    assert_eq!(game.players_queue, vec![2, 3, 4, 0, 1]);
    assert_eq!(game.turn_player(), 2);
    assert_eq!(game.min_effective_count, 12);
}

#[test]
fn out_of_turn_bid_is_refused() {
    let mut game = PledgePhase::new(0, 13);
    let r = game.player_bids(2, None);
    assert_eq!(r, Err(GameError::NotYourTurn));
    assert_eq!(game.players_queue.len(), 5);
    assert_eq!(game.call_history.len(), 0);
}

#[test]
fn bids_must_strictly_raise_the_effective_count() {
    let mut game = PledgePhase::new(0, 13);
    // at or below the opening threshold: refused
    let low = Contract { suit: Some(Suit::S), count: 12 };
    assert_eq!(game.player_bids(0, Some(low)), Err(GameError::BidTooLow));
    // exactly the minimum pledge as a trump bid: accepted
    let first = Contract { suit: Some(Suit::S), count: 13 };
    assert_eq!(game.player_bids(0, Some(first)), Ok(()));
    assert_eq!(game.min_effective_count, 13);
    assert_eq!(game.curr_contract, Some(first));
    // an equal effective count is not a raise
    let equal = Contract { suit: Some(Suit::H), count: 13 };
    assert_eq!(game.player_bids(1, Some(equal)), Err(GameError::BidTooLow));
    // a no-trump bid of the same count is one level higher: accepted
    let no_trump = Contract { suit: None, count: 13 };
    assert_eq!(game.player_bids(1, Some(no_trump)), Ok(()));
    assert_eq!(game.min_effective_count, 14);
    assert_eq!(game.curr_contract, Some(no_trump));
    // the history keeps every call in order
    assert_eq!(game.call_history.len(), 2);
    assert_eq!(game.call_history[0], (0, Some(first)));
    assert_eq!(game.call_history[1], (1, Some(no_trump)));
}

#[test]
fn bidder_rotates_to_the_tail_and_passer_leaves() {
    let mut game = PledgePhase::new(0, 13);
    let c = Contract { suit: Some(Suit::S), count: 13 };
    game.player_bids(0, Some(c)).unwrap();
    assert_eq!(game.players_queue, vec![1, 2, 3, 4, 0]);
    game.player_bids(1, None).unwrap();
    assert_eq!(game.players_queue, vec![2, 3, 4, 0]);
}

#[test]
fn five_passes_cancel_the_bidding() {
    let mut game = PledgePhase::new(0, 13);
    for _ in 0..5 {
        assert!(!game.pledge_done());
        assert!(!game.cancelled());
        let p = game.turn_player();
        game.player_bids(p, None).unwrap();
    }
    assert!(game.cancelled());
    assert!(game.pledge_done());
    assert_eq!(game.players_queue.len(), 0);
    assert_eq!(game.curr_contract, None);
    assert_eq!(game.call_history.len(), 5);
}

#[test]
fn bidding_ends_when_one_bidder_remains() {
    let mut game = PledgePhase::new(0, 13);
    let c = Contract { suit: Some(Suit::S), count: 13 };
    game.player_bids(0, Some(c)).unwrap();
    for p in 1..5 {
        assert!(!game.pledge_done());
        game.player_bids(p, None).unwrap();
    }
    assert!(game.pledge_done());
    assert!(!game.cancelled());
    assert_eq!(game.turn_player(), 0);
}

#[test]
fn bidding_ends_at_the_ceiling() {
    let mut game = PledgePhase::new(0, 13);
    let c = Contract { suit: None, count: 20 };
    game.player_bids(0, Some(c)).unwrap();
    // effective count 21 reaches the ceiling even with 5 seats still queued
    assert_eq!(game.players_queue.len(), 5);
    assert!(game.pledge_done());
}

#[test]
fn bidding_state_shows_own_hand_and_contract() {
    let mut game = PledgePhase::new(0, 13);
    let c = Contract { suit: Some(Suit::S), count: 13 };
    game.player_bids(0, Some(c)).unwrap();
    let view = game.bidding_state(3);
    assert_eq!(view.hand, game.hands[3]);
    assert_eq!(view.curr_contract, Some(c));
}

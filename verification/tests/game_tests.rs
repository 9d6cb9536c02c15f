use mighty::bidding_phase::PledgePhase;
use mighty::card::{Card, Suit};
use mighty::common::{Contract, PartnerCondition};
use mighty::extra_phase::ExtraPhase;
use mighty::player::{Player, RandomPlayer};

#[test]
fn baseline_strategy_opens_and_then_passes() {
    let player = RandomPlayer {};
    let game = PledgePhase::new(0, 13);
    let bid = player.bidding(&game.bidding_state(0));
    assert_eq!(bid, Some(Contract { suit: None, count: 12 }));

    let mut game = PledgePhase::new(0, 13);
    let c = Contract { suit: Some(Suit::S), count: 13 };
    game.player_bids(0, Some(c)).unwrap();
    let pass = player.bidding(&game.bidding_state(1));
    assert_eq!(pass, None);
}

#[test]
fn baseline_strategy_discards_three_cards() {
    let mut game = PledgePhase::new(0, 13);
    let c = Contract { suit: Some(Suit::S), count: 13 };
    game.player_bids(0, Some(c)).unwrap();
    for p in 1..5 {
        game.player_bids(p, None).unwrap();
    }
    let extra = ExtraPhase::from_pledge(game);
    let player = RandomPlayer {};
    let (contract, condition, discards) = player.declare_plan(extra.extra_state());
    assert_eq!(contract, c);
    assert_eq!(condition, PartnerCondition::CardCondition(Card::Shaped(Suit::S, 14)));
    assert_eq!(discards.len(), 3);
    for d in &discards {
        assert!(extra.hands[0].contains(d));
    }
}

#[test]
fn a_full_game_runs_to_its_end() {
    let players: Vec<RandomPlayer> = vec![
        RandomPlayer {},
        RandomPlayer {},
        RandomPlayer {},
        RandomPlayer {},
        RandomPlayer {},
    ];

    let mut game = PledgePhase::new(0, 13);
    while !game.pledge_done() {
        let p = game.turn_player();
        let bid = players[p].bidding(&game.bidding_state(p));
        game.player_bids(p, bid).unwrap();
    }
    assert!(!game.cancelled());

    let mut extra = ExtraPhase::from_pledge(game);
    let declarer = extra.declarer();
    let (contract, condition, discards) = players[declarer].declare_plan(extra.extra_state());
    let discard_points: u32 = discards.iter().map(|c| c.score() as u32).sum();
    let mut play = extra.submit_plan(contract, condition, discards).unwrap();

    for _round in 0..10 {
        for p in play.current_round_order() {
            let state = play.play_state(p);
            assert!(!state.hand.is_empty());
            let action = players[p].play_action(state);
            play.player_acts(p, action).unwrap();
        }
    }

    assert_eq!(play.round, 10);
    assert_eq!(play.round_results.len(), 10);
    for hand in &play.hands {
        assert!(hand.is_empty());
    }
    let result = play.result();
    assert_eq!(result.scores.len(), 5);
    assert_eq!(result.win.len(), 5);
    // every scoring point among the played cards lands with exactly one
    // seat: the deck holds 20, the discards kept the rest out of play
    let total: u32 = result.scores.iter().map(|&s| s as u32).sum();
    assert_eq!(total, 20 - discard_points);
    // exactly one side is marked as winning
    let marked = result.win.iter().filter(|&&w| w).count();
    assert!(marked == 1 || marked == 2 || marked == 3 || marked == 4);
}

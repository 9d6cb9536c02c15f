use mighty::card::{Card, Suit};
use mighty::common::{Contract, GameError, PartnerCondition, PlayAction};
use mighty::play_phase::{PartyType, PlayPhase, RoundResult};

fn dummy_history(rounds: u8) -> Vec<RoundResult> {
    let mut h = Vec::new();
    for _ in 0..rounds {
        h.push(RoundResult { winner: 0, submitted: vec![Card::Shaped(Suit::H, 2); 5] });
    }
    h
}

fn table(
    hands: Vec<Vec<Card>>,
    trump: Option<Suit>,
    round: u8,
    starter: usize,
    condition: PartnerCondition,
) -> PlayPhase {
    PlayPhase {
        hands,
        declarer: 0,
        contract: Contract { suit: trump, count: 13 },
        partner_condition: condition,
        discarded: vec![],
        partner_revealed: None,
        round,
        joker_called: false,
        submitted: vec![None; 5],
        round_starter: starter,
        round_suit: None,
        round_results: dummy_history(round),
    }
}

#[test]
fn current_round_order_rotates_from_the_starter() {
    let game = table(vec![vec![]; 5], Some(Suit::S), 0, 3, PartnerCondition::NoPartner);
    assert_eq!(game.current_round_order(), vec![3, 4, 0, 1, 2]);
}

#[test]
fn ranking_mighty_beats_joker_and_trump() {
    // trump Spades, round 3, joker not called: under spade trump the Mighty
    // is the Diamond Ace, so it outranks the Spade Ace (a plain trump card)
    // and the Joker
    let hands = vec![
        vec![Card::Shaped(Suit::S, 14)],
        vec![Card::Shaped(Suit::S, 13)],
        vec![Card::Shaped(Suit::H, 5)],
        vec![Card::Shaped(Suit::D, 14)],
        vec![Card::Joker],
    ];
    let mut game = table(hands, Some(Suit::S), 3, 0, PartnerCondition::NoPartner);
    assert_eq!(game.card_value(Card::Shaped(Suit::S, 14)), 84);
    assert_eq!(game.card_value(Card::Shaped(Suit::S, 13)), 83);
    assert_eq!(game.card_value(Card::Shaped(Suit::H, 5)), 5);
    assert_eq!(game.card_value(Card::Shaped(Suit::D, 14)), 200);
    assert_eq!(game.card_value(Card::Joker), 100);

    game.player_acts(0, PlayAction::Hand(Card::Shaped(Suit::S, 14))).unwrap();
    assert_eq!(game.round_suit, Some(Suit::S));
    game.player_acts(1, PlayAction::Hand(Card::Shaped(Suit::S, 13))).unwrap();
    game.player_acts(2, PlayAction::Hand(Card::Shaped(Suit::H, 5))).unwrap();
    game.player_acts(3, PlayAction::Hand(Card::Shaped(Suit::D, 14))).unwrap();
    game.player_acts(4, PlayAction::Hand(Card::Joker)).unwrap();

    assert_eq!(game.round_results.len(), 4);
    assert_eq!(game.round_results[3].winner, 3);
    assert_eq!(
        game.round_results[3].submitted,
        vec![
            Card::Shaped(Suit::S, 14),
            Card::Shaped(Suit::S, 13),
            Card::Shaped(Suit::H, 5),
            Card::Shaped(Suit::D, 14),
            Card::Joker,
        ]
    );
}

#[test]
fn five_plays_complete_a_round() {
    let hands = vec![
        vec![Card::Shaped(Suit::S, 14)],
        vec![Card::Shaped(Suit::S, 13)],
        vec![Card::Shaped(Suit::H, 5)],
        vec![Card::Shaped(Suit::D, 14)],
        vec![Card::Joker],
    ];
    let mut game = table(hands, Some(Suit::S), 3, 0, PartnerCondition::NoPartner);
    let history_before = game.round_results.len();
    game.player_acts(0, PlayAction::Hand(Card::Shaped(Suit::S, 14))).unwrap();
    game.player_acts(1, PlayAction::Hand(Card::Shaped(Suit::S, 13))).unwrap();
    game.player_acts(2, PlayAction::Hand(Card::Shaped(Suit::H, 5))).unwrap();
    game.player_acts(3, PlayAction::Hand(Card::Shaped(Suit::D, 14))).unwrap();
    // four plays do not complete the round
    assert_eq!(game.round_results.len(), history_before);
    assert_eq!(game.round, 3);
    game.player_acts(4, PlayAction::Hand(Card::Joker)).unwrap();
    // the 5th play archives exactly one entry and hands the lead to the winner
    assert_eq!(game.round_results.len(), history_before + 1);
    assert_eq!(game.round, 4);
    assert_eq!(game.round_starter, 3);
    assert_eq!(game.round_starter, game.round_results[3].winner);
    assert_eq!(game.submitted, vec![None; 5]);
    assert_eq!(game.round_suit, None);
    assert!(!game.joker_called);
}

#[test]
fn joker_is_powerless_in_the_first_round() {
    // round 0: the Joker ranks 0, so the trump King wins
    let hands = vec![
        vec![Card::Joker],
        vec![Card::Shaped(Suit::S, 13)],
        vec![Card::Shaped(Suit::H, 9)],
        vec![Card::Shaped(Suit::C, 2)],
        vec![Card::Shaped(Suit::D, 2)],
    ];
    let mut game = table(hands, Some(Suit::S), 0, 0, PartnerCondition::NoPartner);
    assert_eq!(game.card_value(Card::Joker), 0);
    game.player_acts(0, PlayAction::JokerStart(Suit::H)).unwrap();
    assert_eq!(game.round_suit, Some(Suit::H));
    game.player_acts(1, PlayAction::Hand(Card::Shaped(Suit::S, 13))).unwrap();
    game.player_acts(2, PlayAction::Hand(Card::Shaped(Suit::H, 9))).unwrap();
    game.player_acts(3, PlayAction::Hand(Card::Shaped(Suit::C, 2))).unwrap();
    game.player_acts(4, PlayAction::Hand(Card::Shaped(Suit::D, 2))).unwrap();
    assert_eq!(game.round_results[0].winner, 1);
    assert_eq!(game.round_starter, 1);
}

#[test]
fn playing_an_unheld_card_is_refused() {
    let hands = vec![
        vec![Card::Shaped(Suit::S, 5)],
        vec![],
        vec![],
        vec![],
        vec![],
    ];
    let mut game = table(hands, Some(Suit::S), 0, 0, PartnerCondition::NoPartner);
    let r = game.player_acts(0, PlayAction::Hand(Card::Shaped(Suit::H, 5)));
    assert_eq!(r, Err(GameError::CardNotHeld));
    assert_eq!(game.submitted, vec![None; 5]);
    assert_eq!(game.hands[0].len(), 1);
}

#[test]
fn round_suit_must_be_followed() {
    let hands = vec![
        vec![Card::Shaped(Suit::S, 5)],
        vec![Card::Shaped(Suit::S, 7), Card::Shaped(Suit::H, 7)],
        vec![],
        vec![],
        vec![],
    ];
    let mut game = table(hands, None, 1, 0, PartnerCondition::NoPartner);
    game.player_acts(0, PlayAction::Hand(Card::Shaped(Suit::S, 5))).unwrap();
    // seat 1 holds a spade, so a heart is refused
    let r = game.player_acts(1, PlayAction::Hand(Card::Shaped(Suit::H, 7)));
    assert_eq!(r, Err(GameError::MustFollowSuit));
    // the spade is accepted
    game.player_acts(1, PlayAction::Hand(Card::Shaped(Suit::S, 7))).unwrap();
}

#[test]
fn the_mighty_is_exempt_from_following_suit() {
    let hands = vec![
        vec![Card::Shaped(Suit::H, 5)],
        vec![Card::Shaped(Suit::H, 7), Card::Shaped(Suit::S, 14)],
        vec![],
        vec![],
        vec![],
    ];
    let mut game = table(hands, None, 1, 0, PartnerCondition::NoPartner);
    game.player_acts(0, PlayAction::Hand(Card::Shaped(Suit::H, 5))).unwrap();
    // seat 1 holds a heart, yet the Mighty may be played
    game.player_acts(1, PlayAction::Hand(Card::Shaped(Suit::S, 14))).unwrap();
}

#[test]
fn the_starter_may_not_play_the_joker_directly() {
    let hands = vec![vec![Card::Joker], vec![], vec![], vec![], vec![]];
    let mut game = table(hands, None, 1, 0, PartnerCondition::NoPartner);
    let r = game.player_acts(0, PlayAction::Hand(Card::Joker));
    assert_eq!(r, Err(GameError::StarterCannotPlayJoker));
    // leading it through the dedicated start action is allowed
    game.player_acts(0, PlayAction::JokerStart(Suit::C)).unwrap();
    assert_eq!(game.round_suit, Some(Suit::C));
    assert_eq!(game.submitted[0], Some(Card::Joker));
}

#[test]
fn only_the_starter_calls_the_joker() {
    let hands = vec![
        vec![Card::Shaped(Suit::S, 5)],
        vec![Card::Shaped(Suit::C, 3)],
        vec![],
        vec![],
        vec![],
    ];
    let mut game = table(hands, None, 1, 0, PartnerCondition::NoPartner);
    game.player_acts(0, PlayAction::Hand(Card::Shaped(Suit::S, 5))).unwrap();
    let r = game.player_acts(1, PlayAction::JokerCall(Card::Shaped(Suit::C, 3)));
    assert_eq!(r, Err(GameError::NotRoundStarter));
}

#[test]
fn a_joker_call_needs_the_joker_call_card() {
    let hands = vec![
        vec![Card::Shaped(Suit::S, 5), Card::Shaped(Suit::C, 3)],
        vec![],
        vec![],
        vec![],
        vec![],
    ];
    let mut game = table(hands, None, 1, 0, PartnerCondition::NoPartner);
    let r = game.player_acts(0, PlayAction::JokerCall(Card::Shaped(Suit::S, 5)));
    assert_eq!(r, Err(GameError::NotJokerCallCard));
    game.player_acts(0, PlayAction::JokerCall(Card::Shaped(Suit::C, 3))).unwrap();
    assert!(game.joker_called);
    assert_eq!(game.submitted[0], Some(Card::Shaped(Suit::C, 3)));
}

#[test]
fn a_called_joker_is_neutralized() {
    // a joker call in a middle round: the Joker ranks 0 for the whole round
    let hands = vec![
        vec![Card::Shaped(Suit::C, 3)],
        vec![Card::Joker],
        vec![Card::Shaped(Suit::H, 2)],
        vec![Card::Shaped(Suit::H, 3)],
        vec![Card::Shaped(Suit::H, 4)],
    ];
    let mut game = table(hands, None, 4, 0, PartnerCondition::NoPartner);
    game.player_acts(0, PlayAction::JokerCall(Card::Shaped(Suit::C, 3))).unwrap();
    assert_eq!(game.card_value(Card::Joker), 0);
    game.player_acts(1, PlayAction::Hand(Card::Joker)).unwrap();
    game.player_acts(2, PlayAction::Hand(Card::Shaped(Suit::H, 2))).unwrap();
    game.player_acts(3, PlayAction::Hand(Card::Shaped(Suit::H, 3))).unwrap();
    game.player_acts(4, PlayAction::Hand(Card::Shaped(Suit::H, 4))).unwrap();
    // the joker call set no round suit, so the plain ranks decide
    assert_eq!(game.round_results[4].winner, 4);
}

#[test]
fn playing_the_bound_card_reveals_the_partner() {
    let bound = Card::Shaped(Suit::S, 14);
    let hands = vec![
        vec![Card::Shaped(Suit::H, 5)],
        vec![bound],
        vec![Card::Shaped(Suit::H, 7)],
        vec![Card::Shaped(Suit::C, 2)],
        vec![Card::Shaped(Suit::D, 2)],
    ];
    let mut game = table(hands, None, 1, 0, PartnerCondition::CardCondition(bound));
    game.player_acts(0, PlayAction::Hand(Card::Shaped(Suit::H, 5))).unwrap();
    assert_eq!(game.partner_revealed, None);
    game.player_acts(1, PlayAction::Hand(bound)).unwrap();
    assert_eq!(game.partner_revealed, Some(1));
}

#[test]
fn the_round_winner_becomes_the_partner_under_a_round_condition() {
    let hands = vec![
        vec![Card::Shaped(Suit::H, 5)],
        vec![Card::Shaped(Suit::H, 9)],
        vec![Card::Shaped(Suit::H, 7)],
        vec![Card::Shaped(Suit::C, 2)],
        vec![Card::Shaped(Suit::D, 2)],
    ];
    let mut game = table(hands, None, 2, 0, PartnerCondition::Round(2));
    game.player_acts(0, PlayAction::Hand(Card::Shaped(Suit::H, 5))).unwrap();
    game.player_acts(1, PlayAction::Hand(Card::Shaped(Suit::H, 9))).unwrap();
    game.player_acts(2, PlayAction::Hand(Card::Shaped(Suit::H, 7))).unwrap();
    game.player_acts(3, PlayAction::Hand(Card::Shaped(Suit::C, 2))).unwrap();
    game.player_acts(4, PlayAction::Hand(Card::Shaped(Suit::D, 2))).unwrap();
    assert_eq!(game.round_results[2].winner, 1);
    assert_eq!(game.partner_revealed, Some(1));
}

#[test]
fn a_discarded_partner_card_keeps_the_partner_hidden() {
    // the bound card sits in the discard pile, not in any hand: a full
    // round of play reveals nobody
    let bound = Card::Shaped(Suit::C, 4);
    let hands = vec![
        vec![Card::Shaped(Suit::H, 5)],
        vec![Card::Shaped(Suit::H, 9)],
        vec![Card::Shaped(Suit::H, 7)],
        vec![Card::Shaped(Suit::C, 2)],
        vec![Card::Shaped(Suit::D, 2)],
    ];
    let mut game = table(hands, None, 9, 0, PartnerCondition::CardCondition(bound));
    game.discarded = vec![bound];
    game.player_acts(0, PlayAction::Hand(Card::Shaped(Suit::H, 5))).unwrap();
    game.player_acts(1, PlayAction::Hand(Card::Shaped(Suit::H, 9))).unwrap();
    game.player_acts(2, PlayAction::Hand(Card::Shaped(Suit::H, 7))).unwrap();
    game.player_acts(3, PlayAction::Hand(Card::Shaped(Suit::C, 2))).unwrap();
    game.player_acts(4, PlayAction::Hand(Card::Shaped(Suit::D, 2))).unwrap();
    // the game is over and the partner never surfaced
    assert_eq!(game.round, 10);
    assert_eq!(game.partner_revealed, None);
    // the leading total is the declarer's alone: seat 0 won no round
    let result = game.result();
    assert_eq!(result.scores[0], 0);
    assert_eq!(result.win_side, PartyType::Opposing);
    assert_eq!(result.win, vec![false, true, true, true, true]);
}

fn point_round(winner: usize) -> RoundResult {
    RoundResult {
        winner,
        submitted: vec![
            Card::Shaped(Suit::S, 10),
            Card::Shaped(Suit::S, 11),
            Card::Shaped(Suit::S, 12),
            Card::Shaped(Suit::S, 13),
            Card::Shaped(Suit::S, 14),
        ],
    }
}

fn blank_round(winner: usize) -> RoundResult {
    RoundResult { winner, submitted: vec![Card::Shaped(Suit::H, 2); 5] }
}

#[test]
fn the_leading_side_wins_at_the_contract_count() {
    // contract Spades 13; the declarer and the revealed partner take 15
    // scoring points together
    let mut history = Vec::new();
    history.push(point_round(0));
    history.push(point_round(0));
    history.push(point_round(1));
    for _ in 3..10 {
        history.push(blank_round(2));
    }
    let game = PlayPhase {
        hands: vec![vec![]; 5],
        declarer: 0,
        contract: Contract { suit: Some(Suit::S), count: 13 },
        partner_condition: PartnerCondition::CardCondition(Card::Shaped(Suit::S, 14)),
        discarded: vec![],
        partner_revealed: Some(1),
        round: 10,
        joker_called: false,
        submitted: vec![None; 5],
        round_starter: 2,
        round_suit: None,
        round_results: history,
    };
    let result = game.result();
    assert_eq!(result.scores, vec![10, 5, 0, 0, 0]);
    assert_eq!(result.win_side, PartyType::Leading);
    assert_eq!(result.win, vec![true, true, false, false, false]);
}

#[test]
fn an_unrevealed_partner_contributes_nothing() {
    // the same 15 points, but the partner was never revealed: the leading
    // total is the declarer's 10 alone and misses the contract
    let mut history = Vec::new();
    history.push(point_round(0));
    history.push(point_round(0));
    history.push(point_round(1));
    for _ in 3..10 {
        history.push(blank_round(2));
    }
    let game = PlayPhase {
        hands: vec![vec![]; 5],
        declarer: 0,
        contract: Contract { suit: Some(Suit::S), count: 13 },
        partner_condition: PartnerCondition::CardCondition(Card::Shaped(Suit::S, 14)),
        discarded: vec![],
        partner_revealed: None,
        round: 10,
        joker_called: false,
        submitted: vec![None; 5],
        round_starter: 2,
        round_suit: None,
        round_results: history,
    };
    let result = game.result();
    assert_eq!(result.scores, vec![10, 5, 0, 0, 0]);
    assert_eq!(result.win_side, PartyType::Opposing);
    assert_eq!(result.win, vec![false, true, true, true, true]);
}

use yggdrasil::poker::bot::bot_action;
use yggdrasil::poker::cards::{build_deck, shuffle, Card};
use yggdrasil::poker::game::{PokerState, BIG_BLIND, PLAYER_COUNT, SMALL_BLIND};
use yggdrasil::poker::hand::{best_hand, HandRank};
use yggdrasil::poker::session::{OutputState, PokerSession};

/// The seed the host hands out when it has no random source.
const SEED: u64 = 0xdead_beef_cafe_babe;

/// One request to the session, then what the human is shown.
fn process(session: &mut PokerSession, action: &str, amount: Option<u64>) -> OutputState {
    let input = match amount {
        Some(a) => format!("{{\"action\":\"{action}\",\"amount\":{a}}}"),
        None => format!("{{\"action\":\"{action}\"}}"),
    };
    session.process(&input, SEED);
    session.build_output()
}


fn make_card(rank: u8, suit: u8) -> Card {
    Card { rank, suit }
}

// -----------------------------------------------------------------------
// Deck + shuffle
// -----------------------------------------------------------------------

#[test]
fn test_deck_has_52_cards() {
    let deck = build_deck();
    assert_eq!(deck.len(), 52);
}

#[test]
fn test_deck_has_no_duplicates() {
    let deck = build_deck();
    let mut seen = std::collections::HashSet::new();
    for c in &deck {
        assert!(seen.insert((c.rank, c.suit)), "duplicate card: {:?}", c);
    }
}

#[test]
fn test_shuffle_changes_order() {
    let original = build_deck();
    let mut deck = original.clone();
    let mut rng = 0xdeadbeef_cafebabeu64;
    shuffle(&mut deck, &mut rng);
    // Very unlikely to be equal after shuffle
    assert_ne!(deck, original);
}

// -----------------------------------------------------------------------
// New game setup
// -----------------------------------------------------------------------

#[test]
fn test_new_game_has_three_players() {
    let state = PokerState::new_game();
    assert_eq!(state.players.len(), 3);
}

#[test]
fn test_new_game_player_chips() {
    let state = PokerState::new_game();
    for p in &state.players {
        assert_eq!(p.chips, 1000);
    }
}

#[test]
fn test_start_hand_posts_blinds() {
    let mut state = PokerState::new_game();
    state.start_hand(SEED);

    // Dealer=0: SB=player 1, BB=player 2
    assert_eq!(state.players[1].bet, SMALL_BLIND);
    assert_eq!(state.players[2].bet, BIG_BLIND);
    assert_eq!(state.pot, SMALL_BLIND + BIG_BLIND);
    assert_eq!(state.current_bet, BIG_BLIND);
}

#[test]
fn test_start_hand_deals_two_cards() {
    let mut state = PokerState::new_game();
    state.start_hand(SEED);
    for p in &state.players {
        assert_eq!(p.hand.len(), 2, "player {} should have 2 cards", p.name);
    }
}

#[test]
fn test_start_hand_round_is_preflop() {
    let mut state = PokerState::new_game();
    state.start_hand(SEED);
    assert_eq!(state.round.as_str(), "pre-flop");
}

#[test]
fn test_start_hand_first_actor_after_bb() {
    let mut state = PokerState::new_game();
    state.start_hand(SEED);
    // Dealer=0, SB=1, BB=2, first actor=0
    assert_eq!(state.current_player, 0);
}

// -----------------------------------------------------------------------
// Player actions
// -----------------------------------------------------------------------

#[test]
fn test_player_fold() {
    let mut state = PokerState::new_game();
    state.start_hand(SEED);
    let active_before = state.active_count;
    let _ = state.apply_action(0, "fold", 0);
    assert!(state.players[0].folded);
    assert_eq!(state.active_count, active_before - 1);
}

#[test]
fn test_player_call_reduces_chips() {
    let mut state = PokerState::new_game();
    state.start_hand(SEED);
    // Player 0 must call BIG_BLIND (100) to stay in
    let chips_before = state.players[0].chips;
    let _ = state.apply_action(0, "call", 0);
    assert_eq!(state.players[0].chips, chips_before - BIG_BLIND);
}

#[test]
fn test_player_raise_increases_current_bet() {
    let mut state = PokerState::new_game();
    state.start_hand(SEED);
    let _ = state.apply_action(0, "raise", 100);
    // After calling BB (100) and raising 100, current_bet = 200
    assert_eq!(state.current_bet, BIG_BLIND + 100);
}

#[test]
fn test_check_invalid_when_debt_exists() {
    let mut state = PokerState::new_game();
    state.start_hand(SEED);
    // Player 0 has bet=0, current_bet=100 → check should fail
    let result = state.apply_action(0, "check", 0);
    assert!(result.is_err());
}

// -----------------------------------------------------------------------
// Round advancement
// -----------------------------------------------------------------------

#[test]
fn test_advancing_rounds() {
    let mut state = PokerState::new_game();
    state.start_hand(SEED);

    // All three players call to match BB (player 0 calls, player 1 calls, player 2 already matches)
    // actions_this_round resets to 0; need to simulate full round
    // Force all players to call so round advances
    for i in 0..PLAYER_COUNT {
        let to_call = state.current_bet.saturating_sub(state.players[i].bet);
        if to_call > 0 && !state.players[i].folded {
            let _ = state.apply_action(i, "call", 0);
        } else if !state.players[i].folded {
            let _ = state.apply_action(i, "check", 0);
        }
    }

    state.next_round();
    assert_eq!(state.round.as_str(), "flop");
    assert_eq!(state.community.len(), 3);
}

#[test]
fn test_flop_turn_river_community_cards() {
    let mut state = PokerState::new_game();
    state.start_hand(SEED);

    // Force through all rounds
    state.next_round(); // → flop
    assert_eq!(state.community.len(), 3);
    assert_eq!(state.round.as_str(), "flop");

    state.next_round(); // → turn
    assert_eq!(state.community.len(), 4);
    assert_eq!(state.round.as_str(), "turn");

    state.next_round(); // → river
    assert_eq!(state.community.len(), 5);
    assert_eq!(state.round.as_str(), "river");

    state.next_round(); // → showdown / done
    assert!(state.round.as_str() == "showdown" || state.round.as_str() == "done");
    assert!(state.winner_idx.is_some());
}

// -----------------------------------------------------------------------
// Showdown
// -----------------------------------------------------------------------

#[test]
fn test_early_showdown_when_others_fold() {
    let mut state = PokerState::new_game();
    state.start_hand(SEED);
    let _ = state.apply_action(1, "fold", 0);
    let _ = state.apply_action(2, "fold", 0);
    state.active_count = state.players.iter().filter(|p| !p.folded).count();
    state.early_showdown();
    assert_eq!(state.winner_idx, Some(0));
    assert!(state.is_over);
}

#[test]
fn test_showdown_winner_gets_pot() {
    let mut state = PokerState::new_game();
    state.start_hand(SEED);
    let total_pot = state.pot;

    state.next_round(); // flop
    state.next_round(); // turn
    state.next_round(); // river
    state.next_round(); // showdown

    assert!(state.is_over);
    let _winner_idx = state.winner_idx.unwrap();
    // Winner's chips = starting - blind(if any) + pot
    // Just verify total chips are conserved
    let total_chips: u32 = state.players.iter().map(|p| p.chips).sum();
    assert_eq!(
        total_chips, 3000,
        "chip conservation failed: pot was {total_pot}"
    );
}

// -----------------------------------------------------------------------
// Hand evaluation
// -----------------------------------------------------------------------

#[test]
fn test_high_card() {
    let cards = vec![
        make_card(2, 0),
        make_card(5, 1),
        make_card(7, 2),
        make_card(9, 3),
        make_card(11, 0),
    ];
    let h = best_hand(&cards);
    assert_eq!(h.rank, HandRank::HighCard);
}

#[test]
fn test_one_pair() {
    let cards = vec![
        make_card(5, 0),
        make_card(5, 1),
        make_card(7, 2),
        make_card(9, 3),
        make_card(11, 0),
    ];
    let h = best_hand(&cards);
    assert_eq!(h.rank, HandRank::OnePair);
}

#[test]
fn test_two_pair() {
    let cards = vec![
        make_card(5, 0),
        make_card(5, 1),
        make_card(7, 2),
        make_card(7, 3),
        make_card(11, 0),
    ];
    let h = best_hand(&cards);
    assert_eq!(h.rank, HandRank::TwoPair);
}

#[test]
fn test_three_of_a_kind() {
    let cards = vec![
        make_card(5, 0),
        make_card(5, 1),
        make_card(5, 2),
        make_card(7, 3),
        make_card(11, 0),
    ];
    let h = best_hand(&cards);
    assert_eq!(h.rank, HandRank::ThreeOfAKind);
}

#[test]
fn test_straight() {
    let cards = vec![
        make_card(5, 0),
        make_card(6, 1),
        make_card(7, 2),
        make_card(8, 3),
        make_card(9, 0),
    ];
    let h = best_hand(&cards);
    assert_eq!(h.rank, HandRank::Straight);
}

#[test]
fn test_flush() {
    let cards = vec![
        make_card(2, 0),
        make_card(5, 0),
        make_card(7, 0),
        make_card(9, 0),
        make_card(11, 0),
    ];
    let h = best_hand(&cards);
    assert_eq!(h.rank, HandRank::Flush);
}

#[test]
fn test_full_house() {
    let cards = vec![
        make_card(5, 0),
        make_card(5, 1),
        make_card(5, 2),
        make_card(7, 3),
        make_card(7, 0),
    ];
    let h = best_hand(&cards);
    assert_eq!(h.rank, HandRank::FullHouse);
}

#[test]
fn test_four_of_a_kind() {
    let cards = vec![
        make_card(5, 0),
        make_card(5, 1),
        make_card(5, 2),
        make_card(5, 3),
        make_card(7, 0),
    ];
    let h = best_hand(&cards);
    assert_eq!(h.rank, HandRank::FourOfAKind);
}

#[test]
fn test_straight_flush() {
    let cards = vec![
        make_card(5, 0),
        make_card(6, 0),
        make_card(7, 0),
        make_card(8, 0),
        make_card(9, 0),
    ];
    let h = best_hand(&cards);
    assert_eq!(h.rank, HandRank::StraightFlush);
}

#[test]
fn test_ace_low_straight() {
    let cards = vec![
        make_card(14, 0),
        make_card(2, 1),
        make_card(3, 2),
        make_card(4, 3),
        make_card(5, 0),
    ];
    let h = best_hand(&cards);
    assert_eq!(h.rank, HandRank::Straight);
    assert_eq!(h.tiebreak[0], 5); // wheel tops at 5
}

#[test]
fn test_best_hand_from_seven_cards() {
    // Royal-flush setup: A K Q J 10 of clubs, plus 2♦ 3♥
    let cards = vec![
        make_card(14, 0),
        make_card(13, 0),
        make_card(12, 0),
        make_card(11, 0),
        make_card(10, 0),
        make_card(2, 1),
        make_card(3, 2),
    ];
    let h = best_hand(&cards);
    assert_eq!(h.rank, HandRank::StraightFlush);
}

#[test]
fn test_hand_rank_ordering() {
    assert!(HandRank::StraightFlush > HandRank::FourOfAKind);
    assert!(HandRank::FourOfAKind > HandRank::FullHouse);
    assert!(HandRank::FullHouse > HandRank::Flush);
    assert!(HandRank::Flush > HandRank::Straight);
    assert!(HandRank::Straight > HandRank::ThreeOfAKind);
    assert!(HandRank::ThreeOfAKind > HandRank::TwoPair);
    assert!(HandRank::TwoPair > HandRank::OnePair);
    assert!(HandRank::OnePair > HandRank::HighCard);
}

// -----------------------------------------------------------------------
// Bot AI
// -----------------------------------------------------------------------

#[test]
fn test_bot_raises_strong_hand() {
    let mut state = PokerState::new_game();
    state.start_hand(SEED);
    // Give bot a pair (strength 0.8)
    state.players[1].hand = vec![make_card(10, 0), make_card(10, 1)];
    let (action, _) = bot_action(&state, 1);
    assert_eq!(action, "raise");
}

#[test]
fn test_bot_folds_weak_hand_with_cost() {
    let mut state = PokerState::new_game();
    state.start_hand(SEED);
    // Give bot a weak hand (2 and 7 off-suit, strength 0.3)
    state.players[1].hand = vec![make_card(2, 0), make_card(7, 1)];
    state.current_bet = 200; // There's a cost to call
    let (action, _) = bot_action(&state, 1);
    assert_eq!(action, "fold");
}

#[test]
fn test_bot_calls_medium_hand() {
    let mut state = PokerState::new_game();
    state.start_hand(SEED);
    // High card hand (strength 0.6)
    state.players[1].hand = vec![make_card(14, 0), make_card(10, 1)];
    state.current_bet = 100;
    state.players[1].bet = 0;
    let (action, _) = bot_action(&state, 1);
    assert_eq!(action, "call");
}

// -----------------------------------------------------------------------
// Session process integration
// -----------------------------------------------------------------------

#[test]
fn test_session_start_returns_valid_json() {
    let mut session = PokerSession {
        state: PokerState::new_game(),
    };
    let out = process(&mut session, "start", None);
    assert_eq!(out.round, "pre-flop");
    assert_eq!(out.players.len(), 3);
}

#[test]
fn test_session_bots_hands_are_hidden() {
    let mut session = PokerSession {
        state: PokerState::new_game(),
    };
    let out = process(&mut session, "start", None);
    // Bot players should have empty hand arrays
    for p in &out.players {
        if !p.is_human {
            assert_eq!(p.hand.len(), 0, "bot hand should be hidden");
        }
    }
}

#[test]
fn test_session_human_hand_is_visible() {
    let mut session = PokerSession {
        state: PokerState::new_game(),
    };
    let out = process(&mut session, "start", None);
    let human = &out.players[0];
    assert_eq!(human.hand.len(), 2);
}

#[test]
fn test_session_fold_action() {
    let mut session = PokerSession {
        state: PokerState::new_game(),
    };
    process(&mut session, "start", None);
    // Ensure it's human's turn (player 0, current_player=0 in default setup)
    let out = process(&mut session, "fold", None);
    assert!(out.players[0].folded);
}

#[test]
fn test_chip_conservation_throughout_hand() {
    let mut session = PokerSession {
        state: PokerState::new_game(),
    };
    process(&mut session, "start", None);

    // Human calls
    process(&mut session, "call", None);
    // Check chip conservation at any point
    let out = process(&mut session, "", None);
    let chips: u32 = out.players.iter().map(|p| p.chips).sum();
    let pot = out.pot;
    assert_eq!(chips + pot, 3000, "chips + pot must always equal 3000");
}

#[test]
fn process_of_text_that_is_not_json_changes_nothing() {
    let mut session = PokerSession {
        state: PokerState::new_game(),
    };
    session.process("{not json", SEED);
    let out = session.build_output();
    assert_eq!(out.round, "waiting");
}

//! The bots' play: a rough strength estimate of the hole cards, and a move.
use vstd::prelude::*;

use super::cards::Card;
use super::game::{action_name, sat_sub, Action, PokerState, StateV};

verus! {

/// Strength of two hole cards, in tenths: a pair 8, suited connectors 7,
/// a card of ten or higher 6, anything else (or fewer than two cards) 3.
pub open spec fn strength_spec(hole: Seq<Card>) -> u8 {
    if hole.len() < 2 {
        3
    } else {
        let c0 = hole[0];
        let c1 = hole[1];
        if c0.rank == c1.rank {
            8
        } else if c0.suit == c1.suit && (c0.rank - c1.rank == 1 || c1.rank - c0.rank == 1) {
            7
        } else if c0.rank >= 10 || c1.rank >= 10 {
            6
        } else {
            3
        }
    }
}

/// Estimates the strength of the hole cards alone, in tenths.
pub fn hand_strength_estimate(hole: &[Card]) -> (r: u8)
    ensures
        r == strength_spec(hole@),
{
    if hole.len() < 2 {
        return 3;
    }
    let c0 = hole[0];
    let c1 = hole[1];
    if c0.rank == c1.rank {
        return 8;
    }
    let suited = c0.suit == c1.suit;
    let diff = if c0.rank >= c1.rank {
        c0.rank - c1.rank
    } else {
        c1.rank - c0.rank
    };
    let connected = diff == 1;
    let high = c0.rank >= 10 || c1.rank >= 10;
    if suited && connected {
        return 7;
    }
    if high {
        return 6;
    }
    3
}

/// A bot's move and the raise it names: raise by 100 with strength 7 or
/// more; with 4 or more, check when nothing is owed, else call; weaker,
/// fold when something is owed, else check.
pub open spec fn bot_spec(s: StateV, i: int) -> (Action, nat) {
    let strength = strength_spec(s.players[i].hand);
    let to_call = sat_sub(s.current_bet, s.players[i].bet);
    if strength >= 7 {
        (Action::Raise, 100)
    } else if strength >= 4 {
        if to_call == 0 {
            (Action::Check, 0)
        } else {
            (Action::Call, 0)
        }
    } else if to_call > 0 {
        (Action::Fold, 0)
    } else {
        (Action::Check, 0)
    }
}

/// The move bot `bot_idx` makes, as a word and a raise amount.
pub fn bot_action(state: &PokerState, bot_idx: usize) -> (r: (&'static str, u32))
    requires
        bot_idx < state.players@.len(),
    ensures
        r.0@ == action_name(bot_spec(state@, bot_idx as int).0),
        r.1 == bot_spec(state@, bot_idx as int).1,
{
    let strength = hand_strength_estimate(state.players[bot_idx].hand.as_slice());
    let bet = state.players[bot_idx].bet;
    let to_call = if state.current_bet >= bet {
        state.current_bet - bet
    } else {
        0
    };
    let a = if strength >= 7 {
        (Action::Raise, 100)
    } else if strength >= 4 {
        if to_call == 0 {
            (Action::Check, 0)
        } else {
            (Action::Call, 0)
        }
    } else if to_call > 0 {
        (Action::Fold, 0)
    } else {
        (Action::Check, 0)
    };
    (a.0.as_str(), a.1)
}

} // verus!

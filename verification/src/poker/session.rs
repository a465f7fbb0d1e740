//! A session at the table: the human's requests, the bots' turns in
//! between, and what the human is shown.
use vstd::prelude::*;

use crate::text::str_eq;
use super::bot::{bot_action, bot_spec};
use super::cards::Card;
use super::game::{
    round_name,
    action_of, available_spec, lemma_action_name, parse_action, strs_view, Action, PlayerV, PokerState, Round, StateV, BIG_BLIND,
};

verus! {

/// The most turns the bots take in a row before the human is asked again.
pub open spec fn bot_turn_limit() -> nat {
    30
}

/// The betting round after a move: if only one player is left the hand
/// ends at once; otherwise the turn passes, and a finished betting round
/// moves the hand on. The flag says whether the hand moved on.
pub open spec fn after_move(s: StateV) -> (StateV, bool) {
    if s.active_count <= 1 {
        (s.early_showdown_spec(), false)
    } else {
        let (adv, s2) = s.advance_spec();
        if adv {
            (s2.next_round_spec(), true)
        } else {
            (s2, false)
        }
    }
}

/// One bot turn at turn count `it`: the table after it, and whether the
/// bots stop (the human is to act, the hand is over, or the turns are used
/// up).
pub open spec fn bot_step(s: StateV, it: nat) -> (StateV, bool) {
    let cp = s.current_player as int;
    if s.is_over || s.players[cp].is_human {
        (s, true)
    } else if s.players[cp].folded || s.players[cp].is_all_in {
        let (adv, s1) = s.advance_spec();
        let s2 = if adv {
            s1.next_round_spec()
        } else {
            s1
        };
        (s2, it + 1 > bot_turn_limit())
    } else {
        let (a, amt) = bot_spec(s, cp);
        let s1 = match s.refusal(cp, Some(a)) {
            Some(_) => s,
            None => s.act(cp, a, amt),
        };
        if s1.active_count <= 1 {
            (s1.early_showdown_spec(), true)
        } else {
            let (adv, s2) = s1.advance_spec();
            let s3 = if adv {
                s2.next_round_spec()
            } else {
                s2
            };
            (s3, (adv && s3.is_over) || it + 1 > bot_turn_limit())
        }
    }
}

/// The bots play, from turn count `it`, until the human is to act, the
/// hand is over, or they have taken more than 30 turns.
pub open spec fn bots_run(s: StateV, it: nat) -> StateV
    decreases 31 - it,
{
    if it > bot_turn_limit() {
        s
    } else {
        let (t, done) = bot_step(s, it);
        if done {
            t
        } else {
            bots_run(t, it + 1)
        }
    }
}

/// The raise a request names: its amount (cut to 32 bits), or the big
/// blind.
pub open spec fn raise_of(amount: Option<u64>) -> nat {
    match amount {
        Some(n) => (n as u32) as nat,
        None => BIG_BLIND as nat,
    }
}

/// The human's move `a` (raising by `raise` if it is a raise) on their
/// turn, then the rest of the round: a refused move changes nothing; if only
/// one player is left the hand ends; otherwise the turn passes, a finished
/// betting round moves the hand on, and the bots play while the hand runs.
pub open spec fn human_spec(s: StateV, a: Action, raise: nat) -> StateV {
    match s.refusal(0, Some(a)) {
        Some(_) => s,
        None => {
            let s1 = s.act(0, a, raise);
            if s1.active_count <= 1 {
                s1.early_showdown_spec()
            } else {
                let (adv, s2) = s1.advance_spec();
                if adv {
                    let s3 = s2.next_round_spec();
                    if !s3.is_over {
                        bots_run(s3, 0)
                    } else {
                        s3
                    }
                } else {
                    bots_run(s2, 0)
                }
            }
        },
    }
}

/// Whether the table waits for a new hand.
pub open spec fn between_hands(s: StateV) -> bool {
    s.round == Round::Waiting || s.round == Round::Done
}

/// The table after one request of the human: "start" begins a hand when
/// none is running (the bots then play); "fold", "call", "check" and
/// "raise" are played when it is the human's turn in a live hand; anything
/// else changes nothing.
pub open spec fn handle_spec(s: StateV, action: Seq<char>, amount: Option<u64>, seed: u64) -> StateV {
    if action == "start"@ {
        if between_hands(s) {
            bots_run(s.start_spec(seed), 0)
        } else {
            s
        }
    } else {
        match action_of(action) {
            Some(a) => if !s.is_over && s.current_player == 0 && !s.players[0].folded {
                human_spec(s, a, raise_of(amount))
            } else {
                s
            },
            None => s,
        }
    }
}

/// A live hand keeps every stake within what the counters hold.
pub proof fn lemma_live_stakes_fit(s: StateV, i: int)
    requires
        s.wf(),
        !s.is_over,
        0 <= i < 3,
    ensures
        s.players[i].bet + s.players[i].chips <= u32::MAX,
{
}

/// A seat as the human sees it.
#[derive(Debug)]
pub struct PlayerOutput {
    pub name: String,
    pub chips: u32,
    /// Empty for the bots while the hand runs.
    pub hand: Vec<Card>,
    pub folded: bool,
    pub bet: u32,
    pub is_all_in: bool,
    pub is_human: bool,
}

/// The table as the human sees it.
#[derive(Debug)]
pub struct OutputState {
    pub players: Vec<PlayerOutput>,
    pub community: Vec<Card>,
    pub pot: u32,
    pub current_bet: u32,
    pub dealer: usize,
    pub current_player: usize,
    pub round: &'static str,
    pub is_over: bool,
    pub winner_idx: Option<usize>,
    pub winner_message: Option<String>,
    pub available_actions: Vec<&'static str>,
}

/// What the human sees of a seat: the bots' cards stay hidden until the
/// hand is over.
pub open spec fn shown_hand(p: PlayerV, is_over: bool) -> Seq<Card> {
    if p.is_human || is_over {
        p.hand
    } else {
        Seq::empty()
    }
}

/// A session: one table.
#[derive(Debug)]
pub struct PokerSession {
    pub state: PokerState,
}

impl PokerSession {
    /// A session at a new table.
    pub fn new() -> (s: PokerSession)
        ensures
            s.state@ == super::game::new_game_spec(),
            s.state@.wf(),
    {
        PokerSession { state: PokerState::new_game() }
    }

    /// Lets the bots play until it is the human's turn or the hand is over
    /// (at most 31 bot turns).
    pub fn run_bots_if_needed(&mut self)
        requires
            old(self).state@.wf(),
            old(self).state@.actions_this_round + 32 < usize::MAX,
        ensures
            final(self).state@ == bots_run(old(self).state@, 0),
            final(self).state@.wf(),
            final(self).state@.total_chips() == old(self).state@.total_chips(),
    {
        let ghost s0 = self.state@;
        let mut iterations: usize = 0;
        loop
            invariant_except_break
                iterations <= 30,
                bots_run(self.state@, iterations as nat) == bots_run(s0, 0),
                self.state@.actions_this_round + 32 < usize::MAX + iterations,
            invariant
                self.state@.wf(),
                self.state@.total_chips() == s0.total_chips(),
            ensures
                self.state@ == bots_run(s0, 0),
            decreases 31 - iterations,
        {
            let done = self.bot_turn(iterations);
            if done {
                break;
            }
            iterations = iterations + 1;
        }
    }

    /// One bot turn; returns whether the bots stop.
    fn bot_turn(&mut self, it: usize) -> (done: bool)
        requires
            old(self).state@.wf(),
            it <= 30,
            old(self).state@.actions_this_round < usize::MAX,
        ensures
            (final(self).state@, done) == bot_step(old(self).state@, it as nat),
            final(self).state@.wf(),
            final(self).state@.total_chips() == old(self).state@.total_chips(),
            final(self).state@.actions_this_round <= old(self).state@.actions_this_round + 1,
    {
        let ghost s = self.state@;
        if self.state.is_over {
            return true;
        }
        let cp = self.state.current_player;
        if self.state.players[cp].is_human {
            return true;
        }
        if self.state.players[cp].folded || self.state.players[cp].is_all_in {
            if self.state.advance_player() {
                self.state.next_round();
            }
            return it + 1 > 30;
        }
        let (bot_act, raise_amt) = bot_action(&self.state, cp);
        proof {
            lemma_live_stakes_fit(s, cp as int);
            lemma_action_name(bot_spec(s, cp as int).0);
        }
        let _ = self.state.apply_action(cp, bot_act, raise_amt);
        if self.state.active_count <= 1 {
            self.state.early_showdown();
            return true;
        }
        if self.state.advance_player() {
            self.state.next_round();
            if self.state.is_over {
                return true;
            }
        }
        it + 1 > 30
    }

    /// Handles one request of the human (`action`, with `amount` for a
    /// raise); `seed` shuffles the deck if a new hand starts.
    pub fn handle(&mut self, action: &str, amount: Option<u64>, seed: u64)
        requires
            old(self).state@.wf(),
            old(self).state@.actions_this_round + 33 < usize::MAX,
        ensures
            final(self).state@ == handle_spec(old(self).state@, action@, amount, seed),
            final(self).state@.wf(),
            action@ == "start"@ && between_hands(old(self).state@) ==> final(self).state@.total_chips()
                == old(self).state@.chips_in_stacks(),
            !(action@ == "start"@ && between_hands(old(self).state@)) ==> final(self).state@.total_chips()
                == old(self).state@.total_chips(),
    {
        if str_eq(action, "start") {
            if self.state.round == Round::Waiting || self.state.round == Round::Done {
                self.state.start_hand(seed);
                self.run_bots_if_needed();
            }
            return;
        }
        match parse_action(action) {
            None => {},
            Some(a) => {
                if !self.state.is_over && self.state.current_player == 0
                    && !self.state.players[0].folded {
                    let raise_amount = match amount {
                        Some(n) => n as u32,
                        None => BIG_BLIND,
                    };
                    self.human_move(action, a, raise_amount);
                }
            },
        }
    }

    /// The human's move on their turn in a live hand, then the rest of the
    /// round.
    fn human_move(&mut self, action: &str, a: Action, raise_amount: u32)
        requires
            old(self).state@.wf(),
            old(self).state@.actions_this_round + 33 < usize::MAX,
            !old(self).state@.is_over,
            old(self).state@.current_player == 0,
            !old(self).state@.players[0].folded,
            action_of(action@) == Some(a),
        ensures
            final(self).state@ == human_spec(old(self).state@, a, raise_amount as nat),
            final(self).state@.wf(),
            final(self).state@.total_chips() == old(self).state@.total_chips(),
    {
        proof {
            lemma_live_stakes_fit(self.state@, 0);
        }
        let r = self.state.apply_action(0, action, raise_amount);
        if r.is_ok() {
            if self.state.active_count <= 1 {
                self.state.early_showdown();
            } else if self.state.advance_player() {
                self.state.next_round();
                if !self.state.is_over {
                    self.run_bots_if_needed();
                }
            } else {
                self.run_bots_if_needed();
            }
        }
    }

    /// What the human is shown: every seat (the bots' cards hidden until the
    /// hand is over), the board, pot, bets, positions, stage, outcome, and
    /// the moves open to the human.
    pub fn build_output(&self) -> (out: OutputState)
        requires
            self.state@.wf(),
        ensures
            out.players@.len() == 3,
            forall|i: int|
                0 <= i < 3 ==> {
                    let p = #[trigger] out.players@[i];
                    let q = self.state@.players[i];
                    &&& p.name@ == q.name
                    &&& p.chips == q.chips
                    &&& p.hand@ == shown_hand(q, self.state@.is_over)
                    &&& p.folded == q.folded
                    &&& p.bet == q.bet
                    &&& p.is_all_in == q.is_all_in
                    &&& p.is_human == q.is_human
                },
            out.community@ == self.state@.community,
            out.pot == self.state.pot,
            out.current_bet == self.state.current_bet,
            out.dealer == self.state.dealer,
            out.current_player == self.state.current_player,
            out.round@ == round_name(self.state.round),
            out.is_over == self.state.is_over,
            out.winner_idx == self.state.winner_idx,
            out.winner_message.is_some() == self.state.winner_message.is_some(),
            out.winner_message.is_some() ==> out.winner_message->0@
                == self.state.winner_message->0@,
            strs_view(out.available_actions@) == available_spec(self.state@),
    {
        let s = &self.state;
        let mut players: Vec<PlayerOutput> = Vec::new();
        let mut i: usize = 0;
        while i < 3
            invariant
                i <= 3,
                s@.wf(),
                players@.len() == i,
                forall|k: int|
                    0 <= k < i ==> {
                        let p = #[trigger] players@[k];
                        let q = s@.players[k];
                        &&& p.name@ == q.name
                        &&& p.chips == q.chips
                        &&& p.hand@ == shown_hand(q, s@.is_over)
                        &&& p.folded == q.folded
                        &&& p.bet == q.bet
                        &&& p.is_all_in == q.is_all_in
                        &&& p.is_human == q.is_human
                    },
            decreases 3 - i,
        {
            let p = &s.players[i];
            let hand = if p.is_human || s.is_over {
                copy_cards(p.hand.as_slice())
            } else {
                Vec::new()
            };
            players.push(
                PlayerOutput {
                    name: p.name.clone(),
                    chips: p.chips,
                    hand,
                    folded: p.folded,
                    bet: p.bet,
                    is_all_in: p.is_all_in,
                    is_human: p.is_human,
                },
            );
            i = i + 1;
        }
        let winner_message = match &s.winner_message {
            Some(m) => Some(m.clone()),
            None => None,
        };
        OutputState {
            players,
            community: copy_cards(s.community.as_slice()),
            pot: s.pot,
            current_bet: s.current_bet,
            dealer: s.dealer,
            current_player: s.current_player,
            round: s.round.as_str(),
            is_over: s.is_over,
            winner_idx: s.winner_idx,
            winner_message,
            available_actions: s.available_actions(),
        }
    }
}

/// A copy of the cards.
fn copy_cards(cs: &[Card]) -> (r: Vec<Card>)
    ensures
        r@ == cs@,
{
    let mut r: Vec<Card> = Vec::new();
    let mut k: usize = 0;
    while k < cs.len()
        invariant
            k <= cs@.len(),
            r@ == cs@.take(k as int),
        decreases cs@.len() - k,
    {
        r.push(cs[k]);
        assert(cs@.take(k + 1) =~= cs@.take(k as int).push(cs@[k as int]));
        k = k + 1;
    }
    assert(cs@.take(cs@.len() as int) =~= cs@);
    r
}

/// What a poker request says, as `serde_json` reads it: its `action`
/// (empty when missing or not a string) and its `amount` when it is an
/// unsigned integer (empty and absent for text that is not JSON).
pub uninterp spec fn poker_request_of(input: Seq<char>) -> (Seq<char>, Option<u64>);

/// `serde_json::from_str::<serde_json::Value>` of the request, then its
/// `action` string and its `amount` number. The contract names the result
/// [`poker_request_of`].
#[verifier::external_body]
fn parse_poker_request(input: &str) -> (r: (String, Option<u64>))
    ensures
        (r.0@, r.1) == poker_request_of(input@),
{
    let v: Option<serde_json::Value> = serde_json::from_str(input).ok();
    let action = v.as_ref().and_then(|v| v.get("action")).and_then(|a| a.as_str()).unwrap_or("");
    let amount = v.as_ref().and_then(|v| v.get("amount")).and_then(|n| n.as_u64());
    (action.to_string(), amount)
}

impl PokerSession {
    /// One request as JSON text (`{"action": .., "amount": ..}`): read, then
    /// handled as [`PokerSession::handle`] handles it.
    pub fn process(&mut self, input: &str, seed: u64)
        requires
            old(self).state@.wf(),
            old(self).state@.actions_this_round + 33 < usize::MAX,
        ensures
            final(self).state@ == handle_spec(
                old(self).state@,
                poker_request_of(input@).0,
                poker_request_of(input@).1,
                seed,
            ),
            final(self).state@.wf(),
    {
        let (action, amount) = parse_poker_request(input);
        self.handle(action.as_str(), amount, seed);
    }
}

} // verus!

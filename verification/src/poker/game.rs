//! The table: players, blinds, betting, rounds and showdown.
use vstd::prelude::*;
use vstd::string::StringExecFns;

use crate::text::str_eq;
use super::cards::{build_deck, deck_card, lemma_deck_valid, shuffle, shuffle_spec, Card};
use super::hand::{
    beats, beats_spec, best_hand, best_hand_spec, rank_name, rank_name_str, ranks_valid,
    HandRank, ScoredHand,
};

verus! {

pub const SMALL_BLIND: u32 = 50;

pub const BIG_BLIND: u32 = 100;

pub const PLAYER_COUNT: usize = 3;

/// Chips each player sits down with.
pub const STARTING_CHIPS: u32 = 1000;

/// The stage of a hand.
#[derive(Clone, Copy, Debug, PartialEq, Eq, Structural)]
pub enum Round {
    Waiting,
    PreFlop,
    Flop,
    Turn,
    River,
    Showdown,
    Done,
}

pub open spec fn round_name(r: Round) -> Seq<char> {
    match r {
        Round::Waiting => "waiting"@,
        Round::PreFlop => "pre-flop"@,
        Round::Flop => "flop"@,
        Round::Turn => "turn"@,
        Round::River => "river"@,
        Round::Showdown => "showdown"@,
        Round::Done => "done"@,
    }
}

impl Round {
    /// The round's name as shown to players.
    pub fn as_str(&self) -> (s: &'static str)
        ensures
            s@ == round_name(*self),
    {
        match self {
            Round::Waiting => "waiting",
            Round::PreFlop => "pre-flop",
            Round::Flop => "flop",
            Round::Turn => "turn",
            Round::River => "river",
            Round::Showdown => "showdown",
            Round::Done => "done",
        }
    }
}

/// A player's move.
#[derive(Clone, Copy, Debug, PartialEq, Eq, Structural)]
pub enum Action {
    Fold,
    Call,
    Check,
    Raise,
}

/// The move a word names, if any.
pub open spec fn action_of(s: Seq<char>) -> Option<Action> {
    if s == "fold"@ {
        Some(Action::Fold)
    } else if s == "call"@ {
        Some(Action::Call)
    } else if s == "check"@ {
        Some(Action::Check)
    } else if s == "raise"@ {
        Some(Action::Raise)
    } else {
        None
    }
}

pub open spec fn action_name(a: Action) -> Seq<char> {
    match a {
        Action::Fold => "fold"@,
        Action::Call => "call"@,
        Action::Check => "check"@,
        Action::Raise => "raise"@,
    }
}

/// Each move's word reads back as that move.
pub proof fn lemma_action_name(a: Action)
    ensures
        action_of(action_name(a)) == Some(a),
{
    reveal_strlit("fold");
    reveal_strlit("call");
    reveal_strlit("check");
    reveal_strlit("raise");
    assert("call"@[0] != "fold"@[0]);
    assert("check"@.len() != "fold"@.len());
    assert("check"@[1] != "call"@[1]);
    assert("raise"@[0] != "fold"@[0]);
    assert("raise"@[0] != "call"@[0]);
    assert("raise"@[0] != "check"@[0]);
}

/// Reads a move from its word.
pub fn parse_action(s: &str) -> (r: Option<Action>)
    ensures
        r == action_of(s@),
{
    if str_eq(s, "fold") {
        Some(Action::Fold)
    } else if str_eq(s, "call") {
        Some(Action::Call)
    } else if str_eq(s, "check") {
        Some(Action::Check)
    } else if str_eq(s, "raise") {
        Some(Action::Raise)
    } else {
        None
    }
}

impl Action {
    /// The move's word.
    pub fn as_str(&self) -> (s: &'static str)
        ensures
            s@ == action_name(*self),
    {
        match self {
            Action::Fold => "fold",
            Action::Call => "call",
            Action::Check => "check",
            Action::Raise => "raise",
        }
    }
}

/// A seat at the table.
#[derive(Debug)]
pub struct PokerPlayer {
    pub name: String,
    pub chips: u32,
    pub hand: Vec<Card>,
    pub folded: bool,
    pub bet: u32,
    pub is_all_in: bool,
    pub is_human: bool,
}

/// A seat, as values.
#[verifier::ext_equal]
pub struct PlayerV {
    pub name: Seq<char>,
    pub chips: nat,
    pub hand: Seq<Card>,
    pub folded: bool,
    pub bet: nat,
    pub is_all_in: bool,
    pub is_human: bool,
}

impl View for PokerPlayer {
    type V = PlayerV;

    open spec fn view(&self) -> PlayerV {
        PlayerV {
            name: self.name@,
            chips: self.chips as nat,
            hand: self.hand@,
            folded: self.folded,
            bet: self.bet as nat,
            is_all_in: self.is_all_in,
            is_human: self.is_human,
        }
    }
}

/// The whole table.
#[derive(Debug)]
pub struct PokerState {
    pub players: Vec<PokerPlayer>,
    pub deck: Vec<Card>,
    pub deck_pos: usize,
    pub community: Vec<Card>,
    pub pot: u32,
    pub current_bet: u32,
    pub dealer: usize,
    pub current_player: usize,
    pub round: Round,
    pub is_over: bool,
    pub winner_idx: Option<usize>,
    pub winner_message: Option<String>,
    pub actions_this_round: usize,
    pub active_count: usize,
}

/// The table, as values.
#[verifier::ext_equal]
pub struct StateV {
    pub players: Seq<PlayerV>,
    pub deck: Seq<Card>,
    pub deck_pos: nat,
    pub community: Seq<Card>,
    pub pot: nat,
    pub current_bet: nat,
    pub dealer: nat,
    pub current_player: nat,
    pub round: Round,
    pub is_over: bool,
    pub winner_idx: Option<nat>,
    pub winner_message: Option<Seq<char>>,
    pub actions_this_round: nat,
    pub active_count: nat,
}

pub open spec fn players_view(ps: Seq<PokerPlayer>) -> Seq<PlayerV> {
    ps.map_values(|p: PokerPlayer| p@)
}

impl View for PokerState {
    type V = StateV;

    open spec fn view(&self) -> StateV {
        StateV {
            players: players_view(self.players@),
            deck: self.deck@,
            deck_pos: self.deck_pos as nat,
            community: self.community@,
            pot: self.pot as nat,
            current_bet: self.current_bet as nat,
            dealer: self.dealer as nat,
            current_player: self.current_player as nat,
            round: self.round,
            is_over: self.is_over,
            winner_idx: match self.winner_idx {
                Some(w) => Some(w as nat),
                None => None,
            },
            winner_message: match self.winner_message {
                Some(m) => Some(m@),
                None => None,
            },
            actions_this_round: self.actions_this_round as nat,
            active_count: self.active_count as nat,
        }
    }
}

pub open spec fn min_nat(a: nat, b: nat) -> nat {
    if a <= b {
        a
    } else {
        b
    }
}

/// `a - b`, or zero when `b` is larger.
pub open spec fn sat_sub(a: nat, b: nat) -> nat {
    if a >= b {
        (a - b) as nat
    } else {
        0
    }
}

/// The player moves `x` chips from the stack into the bet.
pub open spec fn pay(p: PlayerV, x: nat) -> PlayerV {
    PlayerV { chips: (p.chips - x) as nat, bet: p.bet + x, ..p }
}

/// A player without chips is all in; otherwise the flag stays.
pub open spec fn mark_all_in(p: PlayerV) -> PlayerV {
    if p.chips == 0 {
        PlayerV { is_all_in: true, ..p }
    } else {
        p
    }
}

/// How many players have not folded.
pub open spec fn count_active(ps: Seq<PlayerV>) -> nat
    decreases ps.len(),
{
    if ps.len() == 0 {
        0
    } else {
        count_active(ps.drop_last()) + if ps.last().folded {
            0nat
        } else {
            1nat
        }
    }
}

/// How many players still act: neither folded nor all in.
pub open spec fn count_acting(ps: Seq<PlayerV>) -> nat
    decreases ps.len(),
{
    if ps.len() == 0 {
        0
    } else {
        count_acting(ps.drop_last()) + if !ps.last().folded && !ps.last().is_all_in {
            1nat
        } else {
            0nat
        }
    }
}

/// Whether a player can still act.
pub open spec fn acting(p: PlayerV) -> bool {
    !p.folded && !p.is_all_in
}

impl StateV {
    /// Chips at the table, in stacks and in the pot.
    pub open spec fn chips_in_stacks(self) -> nat {
        self.players[0].chips + self.players[1].chips + self.players[2].chips
    }

    pub open spec fn total_chips(self) -> nat {
        self.chips_in_stacks() + self.pot
    }

    pub open spec fn bets_sum(self) -> nat {
        self.players[0].bet + self.players[1].bet + self.players[2].bet
    }

    /// The shape every table keeps: three seats, positions in range, and
    /// chip counts that fit the counters.
    pub open spec fn wf(self) -> bool {
        &&& self.players.len() == 3
        &&& self.dealer < 3
        &&& self.current_player < 3
        &&& self.deck_pos <= self.deck.len()
        &&& self.total_chips() <= u32::MAX
        &&& (!self.is_over ==> self.bets_sum() <= self.pot)
        &&& forall|i: int| 0 <= i < 3 ==> #[trigger] self.players[i].bet <= u32::MAX
        &&& self.current_bet <= u32::MAX
        &&& self.cards_valid()
    }

    /// Every card on the table has a rank from 2 to 14.
    pub open spec fn cards_valid(self) -> bool {
        &&& ranks_valid(self.deck)
        &&& ranks_valid(self.community)
        &&& forall|i: int| 0 <= i < 3 ==> ranks_valid(#[trigger] self.players[i].hand)
    }

    pub open spec fn with_player(self, i: int, p: PlayerV) -> StateV {
        StateV { players: self.players.update(i, p), ..self }
    }

    /// Player `i` puts `x` chips into the pot.
    pub open spec fn pay_in(self, i: int, x: nat) -> StateV {
        StateV { pot: self.pot + x, ..self.with_player(i, pay(self.players[i], x)) }
    }

    /// Player `i` is all in if out of chips.
    pub open spec fn check_all_in(self, i: int) -> StateV {
        self.with_player(i, mark_all_in(self.players[i]))
    }

    /// Posting a blind of `amount` (or the whole stack, if smaller).
    pub open spec fn post_blind(self, i: int, amount: nat) -> StateV {
        self.pay_in(i, min_nat(self.players[i].chips, amount)).check_all_in(i)
    }

    /// What player `i` owes to match the current bet.
    pub open spec fn to_call(self, i: int) -> nat {
        sat_sub(self.current_bet, self.players[i].bet)
    }

    /// Player `i` folds; the count of players in the hand is updated.
    pub open spec fn fold_spec(self, i: int) -> StateV {
        let s = self.with_player(i, PlayerV { folded: true, ..self.players[i] });
        StateV { active_count: count_active(s.players), ..s }
    }

    /// Player `i` matches the current bet, or goes all in trying.
    pub open spec fn call_spec(self, i: int) -> StateV {
        self.pay_in(i, min_nat(self.players[i].chips, self.to_call(i))).check_all_in(i)
    }

    /// Player `i` calls, then adds `amount` (capped by the stack); a raise
    /// that adds chips sets the bet to match and reopens the betting.
    pub open spec fn raise_spec(self, i: int, amount: nat) -> StateV {
        let s1 = self.pay_in(i, min_nat(self.players[i].chips, self.to_call(i)));
        let y = min_nat(s1.players[i].chips, amount);
        let s2 = if y > 0 {
            let t = s1.pay_in(i, y);
            StateV { current_bet: t.players[i].bet, actions_this_round: 0, ..t }
        } else {
            s1
        };
        s2.check_all_in(i)
    }

    /// The effect of a move that is accepted: the move, then one more
    /// action counted in the round.
    pub open spec fn act(self, i: int, a: Action, amount: nat) -> StateV {
        let s = match a {
            Action::Fold => self.fold_spec(i),
            Action::Call => self.call_spec(i),
            Action::Check => self,
            Action::Raise => self.raise_spec(i, amount),
        };
        StateV { actions_this_round: s.actions_this_round + 1, ..s }
    }

    /// Everyone still in the hand has matched the bet (or is all in).
    pub open spec fn all_matched(self) -> bool {
        forall|i: int|
            0 <= i < 3 ==> #[trigger] self.players[i].folded || self.players[i].is_all_in
                || self.players[i].bet >= self.current_bet
    }

    /// The betting round is over: all matched, and every player who can
    /// act has had a turn.
    pub open spec fn betting_closed(self) -> bool {
        self.all_matched() && self.actions_this_round >= count_acting(self.players)
    }

    /// The next seat after the current one whose player can still act.
    pub open spec fn next_actor(self) -> Option<nat> {
        let a = ((self.current_player + 1) % 3) as nat;
        let b = ((self.current_player + 2) % 3) as nat;
        if acting(self.players[a as int]) {
            Some(a)
        } else if acting(self.players[b as int]) {
            Some(b)
        } else {
            None
        }
    }

    /// Passing the turn: whether the round is over, and the table after.
    pub open spec fn advance_spec(self) -> (bool, StateV) {
        if self.betting_closed() {
            (true, self)
        } else {
            match self.next_actor() {
                Some(n) => (false, StateV { current_player: n, ..self }),
                None => (true, self),
            }
        }
    }

    /// The first seat after the dealer whose player has not folded (the seat
    /// after the dealer if all have).
    pub open spec fn first_after_dealer(self) -> nat {
        let a = ((self.dealer + 1) % 3) as nat;
        let b = ((self.dealer + 2) % 3) as nat;
        let c = self.dealer;
        if !self.players[a as int].folded {
            a
        } else if !self.players[b as int].folded {
            b
        } else if !self.players[c as int].folded {
            c
        } else {
            a
        }
    }

    /// The top card is discarded.
    pub open spec fn burn(self) -> StateV {
        if self.deck_pos < self.deck.len() {
            StateV { deck_pos: self.deck_pos + 1, ..self }
        } else {
            self
        }
    }

    /// The top card goes face up to the board.
    pub open spec fn turn_up(self) -> StateV {
        if self.deck_pos < self.deck.len() {
            StateV {
                deck_pos: self.deck_pos + 1,
                community: self.community.push(self.deck[self.deck_pos as int]),
                ..self
            }
        } else {
            self
        }
    }

    /// The top card goes to player `i`'s hand.
    pub open spec fn deal_to(self, i: int) -> StateV {
        if self.deck_pos < self.deck.len() {
            let p = self.players[i];
            StateV {
                deck_pos: self.deck_pos + 1,
                ..self.with_player(i, PlayerV { hand: p.hand.push(self.deck[self.deck_pos as int]), ..p })
            }
        } else {
            self
        }
    }

    /// Bets cleared for a new betting round, the first player after the
    /// dealer to act.
    pub open spec fn clear_bets(self) -> StateV {
        StateV {
            players: self.players.map_values(|p: PlayerV| PlayerV { bet: 0, ..p }),
            current_bet: 0,
            actions_this_round: 0,
            current_player: self.first_after_dealer(),
            ..self
        }
    }

    /// The score of player `i`: the best hand of the board and the hole
    /// cards.
    pub open spec fn score(self, i: int) -> (HandRank, Seq<u8>) {
        best_hand_spec(self.community + self.players[i].hand)
    }

    /// The best score among the first `k` seats that have not folded, and
    /// its seat (the first seat among equals; seat 0 when all folded).
    pub open spec fn leader(self, k: int) -> (Option<(HandRank, Seq<u8>)>, nat)
        decreases k,
    {
        if k <= 0 {
            (None, 0)
        } else {
            let (b, w) = self.leader(k - 1);
            if self.players[k - 1].folded {
                (b, w)
            } else {
                let sc = self.score(k - 1);
                if b is None || beats_spec(sc, b->0) {
                    (Some(sc), (k - 1) as nat)
                } else {
                    (b, w)
                }
            }
        }
    }

    /// The hand is over: the pot goes to seat `w`, the dealer button moves.
    pub open spec fn award(self, w: nat, msg: Seq<char>) -> StateV {
        let p = self.players[w as int];
        StateV {
            pot: 0,
            winner_idx: Some(w),
            winner_message: Some(msg),
            dealer: ((self.dealer + 1) % 3) as nat,
            round: Round::Done,
            is_over: true,
            ..self.with_player(w as int, PlayerV { chips: p.chips + self.pot, ..p })
        }
    }

    /// Showdown: the best hand among those who did not fold takes the pot.
    pub open spec fn showdown_spec(self) -> StateV {
        let (b, w) = self.leader(3);
        let r = match b {
            Some(sc) => sc.0,
            None => HandRank::HighCard,
        };
        self.award(w, self.players[w as int].name + " venceu com "@ + rank_name(r) + "!"@)
    }

    /// The first seat that has not folded (seat 0 if all have).
    pub open spec fn last_standing(self) -> nat {
        if !self.players[0].folded {
            0
        } else if !self.players[1].folded {
            1
        } else if !self.players[2].folded {
            2
        } else {
            0
        }
    }

    /// Everyone else folded: the remaining player takes the pot.
    pub open spec fn early_showdown_spec(self) -> StateV {
        let w = self.last_standing();
        self.award(w, self.players[w as int].name + " venceu (todos os outros desistiram)!"@)
    }

    /// The next stage of the hand: flop (three cards), turn, river (one
    /// card each, after a burnt card), then the showdown; from any other
    /// stage the hand is done.
    pub open spec fn next_round_spec(self) -> StateV {
        let s = self.clear_bets();
        match self.round {
            Round::PreFlop => StateV {
                round: Round::Flop,
                ..s.burn().turn_up().turn_up().turn_up()
            },
            Round::Flop => StateV { round: Round::Turn, ..s.burn().turn_up() },
            Round::Turn => StateV { round: Round::River, ..s.burn().turn_up() },
            Round::River => StateV { round: Round::Showdown, ..s }.showdown_spec(),
            _ => StateV { round: Round::Done, is_over: true, ..s },
        }
    }

    /// A new hand's table before the blinds: seats cleared, board and pot
    /// empty, the deck `deck` on top.
    pub open spec fn reset_hand(self, deck: Seq<Card>) -> StateV {
        StateV {
            players: self.players.map_values(|p: PlayerV| reset_player(p)),
            deck,
            deck_pos: 0,
            community: Seq::empty(),
            pot: 0,
            current_bet: 0,
            is_over: false,
            winner_idx: None,
            winner_message: None,
            actions_this_round: 0,
            active_count: 3,
            ..self
        }
    }

    /// The first `k` hole cards dealt, one at a time, starting with the
    /// seat after the dealer.
    pub open spec fn deal_hole(self, k: int) -> StateV
        decreases k,
    {
        if k <= 0 {
            self
        } else {
            self.deal_hole(k - 1).deal_to((self.dealer + k) % 3)
        }
    }

    /// A new hand from seed `seed`: the shuffled deck, the small blind (50)
    /// for the seat after the dealer and the big blind (100) for the next,
    /// two hole cards each, and the seat after the big blind to act.
    pub open spec fn start_spec(self, seed: u64) -> StateV {
        let d = self.dealer;
        let sb: int = ((d + 1) % 3) as int;
        let bb: int = ((d + 2) % 3) as int;
        let deck = shuffle_spec(fresh_deck(), seed_of(seed)).0;
        let s1 = self.reset_hand(deck).post_blind(sb, SMALL_BLIND as nat).post_blind(
            bb,
            BIG_BLIND as nat,
        );
        let s2 = StateV { current_bet: BIG_BLIND as nat, ..s1 }.deal_hole(6);
        StateV { current_player: ((bb + 1) % 3) as nat, round: Round::PreFlop, ..s2 }
    }

    /// Why a move of player `i` is refused, if it is.
    pub open spec fn refusal(self, i: int, a: Option<Action>) -> Option<Seq<char>> {
        if self.players[i].folded {
            Some("player already folded"@)
        } else {
            match a {
                None => Some("unknown action"@),
                Some(Action::Check) => if self.players[i].bet < self.current_bet {
                    Some("cannot check, must call or fold"@)
                } else {
                    None
                },
                Some(_) => None,
            }
        }
    }
}

/// A seat cleared for a new hand.
pub open spec fn reset_player(p: PlayerV) -> PlayerV {
    PlayerV { hand: Seq::empty(), folded: false, bet: 0, is_all_in: false, ..p }
}

/// A fresh deck, as values.
pub open spec fn fresh_deck() -> Seq<Card> {
    Seq::new(52, |i: int| deck_card(i))
}

/// The generator's starting state for a seed (zero is replaced).
pub open spec fn seed_of(seed: u64) -> u64 {
    if seed == 0 {
        0xdeadbeef_cafebabe
    } else {
        seed
    }
}

/// A deck with the cards of a fresh one, in any order, has only valid
/// ranks.
pub proof fn lemma_shuffled_valid(s: Seq<Card>)
    requires
        s.to_multiset() == fresh_deck().to_multiset(),
    ensures
        ranks_valid(s),
{
    broadcast use vstd::seq_lib::group_to_multiset_ensures;

    assert forall|i: int| 0 <= i < s.len() implies 2 <= #[trigger] s[i].rank <= 14 by {
        assert(s.to_multiset().count(s[i]) > 0);
        assert(fresh_deck().contains(s[i]));
        let j = choose|j: int| 0 <= j < 52 && fresh_deck()[j] == s[i];
        lemma_deck_valid(j);
    }
}

/// The moves offered to the human (seat 0): none unless it is their turn
/// in a live hand; else fold, check or call (check when the bet is
/// matched), and raise while they have chips.
pub open spec fn available_spec(s: StateV) -> Seq<Seq<char>> {
    if s.is_over || s.current_player != 0 || s.players[0].folded {
        Seq::empty()
    } else {
        let p = s.players[0];
        let base = seq!["fold"@, if p.bet >= s.current_bet { "check"@ } else { "call"@ }];
        if p.chips > 0 {
            base.push("raise"@)
        } else {
            base
        }
    }
}

pub open spec fn strs_view(v: Seq<&'static str>) -> Seq<Seq<char>> {
    v.map_values(|x: &'static str| x@)
}

/// A fresh seat.
pub open spec fn seat(name: Seq<char>, human: bool) -> PlayerV {
    PlayerV {
        name,
        chips: STARTING_CHIPS as nat,
        hand: Seq::empty(),
        folded: false,
        bet: 0,
        is_all_in: false,
        is_human: human,
    }
}

/// The table before the first hand: the human and two bots with 1000 chips
/// each.
pub open spec fn new_game_spec() -> StateV {
    StateV {
        players: seq![seat("Você"@, true), seat("Bot Alice"@, false), seat("Bot Bob"@, false)],
        deck: Seq::empty(),
        deck_pos: 0,
        community: Seq::empty(),
        pot: 0,
        current_bet: 0,
        dealer: 0,
        current_player: 0,
        round: Round::Waiting,
        is_over: false,
        winner_idx: None,
        winner_message: None,
        actions_this_round: 0,
        active_count: 3,
    }
}

proof fn lemma_view_update(ps: Seq<PokerPlayer>, i: int, p: PokerPlayer)
    requires
        0 <= i < ps.len(),
    ensures
        players_view(ps.update(i, p)) == players_view(ps).update(i, p@),
{
    assert(players_view(ps.update(i, p)) =~= players_view(ps).update(i, p@));
}

fn new_player(name: &str, human: bool) -> (p: PokerPlayer)
    ensures
        p@ == seat(name@, human),
{
    let p = PokerPlayer {
        name: String::from_str(name),
        chips: STARTING_CHIPS,
        hand: Vec::new(),
        folded: false,
        bet: 0,
        is_all_in: false,
        is_human: human,
    };
    assert(p@ =~= seat(name@, human));
    p
}

impl PokerState {
    /// A new table: the human ("Você") and two bots, 1000 chips each,
    /// waiting for the first hand.
    pub fn new_game() -> (s: PokerState)
        ensures
            s@ == new_game_spec(),
            s@.wf(),
            s@.total_chips() == 3000,
    {
        let mut players: Vec<PokerPlayer> = Vec::new();
        players.push(new_player("Você", true));
        players.push(new_player("Bot Alice", false));
        players.push(new_player("Bot Bob", false));
        let s = PokerState {
            players,
            deck: Vec::new(),
            deck_pos: 0,
            community: Vec::new(),
            pot: 0,
            current_bet: 0,
            dealer: 0,
            current_player: 0,
            round: Round::Waiting,
            is_over: false,
            winner_idx: None,
            winner_message: None,
            actions_this_round: 0,
            active_count: PLAYER_COUNT,
        };
        assert(s@.players =~= new_game_spec().players);
        assert(s@ =~= new_game_spec());
        s
    }

    /// The next card of the deck, if any is left.
    pub fn deal_card(&mut self) -> (c: Option<Card>)
        ensures
            old(self)@.deck_pos < old(self)@.deck.len() ==> c == Some(
                old(self)@.deck[old(self)@.deck_pos as int],
            ) && final(self)@ == (StateV { deck_pos: old(self)@.deck_pos + 1, ..old(self)@ }),
            old(self)@.deck_pos >= old(self)@.deck.len() ==> c is None && final(self)@ == old(
                self,
            )@,
    {
        if self.deck_pos < self.deck.len() {
            let c = self.deck[self.deck_pos];
            self.deck_pos = self.deck_pos + 1;
            Some(c)
        } else {
            None
        }
    }

    /// Player `i` puts `x` chips of the stack into the bet and the pot.
    fn pay_in(&mut self, i: usize, x: u32)
        requires
            i < old(self)@.players.len() == old(self).players@.len() == 3,
            x <= old(self)@.players[i as int].chips,
            old(self)@.players[i as int].bet + x <= u32::MAX,
            old(self)@.pot + x <= u32::MAX,
        ensures
            final(self)@ == old(self)@.pay_in(i as int, x as nat),
            final(self).players@.len() == old(self).players@.len(),
            old(self)@.wf() ==> final(self)@.wf(),
            final(self)@.total_chips() == old(self)@.total_chips(),
    {
        let ghost s0 = self@;
        let chips = self.players[i].chips - x;
        let bet = self.players[i].bet + x;
        self.players[i].chips = chips;
        self.players[i].bet = bet;
        self.pot = self.pot + x;
        proof {
            assert(self@.players =~= s0.players.update(i as int, pay(s0.players[i as int], x as nat)));
            assert(self@ =~= s0.pay_in(i as int, x as nat));
        }
    }

    /// Marks player `i` all in when out of chips.
    fn check_all_in(&mut self, i: usize)
        requires
            i < old(self)@.players.len() == old(self).players@.len() == 3,
        ensures
            final(self)@ == old(self)@.check_all_in(i as int),
            final(self).players@.len() == old(self).players@.len(),
            old(self)@.wf() ==> final(self)@.wf(),
            final(self)@.total_chips() == old(self)@.total_chips(),
    {
        let ghost s0 = self@;
        if self.players[i].chips == 0 {
            self.players[i].is_all_in = true;
        }
        proof {
            assert(self@.players =~= s0.players.update(i as int, mark_all_in(s0.players[i as int])));
            assert(self@ =~= s0.check_all_in(i as int));
        }
    }

    /// Posts a blind of `amount` for player `idx` (the whole stack if it
    /// is smaller); a player left without chips is all in.
    pub fn post_blind(&mut self, idx: usize, amount: u32)
        requires
            old(self)@.wf(),
            idx < 3,
            old(self)@.players[idx as int].bet + old(self)@.players[idx as int].chips <= u32::MAX,
        ensures
            final(self)@ == old(self)@.post_blind(idx as int, amount as nat),
            final(self)@.total_chips() == old(self)@.total_chips(),
            final(self).players@.len() == old(self).players@.len(),
    {
        let actual = if self.players[idx].chips < amount {
            self.players[idx].chips
        } else {
            amount
        };
        self.pay_in(idx, actual);
        self.check_all_in(idx);
    }

    fn fold(&mut self, i: usize)
        requires
            old(self)@.wf(),
            i < 3,
        ensures
            final(self)@ == old(self)@.fold_spec(i as int),
            final(self)@.wf(),
            final(self)@.total_chips() == old(self)@.total_chips(),
            final(self)@.actions_this_round == old(self)@.actions_this_round,
    {
        let ghost s0 = self@;
        self.players[i].folded = true;
        proof {
            assert(self@.players =~= s0.players.update(
                i as int,
                PlayerV { folded: true, ..s0.players[i as int] },
            ));
        }
        self.active_count = self.count_active_players();
        assert(self@ =~= s0.fold_spec(i as int));
    }

    fn call(&mut self, i: usize)
        requires
            old(self)@.wf(),
            i < 3,
            old(self)@.players[i as int].bet + old(self)@.players[i as int].chips <= u32::MAX,
        ensures
            final(self)@ == old(self)@.call_spec(i as int),
            final(self)@.wf(),
            final(self)@.total_chips() == old(self)@.total_chips(),
            final(self)@.actions_this_round == old(self)@.actions_this_round,
    {
        let to_call = if self.current_bet >= self.players[i].bet {
            self.current_bet - self.players[i].bet
        } else {
            0
        };
        let actual = if self.players[i].chips < to_call {
            self.players[i].chips
        } else {
            to_call
        };
        self.pay_in(i, actual);
        self.check_all_in(i);
    }

    fn raise(&mut self, i: usize, raise_amount: u32)
        requires
            old(self)@.wf(),
            i < 3,
            old(self)@.players[i as int].bet + old(self)@.players[i as int].chips <= u32::MAX,
        ensures
            final(self)@ == old(self)@.raise_spec(i as int, raise_amount as nat),
            final(self)@.wf(),
            final(self)@.total_chips() == old(self)@.total_chips(),
    {
        let ghost s0 = self@;
        let to_call = if self.current_bet >= self.players[i].bet {
            self.current_bet - self.players[i].bet
        } else {
            0
        };
        let call_actual = if self.players[i].chips < to_call {
            self.players[i].chips
        } else {
            to_call
        };
        self.pay_in(i, call_actual);
        let ghost s1 = self@;
        let raise_actual = if self.players[i].chips < raise_amount {
            self.players[i].chips
        } else {
            raise_amount
        };
        if raise_actual > 0 {
            self.pay_in(i, raise_actual);
            self.current_bet = self.players[i].bet;
            self.actions_this_round = 0;
            assert(self@ =~= (StateV {
                current_bet: s1.pay_in(i as int, raise_actual as nat).players[i as int].bet,
                actions_this_round: 0,
                ..s1.pay_in(i as int, raise_actual as nat)
            }));
        }
        self.check_all_in(i);
    }

    /// How many players have not folded.
    fn count_active_players(&self) -> (n: usize)
        requires
            self.players@.len() == 3,
        ensures
            n == count_active(self@.players),
    {
        let mut n: usize = 0;
        let mut i: usize = 0;
        while i < 3
            invariant
                i <= 3,
                self.players@.len() == 3,
                n <= i,
                n == count_active(self@.players.take(i as int)),
            decreases 3 - i,
        {
            assert(self@.players.take(i + 1).drop_last() =~= self@.players.take(i as int));
            if !self.players[i].folded {
                n = n + 1;
            }
            i = i + 1;
        }
        assert(self@.players.take(3) =~= self@.players);
        n
    }

    /// Applies player `player_idx`'s move ("fold", "call", "check" or
    /// "raise"; a raise first calls, then adds `raise_amount`, capped by the
    /// stack). A refused move changes nothing.
    pub fn apply_action(&mut self, player_idx: usize, action: &str, raise_amount: u32) -> (r: Result<
        (),
        &'static str,
    >)
        requires
            old(self)@.wf(),
            player_idx < 3,
            old(self)@.actions_this_round < usize::MAX,
            old(self)@.players[player_idx as int].bet + old(self)@.players[player_idx as int].chips
                <= u32::MAX,
        ensures
            match old(self)@.refusal(player_idx as int, action_of(action@)) {
                Some(msg) => (r matches Err(e) && e@ == msg) && final(self)@ == old(self)@,
                None => r is Ok && final(self)@ == old(self)@.act(
                    player_idx as int,
                    action_of(action@)->0,
                    raise_amount as nat,
                ),
            },
            final(self)@.wf(),
            final(self)@.total_chips() == old(self)@.total_chips(),
            final(self)@.actions_this_round <= old(self)@.actions_this_round + 1,
    {
        let i = player_idx;
        let ghost s0 = self@;
        if self.players[i].folded {
            return Err("player already folded");
        }
        let a = parse_action(action);
        match a {
            None => {
                return Err("unknown action");
            },
            Some(Action::Fold) => self.fold(i),
            Some(Action::Call) => self.call(i),
            Some(Action::Check) => {
                if self.players[i].bet < self.current_bet {
                    return Err("cannot check, must call or fold");
                }
            },
            Some(Action::Raise) => self.raise(i, raise_amount),
        }
        self.actions_this_round = self.actions_this_round + 1;
        proof {
            assert(self@ =~= s0.act(i as int, a->0, raise_amount as nat));
        }
        Ok(())
    }

    /// Whether player `i` can still act.
    fn is_acting(&self, i: usize) -> (b: bool)
        requires
            i < self.players@.len(),
        ensures
            b == acting(self@.players[i as int]),
    {
        !self.players[i].folded && !self.players[i].is_all_in
    }

    /// Passes the turn. Returns true when the betting round is over (all
    /// matched and everyone able to act has acted, or nobody else can act);
    /// otherwise the next seat able to act gets the turn.
    pub fn advance_player(&mut self) -> (r: bool)
        requires
            old(self)@.wf(),
        ensures
            (r, final(self)@) == old(self)@.advance_spec(),
            final(self)@.actions_this_round == old(self)@.actions_this_round,
            final(self)@.wf(),
            final(self)@.total_chips() == old(self)@.total_chips(),
    {
        let ghost s0 = self@;
        let cb = self.current_bet;
        let m0 = self.players[0].folded || self.players[0].is_all_in || self.players[0].bet >= cb;
        let m1 = self.players[1].folded || self.players[1].is_all_in || self.players[1].bet >= cb;
        let m2 = self.players[2].folded || self.players[2].is_all_in || self.players[2].bet >= cb;
        let all_matched = m0 && m1 && m2;
        proof {
            if all_matched {
                assert forall|i: int| 0 <= i < 3 implies #[trigger] s0.players[i].folded
                    || s0.players[i].is_all_in || s0.players[i].bet >= s0.current_bet by {
                    if i == 0 {
                    } else if i == 1 {
                    } else {
                    }
                }
            } else if !m0 {
                assert(!(s0.players[0].folded || s0.players[0].is_all_in || s0.players[0].bet
                    >= s0.current_bet));
            } else if !m1 {
                assert(!(s0.players[1].folded || s0.players[1].is_all_in || s0.players[1].bet
                    >= s0.current_bet));
            } else {
                assert(!(s0.players[2].folded || s0.players[2].is_all_in || s0.players[2].bet
                    >= s0.current_bet));
            }
        }
        let mut acting_n: usize = 0;
        if self.is_acting(0) {
            acting_n = acting_n + 1;
        }
        if self.is_acting(1) {
            acting_n = acting_n + 1;
        }
        if self.is_acting(2) {
            acting_n = acting_n + 1;
        }
        proof {
            reveal_with_fuel(count_acting, 4);
            assert(s0.players.drop_last().drop_last().drop_last() =~= Seq::<PlayerV>::empty());
            assert(acting_n == count_acting(s0.players));
        }
        if all_matched && self.actions_this_round >= acting_n {
            return true;
        }
        let a = (self.current_player + 1) % 3;
        if self.is_acting(a) {
            self.current_player = a;
            assert(self@ =~= (StateV { current_player: a as nat, ..s0 }));
            return false;
        }
        let b = (self.current_player + 2) % 3;
        if self.is_acting(b) {
            self.current_player = b;
            assert(self@ =~= (StateV { current_player: b as nat, ..s0 }));
            return false;
        }
        true
    }

    /// Turns the top card of the deck face up on the board, if any is left.
    fn turn_up_card(&mut self)
        requires
            old(self)@.wf(),
        ensures
            final(self)@ == old(self)@.turn_up(),
            final(self)@.wf(),
    {
        let ghost s0 = self@;
        match self.deal_card() {
            Some(c) => {
                self.community.push(c);
                assert(self@ =~= s0.turn_up());
            },
            None => {},
        }
    }

    /// Clears the bets for a new betting round and gives the turn to the
    /// first player after the dealer still in the hand.
    fn clear_bets(&mut self)
        requires
            old(self)@.wf(),
        ensures
            final(self)@ == old(self)@.clear_bets(),
            final(self)@.wf(),
            final(self)@.total_chips() == old(self)@.total_chips(),
    {
        let ghost s0 = self@;
        self.players[0].bet = 0;
        self.players[1].bet = 0;
        self.players[2].bet = 0;
        self.current_bet = 0;
        self.actions_this_round = 0;
        let a = (self.dealer + 1) % 3;
        let b = (self.dealer + 2) % 3;
        let c = self.dealer;
        let first = if !self.players[a].folded {
            a
        } else if !self.players[b].folded {
            b
        } else if !self.players[c].folded {
            c
        } else {
            a
        };
        self.current_player = first;
        proof {
            assert(self@.players =~= s0.players.map_values(|p: PlayerV| PlayerV { bet: 0, ..p }));
            assert(self@ =~= s0.clear_bets());
        }
    }

    /// Gives the pot to seat `w` and ends the hand with `msg`.
    fn award(&mut self, w: usize, msg: String)
        requires
            old(self)@.wf(),
            w < 3,
        ensures
            final(self)@ == old(self)@.award(w as nat, msg@),
            final(self)@.actions_this_round == old(self)@.actions_this_round,
            final(self)@.wf(),
            final(self)@.total_chips() == old(self)@.total_chips(),
    {
        let ghost s0 = self@;
        let chips = self.players[w].chips + self.pot;
        self.players[w].chips = chips;
        self.pot = 0;
        self.winner_idx = Some(w);
        self.winner_message = Some(msg);
        self.dealer = (self.dealer + 1) % 3;
        self.round = Round::Done;
        self.is_over = true;
        proof {
            let p = s0.players[w as int];
            assert(self@.players =~= s0.players.update(
                w as int,
                PlayerV { chips: p.chips + s0.pot, ..p },
            ));
            assert(self@ =~= s0.award(w as nat, msg@));
        }
    }

    /// The board and player `i`'s hole cards together.
    fn cards_of(&self, i: usize) -> (cs: Vec<Card>)
        requires
            i < self.players@.len(),
        ensures
            cs@ == self@.community + self@.players[i as int].hand,
    {
        let mut cs: Vec<Card> = Vec::new();
        let mut k: usize = 0;
        while k < self.community.len()
            invariant
                k <= self.community@.len(),
                cs@ == self.community@.take(k as int),
            decreases self.community@.len() - k,
        {
            cs.push(self.community[k]);
            assert(self.community@.take(k + 1) =~= self.community@.take(k as int).push(
                self.community@[k as int],
            ));
            k = k + 1;
        }
        let hand = &self.players[i].hand;
        let mut q: usize = 0;
        while q < hand.len()
            invariant
                q <= hand@.len(),
                hand@ == self@.players[i as int].hand,
                cs@ == self.community@ + hand@.take(q as int),
            decreases hand@.len() - q,
        {
            cs.push(hand[q]);
            assert(self.community@ + hand@.take(q + 1) =~= (self.community@ + hand@.take(
                q as int,
            )).push(hand@[q as int]));
            q = q + 1;
        }
        assert(self.community@.take(self.community@.len() as int) =~= self.community@);
        assert(hand@.take(hand@.len() as int) =~= hand@);
        cs
    }

    /// Showdown: the best hand among the players still in takes the pot
    /// ("<name> venceu com <hand>!"), the button moves, the hand is done.
    pub fn do_showdown(&mut self)
        requires
            old(self)@.wf(),
        ensures
            final(self)@ == old(self)@.showdown_spec(),
            final(self)@.actions_this_round == old(self)@.actions_this_round,
            final(self)@.wf(),
            final(self)@.total_chips() == old(self)@.total_chips(),
    {
        let ghost s0 = self@;
        let mut best: Option<ScoredHand> = None;
        let mut winner: usize = 0;
        let mut i: usize = 0;
        while i < 3
            invariant
                self@ == s0,
                s0.wf(),
                i <= 3,
                winner < 3,
                ({
                    let (b, w) = s0.leader(i as int);
                    &&& w == winner
                    &&& match best {
                        Some(sh) => b == Some(sh.sv()),
                        None => b is None,
                    }
                }),
            decreases 3 - i,
        {
            if !self.players[i].folded {
                let all = self.cards_of(i);
                proof {
                    assert(ranks_valid(all@)) by {
                        assert forall|k: int| 0 <= k < all@.len() implies #[trigger] all@[k].rank <= 14 by {
                            if k < s0.community.len() {
                                assert(all@[k] == s0.community[k]);
                            } else {
                                assert(all@[k] == s0.players[i as int].hand[k - s0.community.len()]);
                            }
                        }
                    }
                }
                let score = best_hand(all.as_slice());
                let replace = match &best {
                    None => true,
                    Some(b) => beats(&score, b),
                };
                if replace {
                    best = Some(score);
                    winner = i;
                }
            }
            i = i + 1;
        }
        let r = match &best {
            Some(b) => b.rank,
            None => HandRank::HighCard,
        };
        let mut msg = self.players[winner].name.clone();
        msg.append(" venceu com ");
        msg.append(rank_name_str(r));
        msg.append("!");
        self.award(winner, msg);
    }

    /// Everyone else folded: the first player still in takes the pot
    /// ("<name> venceu (todos os outros desistiram)!"), the button moves, the
    /// hand is done.
    pub fn early_showdown(&mut self)
        requires
            old(self)@.wf(),
        ensures
            final(self)@ == old(self)@.early_showdown_spec(),
            final(self)@.actions_this_round == old(self)@.actions_this_round,
            final(self)@.wf(),
            final(self)@.total_chips() == old(self)@.total_chips(),
    {
        let winner: usize = if !self.players[0].folded {
            0
        } else if !self.players[1].folded {
            1
        } else if !self.players[2].folded {
            2
        } else {
            0
        };
        let mut msg = self.players[winner].name.clone();
        msg.append(" venceu (todos os outros desistiram)!");
        self.award(winner, msg);
    }

    /// Moves the hand to its next stage: the flop (three cards), the turn and
    /// the river (one card each), each after a burnt card and with bets
    /// cleared; after the river, the showdown; from any other stage the hand
    /// ends.
    pub fn next_round(&mut self)
        requires
            old(self)@.wf(),
        ensures
            final(self)@ == old(self)@.next_round_spec(),
            final(self)@.actions_this_round == 0,
            final(self)@.wf(),
            final(self)@.total_chips() == old(self)@.total_chips(),
    {
        let ghost s0 = self@;
        self.clear_bets();
        match self.round {
            Round::PreFlop => {
                let _ = self.deal_card();
                self.turn_up_card();
                self.turn_up_card();
                self.turn_up_card();
                self.round = Round::Flop;
            },
            Round::Flop => {
                let _ = self.deal_card();
                self.turn_up_card();
                self.round = Round::Turn;
            },
            Round::Turn => {
                let _ = self.deal_card();
                self.turn_up_card();
                self.round = Round::River;
            },
            Round::River => {
                self.round = Round::Showdown;
                self.do_showdown();
            },
            _ => {
                self.round = Round::Done;
                self.is_over = true;
            },
        }
    }

    /// Deals the top card of the deck to player `i`, if any is left.
    fn deal_to(&mut self, i: usize)
        requires
            old(self)@.wf(),
            i < 3,
        ensures
            final(self)@ == old(self)@.deal_to(i as int),
            final(self)@.wf(),
            final(self)@.total_chips() == old(self)@.total_chips(),
    {
        let ghost s0 = self@;
        match self.deal_card() {
            Some(c) => {
                self.players[i].hand.push(c);
                proof {
                    let p = s0.players[i as int];
                    assert(self@.players =~= s0.players.update(
                        i as int,
                        PlayerV { hand: p.hand.push(c), ..p },
                    ));
                    assert(self@ =~= s0.deal_to(i as int));
                }
            },
            None => {},
        }
    }

    /// Clears the seats, the board and the pot for a new hand dealt from
    /// `deck`.
    fn reset_for_hand(&mut self, deck: Vec<Card>)
        requires
            old(self)@.wf(),
            ranks_valid(deck@),
        ensures
            final(self)@ == old(self)@.reset_hand(deck@),
            final(self)@.wf(),
            final(self)@.total_chips() == old(self)@.chips_in_stacks(),
    {
        let ghost s0 = self@;
        let ghost d = deck@;
        self.players[0].hand = Vec::new();
        self.players[0].folded = false;
        self.players[0].bet = 0;
        self.players[0].is_all_in = false;
        self.players[1].hand = Vec::new();
        self.players[1].folded = false;
        self.players[1].bet = 0;
        self.players[1].is_all_in = false;
        self.players[2].hand = Vec::new();
        self.players[2].folded = false;
        self.players[2].bet = 0;
        self.players[2].is_all_in = false;
        self.community = Vec::new();
        self.pot = 0;
        self.current_bet = 0;
        self.is_over = false;
        self.winner_idx = None;
        self.winner_message = None;
        self.actions_this_round = 0;
        self.active_count = PLAYER_COUNT;
        self.deck = deck;
        self.deck_pos = 0;
        proof {
            assert(self@.players =~= s0.players.map_values(|p: PlayerV| reset_player(p)));
            assert(self@ =~= s0.reset_hand(d));
        }
    }

    /// The small and big blinds, posted by the two seats after the dealer;
    /// the bet to match is the big blind.
    #[verifier::spinoff_prover]
    #[verifier::rlimit(40)]
    fn post_blinds(&mut self)
        requires
            old(self)@.wf(),
            old(self)@.bets_sum() == 0,
            old(self)@.pot == 0,
        ensures
            final(self)@ == (StateV {
                current_bet: BIG_BLIND as nat,
                ..old(self)@.post_blind(((old(self)@.dealer + 1) % 3) as int, SMALL_BLIND as nat).post_blind(
                    ((old(self)@.dealer + 2) % 3) as int,
                    BIG_BLIND as nat,
                )
            }),
            final(self)@.wf(),
            final(self)@.total_chips() == old(self)@.total_chips(),
    {
        let ghost s0 = self@;
        let sb_idx = (self.dealer + 1) % 3;
        let bb_idx = (self.dealer + 2) % 3;
        assert(s0.players[sb_idx as int].bet == 0 && s0.players[bb_idx as int].bet == 0);
        self.post_blind(sb_idx, SMALL_BLIND);
        let ghost s1 = self@;
        assert(s1.players[bb_idx as int] == s0.players[bb_idx as int]);
        self.post_blind(bb_idx, BIG_BLIND);
        let ghost s2 = self@;
        self.current_bet = BIG_BLIND;
        assert(self@ =~= (StateV { current_bet: BIG_BLIND as nat, ..s2 }));
    }

    /// Two hole cards to each seat, one at a time, starting after the
    /// dealer.
    fn deal_hole_cards(&mut self)
        requires
            old(self)@.wf(),
        ensures
            final(self)@ == old(self)@.deal_hole(6),
            final(self)@.dealer == old(self)@.dealer,
            final(self)@.actions_this_round == old(self)@.actions_this_round,
            final(self)@.wf(),
            final(self)@.total_chips() == old(self)@.total_chips(),
    {
        let ghost s2 = self@;
        let mut offset: usize = 1;
        while offset <= 6
            invariant
                1 <= offset <= 7,
                self@ == s2.deal_hole(offset - 1),
                self@.wf(),
                self@.dealer == s2.dealer < 3,
                self@.actions_this_round == s2.actions_this_round,
                self@.total_chips() == s2.total_chips(),
            decreases 7 - offset,
        {
            let p_idx = (self.dealer + offset) % 3;
            self.deal_to(p_idx);
            offset = offset + 1;
        }
    }

    /// Starts a new hand, shuffling with the generator seeded by `seed` (a
    /// zero seed is replaced): seats cleared, blinds posted by the two seats
    /// after the dealer, two hole cards each, the seat after the big blind to
    /// act in the pre-flop round. Chips that were left in the pot are
    /// dropped.
    pub fn start_hand(&mut self, seed: u64)
        requires
            old(self)@.wf(),
        ensures
            final(self)@ == old(self)@.start_spec(seed),
            final(self)@.actions_this_round == 0,
            final(self)@.wf(),
            final(self)@.total_chips() == old(self)@.chips_in_stacks(),
    {
        let mut rng = seed;
        if rng == 0 {
            rng = 0xdeadbeef_cafebabe;
        }
        let mut deck = build_deck();
        assert(deck@ =~= fresh_deck());
        shuffle(&mut deck, &mut rng);
        proof {
            lemma_shuffled_valid(deck@);
        }
        let ghost s0 = self@;
        let ghost sd = deck@;
        self.reset_for_hand(deck);
        let ghost s1 = self@;
        assert(s1.bets_sum() == 0);
        self.post_blinds();
        let ghost s2 = self@;
        self.deal_hole_cards();
        let ghost s3 = self@;
        let bb_idx = (self.dealer + 2) % 3;
        self.current_player = (bb_idx + 1) % 3;
        self.round = Round::PreFlop;
        proof {
            assert(sd == shuffle_spec(fresh_deck(), seed_of(seed)).0);
            assert(s1 == s0.reset_hand(sd));
            assert(s3.dealer == s0.dealer);
            assert(self@ =~= (StateV {
                current_player: ((((s0.dealer + 2) % 3) + 1) % 3) as nat,
                round: Round::PreFlop,
                ..s3
            }));
        }
    }

    /// The moves offered to the human player.
    pub fn available_actions(&self) -> (r: Vec<&'static str>)
        requires
            self@.players.len() == 3,
            self@.current_player < 3,
        ensures
            strs_view(r@) == available_spec(self@),
    {
        let mut actions: Vec<&'static str> = Vec::new();
        if self.is_over || self.current_player != 0 || self.players[0].folded {
            assert(strs_view(actions@) =~= available_spec(self@));
            return actions;
        }
        actions.push("fold");
        if self.players[0].bet >= self.current_bet {
            actions.push("check");
        } else {
            actions.push("call");
        }
        if self.players[0].chips > 0 {
            actions.push("raise");
        }
        assert(strs_view(actions@) =~= available_spec(self@));
        actions
    }
}

} // verus!

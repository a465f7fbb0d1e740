//! Seating at a multiplayer poker table, with the bot-presence rule:
//! no human, no bot; exactly one human, one bot in the first empty seat;
//! two humans or more, no bot. Times are milliseconds since the Unix epoch.
use vstd::prelude::*;
use vstd::string::*;
use crate::text::str_eq;

verus! {

/// Seats at a table by default.
pub const SEATS_PER_LOBBY: usize = 6;

/// The user id under which the bot sits.
pub const BOT_USER_ID: &'static str = "bot:carvalho";

/// The bot's display name.
pub const BOT_DISPLAY_NAME: &'static str = "Bot Carvalho";

/// Who sits in a seat.
#[derive(Debug, Clone, PartialEq, Eq)]
pub enum SeatOccupant {
    Empty,
    Human { user_id: String, sat_at: i64 },
    Bot,
}

/// A seat's occupant as values.
pub enum SeatV {
    Empty,
    Human(Seq<char>, i64),
    Bot,
}

impl View for SeatOccupant {
    type V = SeatV;

    open spec fn view(&self) -> SeatV {
        match self {
            SeatOccupant::Empty => SeatV::Empty,
            SeatOccupant::Human { user_id, sat_at } => SeatV::Human(user_id@, *sat_at),
            SeatOccupant::Bot => SeatV::Bot,
        }
    }
}

/// The seats as values.
pub open spec fn seat_views(s: Seq<SeatOccupant>) -> Seq<SeatV> {
    s.map_values(|o: SeatOccupant| o@)
}

/// A table and its seats.
#[derive(Debug, Clone)]
pub struct PokerLobby {
    pub id: String,
    pub name: String,
    pub seats: Vec<SeatOccupant>,
    /// How many seats the table has.
    pub max_seats: usize,
}

/// Why a seating request was refused.
#[derive(Debug, Clone, Copy, PartialEq, Eq, Structural)]
pub enum LobbyError {
    /// No seat has this index.
    InvalidSeat(usize),
    /// A human sits there already.
    SeatTaken,
    /// The user sits at another seat of this table.
    AlreadySeated,
    /// The user does not sit at this table.
    NotSeated,
}

/// Humans among the seats.
pub open spec fn humans(s: Seq<SeatV>) -> nat
    decreases s.len(),
{
    if s.len() == 0 {
        0
    } else {
        humans(s.drop_last()) + if s.last() is Human {
            1nat
        } else {
            0nat
        }
    }
}

/// Bots among the seats.
pub open spec fn bots(s: Seq<SeatV>) -> nat
    decreases s.len(),
{
    if s.len() == 0 {
        0
    } else {
        bots(s.drop_last()) + if s.last() is Bot {
            1nat
        } else {
            0nat
        }
    }
}

/// Empty seats.
pub open spec fn empties(s: Seq<SeatV>) -> nat
    decreases s.len(),
{
    if s.len() == 0 {
        0
    } else {
        empties(s.drop_last()) + if s.last() is Empty {
            1nat
        } else {
            0nat
        }
    }
}

/// How many bots the rule asks for with `h` humans seated.
pub open spec fn target_bots(h: nat) -> nat {
    if h == 1 {
        1
    } else {
        0
    }
}

/// The seats after the bot rule is enforced: surplus bots leave from the
/// highest seats down (the lowest `target` bots stay); missing bots take the
/// first empty seats; humans stay where they are.
pub open spec fn rebalanced(s: Seq<SeatV>) -> Seq<SeatV> {
    let t = target_bots(humans(s));
    let b = bots(s);
    Seq::new(
        s.len(),
        |i: int|
            if b > t && s[i] is Bot && bots(s.take(i)) >= t {
                SeatV::Empty
            } else if b < t && s[i] is Empty && empties(s.take(i)) < t - b {
                SeatV::Bot
            } else {
                s[i]
            },
    )
}

/// The first seat where human `u` sits.
pub open spec fn seat_of(s: Seq<SeatV>, u: Seq<char>) -> Option<int> {
    if exists|i: int|
        0 <= i < s.len() && is_user(#[trigger] s[i], u) && forall|j: int|
            0 <= j < i ==> !is_user(#[trigger] s[j], u) {
        Some(
            choose|i: int|
                0 <= i < s.len() && is_user(#[trigger] s[i], u) && forall|j: int|
                    0 <= j < i ==> !is_user(#[trigger] s[j], u),
        )
    } else {
        None
    }
}

/// Seat occupant `o` is human `u`.
pub open spec fn is_user(o: SeatV, u: Seq<char>) -> bool {
    o matches SeatV::Human(id, _) && id == u
}

proof fn lemma_counts_step(s: Seq<SeatV>, i: int)
    requires
        0 <= i < s.len(),
    ensures
        humans(s.take(i + 1)) == humans(s.take(i)) + if s[i] is Human {
            1nat
        } else {
            0nat
        },
        bots(s.take(i + 1)) == bots(s.take(i)) + if s[i] is Bot {
            1nat
        } else {
            0nat
        },
        empties(s.take(i + 1)) == empties(s.take(i)) + if s[i] is Empty {
            1nat
        } else {
            0nat
        },
{
    assert(s.take(i + 1).drop_last() =~= s.take(i));
}

proof fn lemma_counts_all(s: Seq<SeatV>)
    ensures
        humans(s.take(s.len() as int)) == humans(s),
        bots(s.take(s.len() as int)) == bots(s),
        empties(s.take(s.len() as int)) == empties(s),
        humans(s.take(0)) == 0,
        bots(s.take(0)) == 0,
        empties(s.take(0)) == 0,
{
    assert(s.take(s.len() as int) =~= s);
}

proof fn lemma_counts_sum(s: Seq<SeatV>)
    ensures
        humans(s) + bots(s) + empties(s) == s.len(),
    decreases s.len(),
{
    if s.len() > 0 {
        lemma_counts_sum(s.drop_last());
    }
}

/// The humans, seat by seat, are the same.
pub open spec fn same_humans(a: Seq<SeatV>, b: Seq<SeatV>) -> bool {
    &&& a.len() == b.len()
    &&& forall|i: int| 0 <= i < a.len() ==> ((#[trigger] a[i] is Human || b[i] is Human) ==> a[i] == b[i])
}

proof fn lemma_same_humans_count(a: Seq<SeatV>, b: Seq<SeatV>)
    requires
        same_humans(a, b),
    ensures
        humans(a) == humans(b),
    decreases a.len(),
{
    if a.len() > 0 {
        let (x, y) = (a.drop_last(), b.drop_last());
        assert forall|i: int| 0 <= i < x.len() && (#[trigger] x[i] is Human || y[i] is Human) implies x[i]
            == y[i] by {
            assert(x[i] == a[i] && y[i] == b[i]);
        }
        lemma_same_humans_count(x, y);
        assert(a.last() == a[a.len() - 1]);
    }
}

impl PokerLobby {
    /// The seats as values.
    pub open spec fn sv(&self) -> Seq<SeatV> {
        seat_views(self.seats@)
    }

    /// The table has as many seats as it says, and at least two.
    pub open spec fn wf(&self) -> bool {
        &&& self.seats@.len() == self.max_seats
        &&& self.max_seats >= 2
    }

    /// The bot-presence rule holds.
    pub open spec fn bot_rule(&self) -> bool {
        bots(self.sv()) == target_bots(humans(self.sv()))
    }

    /// A table of [`SEATS_PER_LOBBY`] empty seats.
    pub fn new(id: &str, name: &str) -> (r: Self)
        ensures
            r.wf(),
            r.bot_rule(),
            r.id@ == id@,
            r.name@ == name@,
            r.max_seats == SEATS_PER_LOBBY,
            forall|i: int| 0 <= i < r.sv().len() ==> #[trigger] r.sv()[i] is Empty,
    {
        Self::with_max_seats(id, name, SEATS_PER_LOBBY)
    }

    /// A table of `max_seats` empty seats, at least two.
    pub fn with_max_seats(id: &str, name: &str, max_seats: usize) -> (r: Self)
        ensures
            r.wf(),
            r.bot_rule(),
            r.id@ == id@,
            r.name@ == name@,
            r.max_seats == if max_seats < 2 {
                2
            } else {
                max_seats
            },
            forall|i: int| 0 <= i < r.sv().len() ==> #[trigger] r.sv()[i] is Empty,
    {
        let max = if max_seats < 2 {
            2
        } else {
            max_seats
        };
        let mut seats: Vec<SeatOccupant> = Vec::new();
        let mut i: usize = 0;
        while i < max
            invariant
                i <= max,
                seats@.len() == i,
                forall|j: int| 0 <= j < i ==> #[trigger] seat_views(seats@)[j] is Empty,
                humans(seat_views(seats@)) == 0,
                bots(seat_views(seats@)) == 0,
            decreases max - i,
        {
            let ghost before = seat_views(seats@);
            let ghost old_seats = seats@;
            seats.push(SeatOccupant::Empty);
            proof {
                assert(seat_views(seats@).drop_last() =~= before);
                assert(seat_views(seats@)[i as int] == SeatV::Empty);
                assert forall|j: int| 0 <= j < i + 1 implies #[trigger] seat_views(seats@)[j] is Empty by {
                    if j < i {
                        assert(seats@[j] == old_seats[j]);
                        assert(before[j] is Empty);
                    }
                }
            }
            i = i + 1;
        }
        PokerLobby { id: id.to_string(), name: name.to_string(), seats, max_seats: max }
    }

    /// How many humans are seated.
    pub fn human_count(&self) -> (r: usize)
        ensures
            r == humans(self.sv()),
    {
        let ghost v = self.sv();
        let mut n: usize = 0;
        let mut i: usize = 0;
        proof {
            lemma_counts_all(v);
        }
        while i < self.seats.len()
            invariant
                v == self.sv(),
                i <= self.seats@.len(),
                n == humans(v.take(i as int)),
                n <= i,
            decreases self.seats@.len() - i,
        {
            proof {
                lemma_counts_step(v, i as int);
            }
            if let SeatOccupant::Human { .. } = &self.seats[i] {
                n = n + 1;
            }
            i = i + 1;
        }
        proof {
            lemma_counts_all(v);
        }
        n
    }

    /// How many bots are seated.
    pub fn bot_count(&self) -> (r: usize)
        ensures
            r == bots(self.sv()),
    {
        let ghost v = self.sv();
        let mut n: usize = 0;
        let mut i: usize = 0;
        proof {
            lemma_counts_all(v);
        }
        while i < self.seats.len()
            invariant
                v == self.sv(),
                i <= self.seats@.len(),
                n == bots(v.take(i as int)),
                n <= i,
            decreases self.seats@.len() - i,
        {
            proof {
                lemma_counts_step(v, i as int);
            }
            if let SeatOccupant::Bot = &self.seats[i] {
                n = n + 1;
            }
            i = i + 1;
        }
        proof {
            lemma_counts_all(v);
        }
        n
    }

    /// The first seat where `user_id` sits.
    fn human_seat(&self, user_id: &str) -> (r: Option<usize>)
        ensures
            match r {
                Some(i) => seat_of(self.sv(), user_id@) == Some(i as int),
                None => seat_of(self.sv(), user_id@) is None,
            },
    {
        let ghost v = self.sv();
        let mut i: usize = 0;
        while i < self.seats.len()
            invariant
                v == self.sv(),
                i <= self.seats@.len(),
                forall|j: int| 0 <= j < i ==> !is_user(#[trigger] v[j], user_id@),
            decreases self.seats@.len() - i,
        {
            let hit = match &self.seats[i] {
                SeatOccupant::Human { user_id: id, .. } => str_eq(id.as_str(), user_id),
                _ => false,
            };
            assert(hit == is_user(v[i as int], user_id@));
            if hit {
                proof {
                    assert(is_user(v[i as int], user_id@));
                    let w = choose|k: int|
                        0 <= k < v.len() && is_user(#[trigger] v[k], user_id@) && forall|j: int|
                            0 <= j < k ==> !is_user(#[trigger] v[j], user_id@);
                    assert(0 <= w < v.len() && is_user(v[w], user_id@) && forall|j: int|
                        0 <= j < w ==> !is_user(#[trigger] v[j], user_id@));
                    if w > i {
                        assert(!is_user(v[i as int], user_id@));
                    }
                }
                return Some(i);
            }
            i = i + 1;
        }
        None
    }

    /// Enforces the bot-presence rule after a human sat down or stood up.
    fn rebalance_bots(&mut self)
        ensures
            final(self).sv() == rebalanced(old(self).sv()),
            final(self).seats@.len() == old(self).seats@.len(),
            final(self).id == old(self).id,
            final(self).name == old(self).name,
            final(self).max_seats == old(self).max_seats,
    {
        let h = self.human_count();
        let b = self.bot_count();
        let t: usize = if h == 1 {
            1
        } else {
            0
        };
        let ghost s = self.sv();
        let ghost rs = rebalanced(s);
        let mut seen_bots: usize = 0;
        let mut seen_empty: usize = 0;
        let mut i: usize = 0;
        proof {
            lemma_counts_all(s);
        }
        while i < self.seats.len()
            invariant
                s == old(self).sv(),
                rs == rebalanced(s),
                self.id == old(self).id,
                self.name == old(self).name,
                self.max_seats == old(self).max_seats,
                h == humans(s),
                b == bots(s),
                t == target_bots(humans(s)),
                i <= s.len(),
                self.seats@.len() == s.len(),
                seen_bots == bots(s.take(i as int)),
                seen_empty == empties(s.take(i as int)),
                seen_bots <= i,
                seen_empty <= i,
                forall|j: int| 0 <= j < i ==> #[trigger] self.sv()[j] == rs[j],
                forall|j: int| i <= j < s.len() ==> #[trigger] self.sv()[j] == s[j],
            decreases s.len() - i,
        {
            proof {
                lemma_counts_step(s, i as int);
            }
            let is_bot = match &self.seats[i] {
                SeatOccupant::Bot => true,
                _ => false,
            };
            let is_empty = match &self.seats[i] {
                SeatOccupant::Empty => true,
                _ => false,
            };
            assert(self.sv()[i as int] == self.seats@[i as int]@);
            assert(is_bot == (s[i as int] is Bot));
            assert(is_empty == (s[i as int] is Empty));
            let ghost prev = self.seats@;
            if b > t && is_bot && seen_bots >= t {
                self.seats.set(i, SeatOccupant::Empty);
            } else if b < t && is_empty && seen_empty < t - b {
                self.seats.set(i, SeatOccupant::Bot);
            }
            proof {
                assert(self.sv()[i as int] == self.seats@[i as int]@);
                assert(self.sv()[i as int] == rs[i as int]);
                assert forall|j: int| 0 <= j < s.len() && j != i implies #[trigger] self.sv()[j]
                    == seat_views(prev)[j] by {
                    assert(self.seats@[j] == prev[j]);
                }
            }
            if is_bot {
                seen_bots = seen_bots + 1;
            }
            if is_empty {
                seen_empty = seen_empty + 1;
            }
            i = i + 1;
        }
        proof {
            assert(self.sv() =~= rs);
        }
    }

    /// Seats `user_id` at `seat` at time `now`, displacing a bot there, then
    /// enforces the bot rule.
    pub fn sit(&mut self, seat: usize, user_id: &str, now: i64) -> (r: Result<(), LobbyError>)
        requires
            old(self).wf(),
        ensures
            final(self).wf(),
            final(self).id == old(self).id,
            final(self).name == old(self).name,
            final(self).max_seats == old(self).max_seats,
            seat >= old(self).max_seats ==> r == Err::<(), LobbyError>(LobbyError::InvalidSeat(seat)),
            seat < old(self).max_seats && seat_of(old(self).sv(), user_id@) is Some ==> r == Err::<
                (),
                LobbyError,
            >(LobbyError::AlreadySeated),
            seat < old(self).max_seats && seat_of(old(self).sv(), user_id@) is None
                && old(self).sv()[seat as int] is Human ==> r == Err::<(), LobbyError>(
                LobbyError::SeatTaken,
            ),
            r is Err ==> final(self).seats@ == old(self).seats@,
            r is Ok ==> {
                &&& seat < old(self).max_seats
                &&& seat_of(old(self).sv(), user_id@) is None
                &&& !(old(self).sv()[seat as int] is Human)
                &&& final(self).sv() == rebalanced(
                    old(self).sv().update(seat as int, SeatV::Human(user_id@, now)),
                )
                &&& final(self).bot_rule()
            },
    {
        if seat >= self.max_seats {
            return Err(LobbyError::InvalidSeat(seat));
        }
        if self.human_seat(user_id).is_some() {
            return Err(LobbyError::AlreadySeated);
        }
        match &self.seats[seat] {
            SeatOccupant::Human { .. } => {
                return Err(LobbyError::SeatTaken);
            },
            _ => {},
        }
        let ghost before = self.sv();
        self.seats.set(seat, SeatOccupant::Human { user_id: user_id.to_string(), sat_at: now });
        proof {
            assert(self.sv() =~= before.update(seat as int, SeatV::Human(user_id@, now)));
        }
        self.rebalance_bots();
        proof {
            lemma_rebalanced_obeys_rule(before.update(seat as int, SeatV::Human(user_id@, now)));
        }
        Ok(())
    }

    /// Frees the seat of `user_id`, then enforces the bot rule.
    pub fn stand(&mut self, user_id: &str) -> (r: Result<(), LobbyError>)
        requires
            old(self).wf(),
        ensures
            final(self).wf(),
            final(self).id == old(self).id,
            final(self).name == old(self).name,
            final(self).max_seats == old(self).max_seats,
            match seat_of(old(self).sv(), user_id@) {
                None => r == Err::<(), LobbyError>(LobbyError::NotSeated) && final(self).seats@
                    == old(self).seats@,
                Some(i) => r is Ok && final(self).sv() == rebalanced(
                    old(self).sv().update(i, SeatV::Empty),
                ) && final(self).bot_rule(),
            },
    {
        match self.human_seat(user_id) {
            None => Err(LobbyError::NotSeated),
            Some(i) => {
                let ghost before = self.sv();
                proof {
                    let v = before;
                    let w = choose|k: int|
                        0 <= k < v.len() && is_user(#[trigger] v[k], user_id@) && forall|j: int|
                            0 <= j < k ==> !is_user(#[trigger] v[j], user_id@);
                    assert(w == i);
                }
                self.seats.set(i, SeatOccupant::Empty);
                proof {
                    assert(self.sv() =~= before.update(i as int, SeatV::Empty));
                }
                self.rebalance_bots();
                proof {
                    lemma_rebalanced_obeys_rule(before.update(i as int, SeatV::Empty));
                }
                Ok(())
            },
        }
    }
}

proof fn lemma_rebalanced_prefix(s: Seq<SeatV>, i: int)
    requires
        0 <= i <= s.len(),
    ensures
        ({
            let r = rebalanced(s);
            let t = target_bots(humans(s));
            let b = bots(s);
            &&& b > t ==> bots(r.take(i)) == if bots(s.take(i)) < t {
                bots(s.take(i))
            } else {
                t
            }
            &&& b < t ==> bots(r.take(i)) == bots(s.take(i)) + if empties(s.take(i)) < t - b {
                empties(s.take(i))
            } else {
                (t - b) as nat
            }
            &&& b == t ==> bots(r.take(i)) == bots(s.take(i))
        }),
    decreases i,
{
    let r = rebalanced(s);
    lemma_counts_all(s);
    lemma_counts_all(r);
    if i > 0 {
        lemma_rebalanced_prefix(s, i - 1);
        lemma_counts_step(s, i - 1);
        lemma_counts_step(r, i - 1);
    }
}

/// Enforcing the rule on two seats or more makes it hold: there are as many
/// bots as the humans ask for, and every human stays in place.
pub proof fn lemma_rebalanced_obeys_rule(s: Seq<SeatV>)
    requires
        s.len() >= 2,
    ensures
        bots(rebalanced(s)) == target_bots(humans(rebalanced(s))),
        same_humans(s, rebalanced(s)),
        humans(rebalanced(s)) == humans(s),
{
    let r = rebalanced(s);
    let t = target_bots(humans(s));
    let b = bots(s);
    assert(same_humans(s, r));
    lemma_same_humans_count(s, r);
    lemma_rebalanced_prefix(s, s.len() as int);
    lemma_counts_all(s);
    lemma_counts_all(r);
    if b < t {
        lemma_counts_sum(s);
        assert(humans(s) == 1);
        assert(empties(s) + b >= 1);
    }
}

} // verus!

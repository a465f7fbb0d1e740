//! Invaders of the core library: the board and rules of the invaders
//! universe, with the aliens marching to the very edge of the canvas and
//! dropping further, shooting on a fixed beat, a slower ship, and the
//! number of lives set by the variant.
use vstd::prelude::*;

use crate::invaders::{
    all_dead, collide, first_hit, kill_listed, player_hit, unlisted,
    alien_ok, alive_count, alive_indices, bullet_ok, end_phase, fire_spec, formation, hit_phase,
    ints, lemma_alive_count_le, lemma_formation, max_int, move_interval,
    moved_bullets, player_y_spec, shift, shifted, Alien, Bullet, InvV, InvadersSession, ALIEN_H,
    ALIEN_SPEED, ALIEN_W, COLS, PLAYER_W, ROWS, W,
};
use crate::core_game::{GameAction, Input};
use crate::poker::cards::xorshift_step;
use crate::pointset::xorshift64;

verus! {

/// Pixels the ship moves per step.
pub const SHIP_STEP: i32 = 4;

/// Pixels the aliens drop when they reach an edge.
pub const DROP: i32 = 16;

/// Ticks between two alien shots.
pub const SHOOT_EVERY: u32 = 72;

/// An alien dropped one step (dead aliens stay).
pub open spec fn ygg_drop_down(a: Alien) -> Alien {
    if a.alive {
        Alien { y: (a.y + DROP) as i32, ..a }
    } else {
        a
    }
}

pub open spec fn ygg_dropped(al: Seq<Alien>) -> Seq<Alien> {
    al.map_values(|a: Alien| ygg_drop_down(a))
}

/// A live alien touching an edge of the canvas.
pub open spec fn edge_hit(a: Alien) -> bool {
    a.alive && (a.x <= 0 || a.x + ALIEN_W >= W)
}

/// A live alien that reached the player's line.
pub open spec fn at_player_line(a: Alien) -> bool {
    a.alive && a.y + ALIEN_H >= player_y_spec()
}

/// The march of a tick: every move interval the live aliens step sideways;
/// at an edge they turn and drop, and the game ends if one reached the
/// player's line. The flag tells whether the game ended.
pub open spec fn march_phase(s: InvV) -> (InvV, bool) {
    let t = s.alien_ticks + 1;
    if t >= move_interval(s.aliens) {
        let moved = shifted(s.aliens, s.alien_dir * ALIEN_SPEED);
        if exists|i: int| 0 <= i < moved.len() && #[trigger] edge_hit(moved[i]) {
            let d = ygg_dropped(moved);
            let s2 = InvV { alien_ticks: 0, aliens: d, alien_dir: -s.alien_dir, ..s };
            if exists|i: int| 0 <= i < d.len() && #[trigger] at_player_line(d[i]) {
                (InvV { is_over: true, ..s2 }, true)
            } else {
                (s2, false)
            }
        } else {
            (InvV { alien_ticks: 0, aliens: moved, ..s }, false)
        }
    } else {
        (InvV { alien_ticks: t, ..s }, false)
    }
}

/// The shooting of a tick: on every beat a live alien, drawn from the
/// generator, fires downwards from its bottom centre.
pub open spec fn beat_phase(s: InvV) -> InvV {
    let t = s.alien_shoot_ticks + 1;
    if t >= SHOOT_EVERY {
        let idx = alive_indices(s.aliens);
        if idx.len() > 0 {
            let r = xorshift_step(s.rng_state);
            let a = s.aliens[idx[(r as usize as int) % (idx.len() as int)]];
            InvV {
                alien_shoot_ticks: 0,
                rng_state: r,
                bullets: s.bullets.push(
                    Bullet {
                        x: (a.x + ALIEN_W / 2) as i32,
                        y: (a.y + ALIEN_H) as i32,
                        vy: 4,
                        alien: true,
                    },
                ),
                ..s
            }
        } else {
            InvV { alien_shoot_ticks: 0, ..s }
        }
    } else {
        InvV { alien_shoot_ticks: t, ..s }
    }
}

/// One tick: bullets move, aliens march, aliens shoot, hits are scored,
/// then the player's hits and the win are checked. The flag tells whether
/// the game ended.
pub open spec fn ygg_tick_spec(s: InvV) -> (InvV, bool) {
    let s1 = InvV { bullets: moved_bullets(s.bullets), ..s };
    let (s2, end) = march_phase(s1);
    if end {
        (s2, true)
    } else {
        end_phase(hit_phase(beat_phase(s2)))
    }
}

/// The alien rules of [`ygg_wf`]: every alien on a column of eight
/// (`x ≡ 6`), within reach of the edges.
pub open spec fn march_wf(s: InvV) -> bool {
    &&& s.aliens.len() == ROWS * COLS
    &&& forall|i: int| 0 <= i < s.aliens.len() ==> alien_ok(#[trigger] s.aliens[i])
    &&& forall|i: int| 0 <= i < s.aliens.len() ==> (#[trigger] s.aliens[i]).x % 8 == 6
    &&& (s.alien_dir == 1 || s.alien_dir == -1)
    &&& s.alien_dir == -1 ==> forall|i: int|
        0 <= i < s.aliens.len() && (#[trigger] s.aliens[i]).alive ==> s.aliens[i].x >= 6
    &&& s.alien_dir == 1 ==> forall|i: int|
        0 <= i < s.aliens.len() && (#[trigger] s.aliens[i]).alive ==> s.aliens[i].x <= 446
    &&& !s.is_over ==> forall|i: int|
        0 <= i < s.aliens.len() && (#[trigger] s.aliens[i]).alive ==> s.aliens[i].y + ALIEN_H
            < player_y_spec()
}

/// What every game keeps between ticks.
pub open spec fn ygg_wf(s: InvV) -> bool {
    &&& march_wf(s)
    &&& forall|i: int| 0 <= i < s.bullets.len() ==> bullet_ok(#[trigger] s.bullets[i])
    &&& 0 <= s.player_x <= W - PLAYER_W
    &&& s.alien_ticks <= 30
    &&& s.alien_shoot_ticks <= SHOOT_EVERY
    &&& s.score + 40 * alive_count(s.aliens) <= 1600
}

proof fn lemma_alive_count_shifted(al: Seq<Alien>, dx: int)
    ensures
        alive_count(shifted(al, dx)) == alive_count(al),
    decreases al.len(),
{
    if al.len() > 0 {
        lemma_alive_count_shifted(al.drop_last(), dx);
        assert(shifted(al, dx).drop_last() =~= shifted(al.drop_last(), dx));
    }
}

proof fn lemma_alive_count_march(al: Seq<Alien>)
    ensures
        alive_count(ygg_dropped(al)) == alive_count(al),
    decreases al.len(),
{
    if al.len() > 0 {
        lemma_alive_count_march(al.drop_last());
        assert(ygg_dropped(al).drop_last() =~= ygg_dropped(al.drop_last()));
    }
}

/// The march keeps the aliens within bounds and on their columns of
/// eight, and turns before crossing an edge by more than a step.
proof fn lemma_march_phase_wf(s: InvV)
    requires
        march_wf(s),
        !s.is_over,
        s.alien_ticks <= 30,
    ensures
        march_wf(march_phase(s).0),
        march_phase(s).0.alien_ticks <= 30,
        march_phase(s).1 == march_phase(s).0.is_over,
        alive_count(march_phase(s).0.aliens) == alive_count(s.aliens),
        march_phase(s).0.bullets == s.bullets,
        march_phase(s).0.score == s.score,
        march_phase(s).0.player_x == s.player_x,
        march_phase(s).0.alien_shoot_ticks == s.alien_shoot_ticks,
        march_phase(s).0.lives == s.lives,
        march_phase(s).0.won == s.won,
        march_phase(s).0.rng_state == s.rng_state,
{
    let t = s.alien_ticks + 1;
    lemma_alive_count_march(s.aliens);
    lemma_alive_count_shifted(s.aliens, s.alien_dir * ALIEN_SPEED);
    lemma_alive_count_le(s.aliens);
    if t >= move_interval(s.aliens) {
        let dx = s.alien_dir * ALIEN_SPEED;
        let moved = shifted(s.aliens, dx);
        lemma_alive_count_march(moved);
        if exists|i: int| 0 <= i < moved.len() && #[trigger] edge_hit(moved[i]) {
            let d = ygg_dropped(moved);
            assert forall|i: int| 0 <= i < d.len() implies alien_ok(#[trigger] d[i]) by {
                assert(alien_ok(s.aliens[i]));
                assert(d[i] == ygg_drop_down(moved[i]));
                assert(moved[i] == shift(s.aliens[i], dx));
            }
            assert forall|i: int| 0 <= i < d.len() implies (#[trigger] d[i]).x % 8 == 6 by {
                assert(alien_ok(s.aliens[i]));
                assert(s.aliens[i].x % 8 == 6);
                assert(d[i] == ygg_drop_down(moved[i]));
                assert(moved[i] == shift(s.aliens[i], dx));
            }
            if !(exists|i: int| 0 <= i < d.len() && #[trigger] at_player_line(d[i])) {
                assert forall|i: int| 0 <= i < d.len() && (#[trigger] d[i]).alive implies d[i].y
                    + ALIEN_H < player_y_spec() by {
                    assert(!at_player_line(d[i]));
                }
            }
            if s.alien_dir == 1 {
                assert forall|i: int| 0 <= i < d.len() && (#[trigger] d[i]).alive implies d[i].x
                    >= 6 by {
                    assert(alien_ok(s.aliens[i]));
                    assert(s.aliens[i].x % 8 == 6);
                    assert(d[i].x % 8 == 6);
                }
            } else {
                assert forall|i: int| 0 <= i < d.len() && (#[trigger] d[i]).alive implies d[i].x
                    <= 446 by {
                    assert(alien_ok(s.aliens[i]));
                    assert(s.aliens[i].x % 8 == 6);
                    assert(d[i].x % 8 == 6);
                }
            }
        } else {
            assert forall|i: int| 0 <= i < moved.len() implies alien_ok(#[trigger] moved[i])
                && moved[i].x % 8 == 6 by {
                assert(alien_ok(s.aliens[i]));
                assert(s.aliens[i].x % 8 == 6);
            }
            assert forall|i: int| 0 <= i < moved.len() && (#[trigger] moved[i]).alive implies 6
                <= moved[i].x <= 446 by {
                assert(!edge_hit(moved[i]));
                assert(moved[i].x % 8 == 6);
            }
        }
    }
}

impl InvadersSession {
    /// The march of a tick (see [`march_phase`]); returns whether the game
    /// ended.
    fn march(&mut self) -> (end: bool)
        requires
            march_wf(old(self)@),
            !old(self)@.is_over,
            old(self)@.alien_ticks <= 30,
        ensures
            (final(self)@, end) == march_phase(old(self)@),
    {
        let ghost s0 = self@;
        self.alien_ticks = self.alien_ticks + 1;
        let interval = self.alien_move_interval();
        if self.alien_ticks < interval {
            return false;
        }
        assert(s0.alien_ticks + 1 >= move_interval(s0.aliens));
        self.alien_ticks = 0;
        let dx = self.alien_dir * ALIEN_SPEED;
        let ghost moved = shifted(s0.aliens, dx as int);
        let mut hit_wall = false;
        let mut i: usize = 0;
        while i < self.aliens.len()
            invariant
                i <= self.aliens@.len() == s0.aliens.len() == ROWS * COLS,
                forall|k: int| 0 <= k < s0.aliens.len() ==> alien_ok(#[trigger] s0.aliens[k]),
                dx == s0.alien_dir * ALIEN_SPEED,
                s0.alien_dir == 1 || s0.alien_dir == -1,
                moved == shifted(s0.aliens, dx as int),
                forall|k: int| 0 <= k < i ==> #[trigger] self.aliens@[k] == moved[k],
                forall|k: int| i <= k < self.aliens@.len() ==> #[trigger] self.aliens@[k] == s0.aliens[k],
                hit_wall == exists|k: int| 0 <= k < i && #[trigger] edge_hit(moved[k]),
                self@ == (InvV { aliens: self.aliens@, alien_ticks: 0, ..s0 }),
            decreases self.aliens@.len() - i,
        {
            if self.aliens[i].alive {
                assert(alien_ok(s0.aliens[i as int]));
                let x = self.aliens[i].x + dx;
                self.aliens[i].x = x;
                if x <= 0 || x + ALIEN_W >= W {
                    hit_wall = true;
                }
            }
            proof {
                assert(self.aliens@[i as int] == moved[i as int]);
                if hit_wall {
                    if !(exists|k: int| 0 <= k < i && #[trigger] edge_hit(moved[k])) {
                        assert(edge_hit(moved[i as int]));
                    }
                }
            }
            i = i + 1;
        }
        assert(self.aliens@ =~= moved);
        if !hit_wall {
            assert(!(exists|q: int| 0 <= q < moved.len() && #[trigger] edge_hit(moved[q])));
            return false;
        }
        self.alien_dir = -self.alien_dir;
        let ghost d = ygg_dropped(moved);
        let mut j: usize = 0;
        while j < self.aliens.len()
            invariant
                j <= self.aliens@.len() == moved.len() == ROWS * COLS,
                forall|k: int| 0 <= k < s0.aliens.len() ==> alien_ok(#[trigger] s0.aliens[k]),
                moved == shifted(s0.aliens, dx as int),
                dx == s0.alien_dir * ALIEN_SPEED,
                d == ygg_dropped(moved),
                forall|k: int| 0 <= k < j ==> #[trigger] self.aliens@[k] == d[k],
                forall|k: int| j <= k < self.aliens@.len() ==> #[trigger] self.aliens@[k] == moved[k],
                self@ == (InvV {
                    aliens: self.aliens@,
                    alien_ticks: 0,
                    alien_dir: -s0.alien_dir,
                    ..s0
                }),
            decreases self.aliens@.len() - j,
        {
            if self.aliens[j].alive {
                assert(alien_ok(s0.aliens[j as int]));
                let y = self.aliens[j].y + DROP;
                self.aliens[j].y = y;
            }
            assert(self.aliens@[j as int] == d[j as int]);
            j = j + 1;
        }
        assert(self.aliens@ =~= d);
        let py = Self::player_y();
        let mut k: usize = 0;
        while k < self.aliens.len()
            invariant
                k <= self.aliens@.len(),
                self.aliens@ == d,
                self@ == (InvV {
                    aliens: self.aliens@,
                    alien_ticks: 0,
                    alien_dir: -s0.alien_dir,
                    ..s0
                }),
                d == ygg_dropped(moved),
                moved == shifted(s0.aliens, s0.alien_dir * ALIEN_SPEED),
                exists|q: int| 0 <= q < moved.len() && #[trigger] edge_hit(moved[q]),
                s0.alien_ticks + 1 >= move_interval(s0.aliens),
                s0 == old(self)@,
                py == player_y_spec(),
                forall|q: int| 0 <= q < k ==> !#[trigger] at_player_line(d[q]),
                forall|q: int| 0 <= q < d.len() ==> -100 <= (#[trigger] d[q]).y <= 1000,
            decreases self.aliens@.len() - k,
        {
            if self.aliens[k].alive && self.aliens[k].y + ALIEN_H >= py {
                assert(at_player_line(d[k as int]));
                self.is_over = true;
                assert(self@ == (InvV {
                    is_over: true,
                    ..(InvV { alien_ticks: 0, aliens: d, alien_dir: -s0.alien_dir, ..s0 })
                }));
                return true;
            }
            k = k + 1;
        }
        false
    }
    /// The shooting of a tick (see [`beat_phase`]).
    fn beat(&mut self)
        requires
            old(self)@.aliens.len() == ROWS * COLS,
            forall|i: int| 0 <= i < old(self)@.aliens.len() ==> alien_ok(#[trigger] old(self)@.aliens[i]),
            old(self)@.alien_shoot_ticks <= SHOOT_EVERY,
        ensures
            final(self)@ == beat_phase(old(self)@),
            final(self)@.alien_shoot_ticks <= SHOOT_EVERY,
            forall|i: int| 0 <= i < old(self)@.bullets.len() ==> bullet_ok(#[trigger] old(self)@.bullets[i])
                ==> true,
            (forall|i: int| 0 <= i < old(self)@.bullets.len() ==> bullet_ok(#[trigger] old(self)@.bullets[i]))
                ==> (forall|i: int| 0 <= i < final(self)@.bullets.len() ==> bullet_ok(#[trigger] final(self)@.bullets[i])),
    {
        let ghost s0 = self@;
        proof {
            lemma_alive_count_le(s0.aliens);
        }
        self.alien_shoot_ticks = self.alien_shoot_ticks + 1;
        if self.alien_shoot_ticks < SHOOT_EVERY {
            assert(self@.bullets == s0.bullets);
            return;
        }
        self.alien_shoot_ticks = 0;
        let mut idx: Vec<usize> = Vec::new();
        let mut i: usize = 0;
        while i < self.aliens.len()
            invariant
                i <= self.aliens@.len(),
                self.aliens@ == s0.aliens,
                ints(idx@) == alive_indices(s0.aliens.take(i as int)),
                forall|k: int| 0 <= k < idx@.len() ==> #[trigger] idx@[k] < i,
            decreases self.aliens@.len() - i,
        {
            assert(s0.aliens.take(i + 1).drop_last() =~= s0.aliens.take(i as int));
            if self.aliens[i].alive {
                idx.push(i);
                assert(ints(idx@) =~= alive_indices(s0.aliens.take(i as int)).push(i as int));
            }
            i = i + 1;
        }
        assert(s0.aliens.take(s0.aliens.len() as int) =~= s0.aliens);
        if idx.len() > 0 {
            let r = xorshift64(&mut self.rng_state);
            let n = idx.len();
            let ai = idx[(r as usize) % n];
            assert(ints(idx@)[((r as usize) % n) as int] == ai as int);
            assert(alien_ok(s0.aliens[ai as int]));
            let bx = self.aliens[ai].x + ALIEN_W / 2;
            let by = self.aliens[ai].y + ALIEN_H;
            let ghost b0 = self.bullets@;
            self.bullets.push(Bullet { x: bx, y: by, vy: 4, alien: true });
            proof {
                assert forall|q: int| 0 <= q < self.bullets@.len() && (forall|i: int|
                    0 <= i < b0.len() ==> bullet_ok(#[trigger] b0[i])) implies bullet_ok(
                    #[trigger] self.bullets@[q],
                ) by {
                    if q < b0.len() {
                        assert(self.bullets@[q] == b0[q]);
                    }
                }
            }
        }
    }

}


proof fn lemma_dead_no_shooters(al: Seq<Alien>)
    requires
        all_dead(al),
    ensures
        alive_indices(al).len() == 0,
    decreases al.len(),
{
    if al.len() > 0 {
        assert(!al[al.len() - 1].alive);
        assert(all_dead(al.drop_last())) by {
            assert forall|i: int| 0 <= i < al.drop_last().len() implies !(#[trigger] al.drop_last()[i]).alive by {
                assert(al.drop_last()[i] == al[i]);
            }
        }
        lemma_dead_no_shooters(al.drop_last());
    }
}

proof fn lemma_dead_no_hit(b: Bullet, al: Seq<Alien>, ka: Seq<int>, j: int)
    requires
        all_dead(al),
    ensures
        first_hit(b, al, ka, j) is None,
    decreases al.len() - j,
{
    if 0 <= j < al.len() {
        assert(!al[j].alive);
        lemma_dead_no_hit(b, al, ka, j + 1);
    }
}

proof fn lemma_dead_collide(bs: Seq<Bullet>, al: Seq<Alien>, n: int)
    requires
        all_dead(al),
    ensures
        collide(bs, al, n) == (Seq::<int>::empty(), Seq::<int>::empty(), 0int),
    decreases n,
{
    if n > 0 {
        lemma_dead_collide(bs, al, n - 1);
        lemma_dead_no_hit(bs[n - 1], al, Seq::<int>::empty(), 0);
    }
}

proof fn lemma_unlisted_none(bs: Seq<Bullet>, n: int)
    requires
        0 <= n <= bs.len(),
    ensures
        unlisted(bs, Seq::<int>::empty(), n) == bs.take(n),
    decreases n,
{
    if n > 0 {
        lemma_unlisted_none(bs, n - 1);
        assert(bs.take(n) =~= bs.take(n - 1) + seq![bs[n - 1]]);
    } else {
        assert(bs.take(0) =~= Seq::<Bullet>::empty());
    }
}

/// What a tick decides: it ends the game exactly when the game is then
/// over; it is won only with no live alien; and with every alien dead and
/// no alien bullet reaching the ship, it is won.
pub proof fn lemma_ygg_tick_outcome(s: InvV)
    requires
        ygg_wf(s),
        !s.is_over,
        !s.won,
    ensures
        ygg_tick_spec(s).1 == ygg_tick_spec(s).0.is_over,
        ygg_tick_spec(s).0.won ==> all_dead(ygg_tick_spec(s).0.aliens),
        all_dead(s.aliens) && !player_hit(moved_bullets(s.bullets), s.player_x) ==> ygg_tick_spec(
            s,
        ).1 && ygg_tick_spec(s).0.won,
{
    let s1 = InvV { bullets: moved_bullets(s.bullets), ..s };
    lemma_march_phase_wf(s1);
    let (s2, end) = march_phase(s1);
    if all_dead(s.aliens) {
        let moved = shifted(s1.aliens, s1.alien_dir * ALIEN_SPEED);
        assert(moved =~= s1.aliens) by {
            assert forall|i: int| 0 <= i < moved.len() implies moved[i] == s1.aliens[i] by {
                assert(!s1.aliens[i].alive);
            }
        }
        assert(!(exists|i: int| 0 <= i < moved.len() && #[trigger] edge_hit(moved[i])));
        assert(s2.aliens == s.aliens);
        assert(!end);
        let s3 = beat_phase(s2);
        lemma_dead_no_shooters(s2.aliens);
        assert(s3.bullets == s2.bullets);
        assert(s3.aliens == s2.aliens);
        lemma_dead_collide(s3.bullets, s3.aliens, s3.bullets.len() as int);
        lemma_unlisted_none(s3.bullets, s3.bullets.len() as int);
        assert(s3.bullets.take(s3.bullets.len() as int) =~= s3.bullets);
        let s4 = hit_phase(s3);
        assert(kill_listed(s3.aliens, Seq::<int>::empty()) =~= s3.aliens);
        assert(s4.aliens == s.aliens);
        assert(s4.bullets == moved_bullets(s.bullets));
    }
}

/// Options of a variant: the lives to start with (three when unset).
#[derive(Debug, Clone, Copy)]
pub struct InvadersOptions {
    pub lives: Option<u32>,
}

impl Default for InvadersOptions {
    fn default() -> (o: Self)
        ensures
            o.lives is None,
    {
        InvadersOptions { lives: None }
    }
}

/// What is drawn of a game.
#[derive(Debug)]
pub struct InvadersRender {
    pub player_x: i32,
    pub bullets: Vec<Bullet>,
    pub aliens: Vec<Alien>,
    pub score: u32,
    pub lives: u32,
    pub game_over: bool,
    pub won: bool,
}

/// A game of the core library's invaders. The session holds the board; a
/// lost game is `is_over` without `won`, a won game both.
pub struct YggInvaders {
    pub game: InvadersSession,
}

/// A new game with `lives` lives: the ship in the middle, the aliens in
/// formation marching right, the generator at 42.
pub open spec fn start_state(lives: nat) -> InvV {
    InvV {
        player_x: (W / 2 - PLAYER_W / 2) as int,
        bullets: Seq::empty(),
        aliens: formation(),
        alien_dir: 1,
        alien_ticks: 0,
        alien_shoot_ticks: 0,
        score: 0,
        lives,
        is_over: false,
        won: false,
        rng_state: 42,
        initialized: true,
    }
}

/// The player's key, before the tick.
pub open spec fn input_step(s: InvV, input: Input) -> InvV {
    match input {
        Input::Left => InvV { player_x: max_int(s.player_x - SHIP_STEP, 0), ..s },
        Input::Right => InvV {
            player_x: if s.player_x + SHIP_STEP <= W - PLAYER_W {
                s.player_x + SHIP_STEP
            } else {
                (W - PLAYER_W) as int
            },
            ..s
        },
        Input::Action => fire_spec(s),
        _ => s,
    }
}

/// One call of `tick`: a finished game stays as it is; `Quit` ends it;
/// otherwise the key, then a tick. The flag tells whether to quit.
pub open spec fn step_spec(s: InvV, input: Input) -> (InvV, bool) {
    if s.is_over {
        (s, true)
    } else if input is Quit {
        (InvV { is_over: true, ..s }, true)
    } else {
        ygg_tick_spec(input_step(s, input))
    }
}

proof fn lemma_formation_columns()
    ensures
        forall|i: int| 0 <= i < formation().len() ==> (#[trigger] formation()[i]).x % 8 == 6,
{
    let f = formation();
    assert forall|i: int| 0 <= i < f.len() implies (#[trigger] f[i]).x % 8 == 6 by {
        let c = i % 10;
        assert(0 <= c < 10);
        assert(f[i].x == 30 + c * 40);
        assert((30 + c * 40) % 8 == 6) by (nonlinear_arith)
            requires
                0 <= c < 10,
        ;
    }
}

impl YggInvaders {
    /// A new game with three lives.
    pub fn new() -> (g: Self)
        ensures
            g.game@ == start_state(3),
            ygg_wf(g.game@),
    {
        Self::with_options(InvadersOptions { lives: None })
    }

    /// A new game with the variant's options.
    pub fn with_options(opts: InvadersOptions) -> (g: Self)
        ensures
            g.game@ == start_state(
                match opts.lives {
                    Some(n) => n as nat,
                    None => 3,
                },
            ),
            ygg_wf(g.game@),
    {
        let lives = match opts.lives {
            Some(n) => n,
            None => 3,
        };
        let mut game = InvadersSession {
            player_x: W / 2 - PLAYER_W / 2,
            bullets: Vec::new(),
            aliens: Vec::new(),
            alien_dir: 1,
            alien_ticks: 0,
            alien_shoot_ticks: 0,
            score: 0,
            lives,
            is_over: false,
            won: false,
            rng_state: 42,
            initialized: true,
        };
        game.spawn_aliens();
        proof {
            lemma_formation();
            lemma_formation_columns();
            assert(game@.bullets =~= Seq::<Bullet>::empty());
        }
        YggInvaders { game }
    }

    /// The score.
    pub fn score(&self) -> (r: u32)
        ensures
            r == self.game.score,
    {
        self.game.score
    }

    /// Whether the game is over, lost or won.
    pub fn is_over(&self) -> (r: bool)
        ensures
            r == self.game.is_over,
    {
        self.game.is_over
    }

    /// How many aliens are alive.
    pub fn alive_count(&self) -> (n: usize)
        ensures
            n == alive_count(self.game.aliens@),
    {
        self.game.alive_count()
    }

    /// What is drawn: the board, and `game_over` for a lost game.
    pub fn render(&self) -> (r: InvadersRender)
        ensures
            r.player_x == self.game.player_x,
            r.bullets@ == self.game.bullets@,
            r.aliens@ == self.game.aliens@,
            r.score == self.game.score,
            r.lives == self.game.lives,
            r.game_over == (self.game.is_over && !self.game.won),
            r.won == self.game.won,
    {
        let bullets = self.game.bullets.clone();
        let aliens = self.game.aliens.clone();
        assert(bullets@ =~= self.game.bullets@);
        assert(aliens@ =~= self.game.aliens@);
        InvadersRender {
            player_x: self.game.player_x,
            bullets,
            aliens,
            score: self.game.score,
            lives: self.game.lives,
            game_over: self.game.is_over && !self.game.won,
            won: self.game.won,
        }
    }

    /// One tick of the game (see [`ygg_tick_spec`]); returns whether the
    /// game ended.
    fn advance_tick(&mut self) -> (end: bool)
        requires
            ygg_wf(old(self).game@),
            !old(self).game@.is_over,
        ensures
            (final(self).game@, end) == ygg_tick_spec(old(self).game@),
            ygg_wf(final(self).game@),
    {
        let ghost s0 = self.game@;
        self.game.move_bullets();
        let ghost s1 = self.game@;
        proof {
            lemma_march_phase_wf(s1);
        }
        if self.game.march() {
            return true;
        }
        let ghost s2 = self.game@;
        self.game.beat();
        let ghost s3 = self.game@;
        proof {
            assert(s3.aliens == s2.aliens);
            assert(s3.score == s2.score);
        }
        self.game.resolve_hits();
        let ghost s4 = self.game@;
        proof {
            assert forall|i: int| 0 <= i < s4.aliens.len() implies alien_ok(#[trigger] s4.aliens[i])
                && s4.aliens[i].x % 8 == 6 by {
                assert(alien_ok(s3.aliens[i]));
                assert(s3.aliens[i].x % 8 == 6);
            }
        }
        self.game.end_checks()
    }

    /// The player's key, then a tick (see [`step_spec`]).
    pub fn tick(&mut self, input: Input) -> (r: GameAction)
        requires
            ygg_wf(old(self).game@),
        ensures
            ygg_wf(final(self).game@),
            (final(self).game@, r is Quit) == step_spec(old(self).game@, input),
    {
        if self.game.is_over {
            return GameAction::Quit;
        }
        match input {
            Input::Quit => {
                self.game.is_over = true;
                return GameAction::Quit;
            },
            Input::Left => {
                let x = self.game.player_x - SHIP_STEP;
                self.game.player_x = if x >= 0 {
                    x
                } else {
                    0
                };
            },
            Input::Right => {
                let x = self.game.player_x + SHIP_STEP;
                self.game.player_x = if x <= W - PLAYER_W {
                    x
                } else {
                    W - PLAYER_W
                };
            },
            Input::Action => {
                self.game.fire();
            },
            _ => {},
        }
        if self.advance_tick() {
            GameAction::Quit
        } else {
            GameAction::Continue
        }
    }
}

} // verus!

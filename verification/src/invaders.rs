//! Space Invaders on a 480 × 480 canvas: four rows of ten aliens march
//! sideways and drop at the walls, the player moves and fires, aliens shoot
//! back; a hit alien scores by its row, a hit player loses a life.
use vstd::prelude::*;

use crate::poker::cards::xorshift_step;
use crate::pointset::xorshift64;
use crate::text::str_eq;

verus! {

pub const W: i32 = 480;

pub const H: i32 = 480;

pub const ROWS: usize = 4;

pub const COLS: usize = 10;

pub const ALIEN_W: i32 = 32;

pub const ALIEN_H: i32 = 24;

pub const ALIEN_GAP: i32 = 8;

pub const PLAYER_W: i32 = 40;

pub const PLAYER_H: i32 = 10;

pub const BULLET_H: i32 = 10;

pub const PLAYER_STEP: i32 = 10;

/// Pixels the aliens move sideways at each move.
pub const ALIEN_SPEED: i32 = 8;

/// Pixels the aliens drop when they reach a wall.
pub const ALIEN_DROP: i32 = 12;

/// The player's row.
pub open spec fn player_y_spec() -> int {
    H - 30
}

/// A bullet; `vy` is its speed per tick, `alien` tells who fired it.
#[derive(Clone, Copy, Debug, PartialEq, Eq, Structural)]
pub struct Bullet {
    pub x: i32,
    pub y: i32,
    pub vy: i32,
    pub alien: bool,
}

/// An alien and its row (0 on top).
#[derive(Clone, Copy, Debug, PartialEq, Eq, Structural)]
pub struct Alien {
    pub x: i32,
    pub y: i32,
    pub alive: bool,
    pub row: usize,
}

/// A game, as values.
pub struct InvV {
    pub player_x: int,
    pub bullets: Seq<Bullet>,
    pub aliens: Seq<Alien>,
    pub alien_dir: int,
    pub alien_ticks: nat,
    pub alien_shoot_ticks: nat,
    pub score: nat,
    pub lives: nat,
    pub is_over: bool,
    pub won: bool,
    pub rng_state: u64,
    pub initialized: bool,
}

// ── Counting aliens ────────────────────────────────────────────────────────

/// How many aliens are alive.
pub open spec fn alive_count(al: Seq<Alien>) -> nat
    decreases al.len(),
{
    if al.len() == 0 {
        0
    } else {
        alive_count(al.drop_last()) + if al.last().alive {
            1nat
        } else {
            0nat
        }
    }
}

/// How many of the 40 aliens are dead.
pub open spec fn killed_count(al: Seq<Alien>) -> int {
    (ROWS * COLS) as int - alive_count(al)
}

pub open spec fn sat_sub(a: int, b: int) -> int {
    if a >= b {
        a - b
    } else {
        0
    }
}

pub open spec fn max_int(a: int, b: int) -> int {
    if a >= b {
        a
    } else {
        b
    }
}

/// Ticks between two moves of the aliens: 20, less as they die, at least 5.
pub open spec fn move_interval(al: Seq<Alien>) -> int {
    max_int(5, sat_sub(20, killed_count(al) / 2))
}

/// Ticks between two alien shots: 30, less as they die, at least 8.
pub open spec fn shoot_interval(al: Seq<Alien>) -> int {
    max_int(8, sat_sub(30, killed_count(al)))
}

pub(crate) proof fn lemma_alive_count_le(al: Seq<Alien>)
    ensures
        alive_count(al) <= al.len(),
    decreases al.len(),
{
    if al.len() > 0 {
        lemma_alive_count_le(al.drop_last());
    }
}

// ── The game ───────────────────────────────────────────────────────────────

/// A bullet one tick later.
pub open spec fn step_bullet(b: Bullet) -> Bullet {
    Bullet { y: (b.y + b.vy) as i32, ..b }
}

/// A bullet still on the canvas (with a margin of one bullet).
pub open spec fn on_screen(b: Bullet) -> bool {
    -BULLET_H < b.y && b.y < H + BULLET_H
}

/// The bullets moved, those off the canvas dropped.
pub open spec fn moved_bullets(bs: Seq<Bullet>) -> Seq<Bullet>
    decreases bs.len(),
{
    if bs.len() == 0 {
        Seq::empty()
    } else {
        moved_bullets(bs.drop_last()) + if on_screen(step_bullet(bs.last())) {
            seq![step_bullet(bs.last())]
        } else {
            Seq::empty()
        }
    }
}

/// An alien moved sideways by `dx` (dead aliens stay).
pub open spec fn shift(a: Alien, dx: int) -> Alien {
    if a.alive {
        Alien { x: (a.x + dx) as i32, ..a }
    } else {
        a
    }
}

/// An alien dropped one step (dead aliens stay).
pub open spec fn drop_down(a: Alien) -> Alien {
    if a.alive {
        Alien { y: (a.y + ALIEN_DROP) as i32, ..a }
    } else {
        a
    }
}

/// A live alien touching a wall.
pub open spec fn at_wall(a: Alien) -> bool {
    a.alive && (a.x < 10 || a.x + ALIEN_W > W - 10)
}

/// A live alien that reached the player's line.
pub open spec fn at_player_line(a: Alien) -> bool {
    a.alive && a.y + ALIEN_H >= player_y_spec()
}

pub open spec fn shifted(al: Seq<Alien>, dx: int) -> Seq<Alien> {
    al.map_values(|a: Alien| shift(a, dx))
}

pub open spec fn dropped(al: Seq<Alien>) -> Seq<Alien> {
    al.map_values(|a: Alien| drop_down(a))
}

/// The positions of the live aliens, in order.
pub open spec fn alive_indices(al: Seq<Alien>) -> Seq<int>
    decreases al.len(),
{
    if al.len() == 0 {
        Seq::empty()
    } else {
        alive_indices(al.drop_last()) + if al.last().alive {
            seq![al.len() - 1]
        } else {
            Seq::empty()
        }
    }
}

/// The bullet's tip is inside the alien's box.
pub open spec fn overlaps(b: Bullet, a: Alien) -> bool {
    b.x >= a.x && b.x <= a.x + ALIEN_W && b.y >= a.y && b.y <= a.y + ALIEN_H
}

/// The first live alien at or after `j`, not already hit (`ka`), that the
/// bullet overlaps.
pub open spec fn first_hit(b: Bullet, al: Seq<Alien>, ka: Seq<int>, j: int) -> Option<int>
    decreases al.len() - j,
{
    if j < 0 || j >= al.len() {
        None
    } else if al[j].alive && !ka.contains(j) && overlaps(b, al[j]) {
        Some(j)
    } else {
        first_hit(b, al, ka, j + 1)
    }
}

/// What `first_hit` finds is a live alien, not already hit, that the
/// bullet overlaps.
pub proof fn lemma_first_hit(b: Bullet, al: Seq<Alien>, ka: Seq<int>, j: int)
    ensures
        first_hit(b, al, ka, j) matches Some(x) ==> j <= x < al.len() && al[x].alive
            && !ka.contains(x) && overlaps(b, al[x]),
    decreases al.len() - j,
{
    if 0 <= j < al.len() && !(al[j].alive && !ka.contains(j) && overlaps(b, al[j])) {
        lemma_first_hit(b, al, ka, j + 1);
    }
}

/// Points for an alien of a row: 40 for the top row down to 10.
pub open spec fn row_points(a: Alien) -> int {
    (ROWS - a.row) * 10
}

/// The hits of the first `n` bullets, in order: the aliens hit, the
/// bullets that hit, and the points won. Each player bullet hits the first
/// live alien it overlaps that no earlier bullet hit.
pub open spec fn collide(bs: Seq<Bullet>, al: Seq<Alien>, n: int) -> (Seq<int>, Seq<int>, int)
    decreases n,
{
    if n <= 0 {
        (Seq::empty(), Seq::empty(), 0)
    } else {
        let (ka, kb, g) = collide(bs, al, n - 1);
        let b = bs[n - 1];
        if b.alien {
            (ka, kb, g)
        } else {
            match first_hit(b, al, ka, 0) {
                Some(ai) => (ka.push(ai), kb.push(n - 1), g + row_points(al[ai])),
                None => (ka, kb, g),
            }
        }
    }
}

/// The aliens with those listed in `ka` dead.
pub open spec fn kill_listed(al: Seq<Alien>, ka: Seq<int>) -> Seq<Alien> {
    Seq::new(
        al.len(),
        |i: int|
            if ka.contains(i) {
                Alien { alive: false, ..al[i] }
            } else {
                al[i]
            },
    )
}

/// The first `n` bullets without those listed in `kb`.
pub open spec fn unlisted(bs: Seq<Bullet>, kb: Seq<int>, n: int) -> Seq<Bullet>
    decreases n,
{
    if n <= 0 {
        Seq::empty()
    } else {
        unlisted(bs, kb, n - 1) + if kb.contains(n - 1) {
            Seq::empty()
        } else {
            seq![bs[n - 1]]
        }
    }
}

/// An alien bullet inside the player's box.
pub open spec fn hits_player(b: Bullet, px: int) -> bool {
    b.alien && b.x >= px && b.x <= px + PLAYER_W && b.y >= player_y_spec() && b.y
        <= player_y_spec() + PLAYER_H
}

/// The bullets that did not hit the player.
pub open spec fn misses(bs: Seq<Bullet>, px: int) -> Seq<Bullet>
    decreases bs.len(),
{
    if bs.len() == 0 {
        Seq::empty()
    } else {
        misses(bs.drop_last(), px) + if hits_player(bs.last(), px) {
            Seq::empty()
        } else {
            seq![bs.last()]
        }
    }
}

/// The alien phase of a tick: every move interval the live aliens step
/// sideways; at a wall they turn and drop, and the game ends if one reached
/// the player's line. The flag tells whether the game ended.
pub open spec fn alien_phase(s: InvV) -> (InvV, bool) {
    let t = s.alien_ticks + 1;
    if t >= move_interval(s.aliens) {
        let moved = shifted(s.aliens, s.alien_dir * ALIEN_SPEED);
        if exists|i: int| 0 <= i < moved.len() && #[trigger] at_wall(moved[i]) {
            let d = dropped(moved);
            let s2 = InvV { alien_ticks: 0, aliens: d, alien_dir: -s.alien_dir, ..s };
            if exists|i: int| 0 <= i < d.len() && #[trigger] at_player_line(d[i]) {
                (InvV { is_over: true, ..s2 }, true)
            } else {
                (s2, false)
            }
        } else {
            (InvV { alien_ticks: 0, aliens: moved, ..s }, false)
        }
    } else {
        (InvV { alien_ticks: t, ..s }, false)
    }
}

/// The shooting phase: every shoot interval a live alien, drawn from the
/// generator, fires downwards from its bottom centre.
pub open spec fn shoot_phase(s: InvV) -> InvV {
    let t = s.alien_shoot_ticks + 1;
    if t >= shoot_interval(s.aliens) {
        let idx = alive_indices(s.aliens);
        if idx.len() > 0 {
            let r = xorshift_step(s.rng_state);
            let a = s.aliens[idx[(r as usize as int) % (idx.len() as int)]];
            InvV {
                alien_shoot_ticks: 0,
                rng_state: r,
                bullets: s.bullets.push(
                    Bullet {
                        x: (a.x + ALIEN_W / 2) as i32,
                        y: (a.y + ALIEN_H) as i32,
                        vy: 3,
                        alien: true,
                    },
                ),
                ..s
            }
        } else {
            InvV { alien_shoot_ticks: 0, ..s }
        }
    } else {
        InvV { alien_shoot_ticks: t, ..s }
    }
}

/// The hit phase: aliens hit by player bullets die and score; those
/// bullets are spent.
pub open spec fn hit_phase(s: InvV) -> InvV {
    let (ka, kb, g) = collide(s.bullets, s.aliens, s.bullets.len() as int);
    InvV {
        aliens: kill_listed(s.aliens, ka),
        score: (s.score + g) as nat,
        bullets: unlisted(s.bullets, kb, s.bullets.len() as int),
        ..s
    }
}

/// Some alien bullet is inside the player's box.
pub open spec fn player_hit(bs: Seq<Bullet>, px: int) -> bool {
    exists|i: int| 0 <= i < bs.len() && #[trigger] hits_player(bs[i], px)
}

/// No alien is alive.
pub open spec fn all_dead(al: Seq<Alien>) -> bool {
    forall|i: int| 0 <= i < al.len() ==> !(#[trigger] al[i]).alive
}

/// The end of a tick: alien bullets in the player's box are spent and cost
/// a life (the game ends at none left); the game is won when no alien is
/// alive.
pub open spec fn end_phase(s: InvV) -> (InvV, bool) {
    let hit = player_hit(s.bullets, s.player_x);
    let s1 = InvV { bullets: misses(s.bullets, s.player_x), ..s };
    let s2 = if hit {
        InvV { lives: sat_sub(s.lives as int, 1) as nat, ..s1 }
    } else {
        s1
    };
    if hit && s2.lives == 0 {
        (InvV { is_over: true, ..s2 }, true)
    } else if all_dead(s.aliens) {
        (InvV { won: true, is_over: true, ..s2 }, true)
    } else {
        (s2, false)
    }
}

/// One tick: bullets move, aliens move, aliens shoot, hits are scored, then
/// the player's hits and the win are checked. The flag tells whether the
/// game ended.
pub open spec fn tick_spec(s: InvV) -> (InvV, bool) {
    let s1 = InvV { bullets: moved_bullets(s.bullets), ..s };
    let (s2, end) = alien_phase(s1);
    if end {
        (s2, true)
    } else {
        end_phase(hit_phase(shoot_phase(s2)))
    }
}


// ── Invariant ──────────────────────────────────────────────────────────────

/// A bullet between ticks: on the canvas, moving at a known speed (the
/// player's upwards, an alien's downwards at 3 or 4).
pub open spec fn bullet_ok(b: Bullet) -> bool {
    &&& -BULLET_H < b.y < H + BULLET_H
    &&& (b.vy == -8 || b.vy == 3 || b.vy == 4)
    &&& 0 <= b.x <= W
}

/// An alien within the bounds its moves can reach.
pub open spec fn alien_ok(a: Alien) -> bool {
    -6 <= a.x <= 454 && 0 <= a.y <= 450 && a.row < ROWS
}

/// What every game keeps between ticks: forty aliens within reach of the
/// walls (the march never crosses a wall by more than one step), bullets on
/// the canvas, the player inside it, and a score that can grow by at most
/// 40 per live alien.
pub open spec fn wf(s: InvV) -> bool {
    &&& s.aliens.len() == ROWS * COLS
    &&& forall|i: int| 0 <= i < s.aliens.len() ==> alien_ok(#[trigger] s.aliens[i])
    &&& forall|i: int| 0 <= i < s.bullets.len() ==> bullet_ok(#[trigger] s.bullets[i])
    &&& (s.alien_dir == 1 || s.alien_dir == -1)
    &&& s.alien_dir == -1 ==> forall|i: int|
        0 <= i < s.aliens.len() && (#[trigger] s.aliens[i]).alive ==> s.aliens[i].x >= 2
    &&& s.alien_dir == 1 ==> forall|i: int|
        0 <= i < s.aliens.len() && (#[trigger] s.aliens[i]).alive ==> s.aliens[i].x <= 446
    &&& !s.is_over ==> forall|i: int|
        0 <= i < s.aliens.len() && (#[trigger] s.aliens[i]).alive ==> s.aliens[i].y + ALIEN_H
            < player_y_spec()
    &&& 0 <= s.player_x <= W - PLAYER_W
    &&& s.alien_ticks <= 30
    &&& s.alien_shoot_ticks <= 30
    &&& s.score + 40 * alive_count(s.aliens) <= 1600
}

/// A game of invaders.
#[derive(Debug)]
pub struct InvadersSession {
    pub player_x: i32,
    pub bullets: Vec<Bullet>,
    pub aliens: Vec<Alien>,
    pub alien_dir: i32,
    pub alien_ticks: u32,
    pub alien_shoot_ticks: u32,
    pub score: u32,
    pub lives: u32,
    pub is_over: bool,
    pub won: bool,
    pub rng_state: u64,
    pub initialized: bool,
}

impl View for InvadersSession {
    type V = InvV;

    open spec fn view(&self) -> InvV {
        InvV {
            player_x: self.player_x as int,
            bullets: self.bullets@,
            aliens: self.aliens@,
            alien_dir: self.alien_dir as int,
            alien_ticks: self.alien_ticks as nat,
            alien_shoot_ticks: self.alien_shoot_ticks as nat,
            score: self.score as nat,
            lives: self.lives as nat,
            is_over: self.is_over,
            won: self.won,
            rng_state: self.rng_state,
            initialized: self.initialized,
        }
    }
}

/// The starting formation: row `r`, column `c` at (30 + 40c, 50 + 32r).
pub open spec fn formation() -> Seq<Alien> {
    Seq::new(
        (ROWS * COLS) as nat,
        |i: int|
            Alien {
                x: (30 + (i % 10) * (ALIEN_W + ALIEN_GAP)) as i32,
                y: (50 + (i / 10) * (ALIEN_H + ALIEN_GAP)) as i32,
                alive: true,
                row: (i / 10) as usize,
            },
    )
}

impl Default for InvadersSession {
    /// A game not yet started: no aliens, three lives.
    fn default() -> (s: Self)
        ensures
            s@.player_x == 0,
            s@.bullets.len() == 0,
            s@.aliens.len() == 0,
            s@.alien_dir == 1,
            s@.alien_ticks == 0,
            s@.alien_shoot_ticks == 0,
            s@.score == 0,
            s@.lives == 3,
            !s@.is_over,
            !s@.won,
            s@.rng_state == 0,
            !s@.initialized,
    {
        InvadersSession {
            player_x: 0,
            bullets: Vec::new(),
            aliens: Vec::new(),
            alien_dir: 1,
            alien_ticks: 0,
            alien_shoot_ticks: 0,
            score: 0,
            lives: 3,
            is_over: false,
            won: false,
            rng_state: 0,
            initialized: false,
        }
    }
}

impl InvadersSession {
    /// The player's row.
    pub fn player_y() -> (y: i32)
        ensures
            y == player_y_spec(),
    {
        H - 30
    }

    /// Lays out the forty aliens in their starting formation.
    pub fn spawn_aliens(&mut self)
        ensures
            final(self)@ == (InvV { aliens: formation(), ..old(self)@ }),
    {
        let ghost s0 = self@;
        self.aliens = Vec::new();
        let mut r: usize = 0;
        while r < ROWS
            invariant
                r <= ROWS,
                self.aliens@ == formation().take(r * 10),
                self@ == (InvV { aliens: self.aliens@, ..s0 }),
            decreases ROWS - r,
        {
            let mut c: usize = 0;
            while c < COLS
                invariant
                    r < ROWS,
                    c <= COLS,
                    self.aliens@ == formation().take(r * 10 + c),
                    self@ == (InvV { aliens: self.aliens@, ..s0 }),
                decreases COLS - c,
            {
                let cx = (c * 40) as i32;
                let ry = (r * 32) as i32;
                let a = Alien { x: 30 + cx, y: 50 + ry, alive: true, row: r };
                proof {
                    let k = r * 10 + c;
                    assert(k % 10 == c && k / 10 == r) by (nonlinear_arith)
                        requires
                            k == r * 10 + c,
                            c < 10,
                    ;
                    assert(formation()[k as int] == a);
                }
                self.aliens.push(a);
                assert(self.aliens@ =~= formation().take(r * 10 + c + 1));
                c = c + 1;
            }
            r = r + 1;
        }
        assert(self.aliens@ =~= formation());
    }

    /// Starts the game: the generator seeded by `seed` (zero is replaced),
    /// the player in the middle, the aliens in formation.
    pub fn init(&mut self, seed: u64)
        ensures
            final(self)@ == (InvV {
                rng_state: if seed == 0 {
                    0xdeadbeef_cafebabe
                } else {
                    seed
                },
                player_x: (W / 2 - PLAYER_W / 2) as int,
                aliens: formation(),
                initialized: true,
                ..old(self)@
            }),
    {
        self.rng_state = if seed == 0 {
            0xdeadbeef_cafebabe
        } else {
            seed
        };
        self.player_x = W / 2 - PLAYER_W / 2;
        self.spawn_aliens();
        self.initialized = true;
    }

    /// How many aliens are alive.
    pub fn alive_count(&self) -> (n: usize)
        ensures
            n == alive_count(self.aliens@),
    {
        let mut n: usize = 0;
        let mut i: usize = 0;
        while i < self.aliens.len()
            invariant
                i <= self.aliens@.len(),
                n == alive_count(self.aliens@.take(i as int)),
                n <= i,
            decreases self.aliens@.len() - i,
        {
            assert(self.aliens@.take(i + 1).drop_last() =~= self.aliens@.take(i as int));
            if self.aliens[i].alive {
                n = n + 1;
            }
            i = i + 1;
        }
        assert(self.aliens@.take(self.aliens@.len() as int) =~= self.aliens@);
        n
    }

    fn killed_count(&self) -> (k: u32)
        requires
            self.aliens@.len() == ROWS * COLS,
        ensures
            k == killed_count(self.aliens@),
    {
        proof {
            lemma_alive_count_le(self.aliens@);
        }
        (ROWS * COLS - self.alive_count()) as u32
    }

    /// Ticks between two moves of the aliens.
    pub fn alien_move_interval(&self) -> (r: u32)
        requires
            self.aliens@.len() == ROWS * COLS,
        ensures
            r == move_interval(self.aliens@),
    {
        let k = self.killed_count();
        let half = k / 2;
        let t = if half >= 20 {
            0
        } else {
            20 - half
        };
        if t >= 5 {
            t
        } else {
            5
        }
    }

    /// Ticks between two alien shots.
    pub fn alien_shoot_interval(&self) -> (r: u32)
        requires
            self.aliens@.len() == ROWS * COLS,
        ensures
            r == shoot_interval(self.aliens@),
    {
        let k = self.killed_count();
        let t = if k >= 30 {
            0
        } else {
            30 - k
        };
        if t >= 8 {
            t
        } else {
            8
        }
    }

    /// The player steps left, stopping at the wall.
    pub fn move_left(&mut self)
        requires
            old(self)@.player_x >= i32::MIN + PLAYER_STEP,
        ensures
            final(self)@ == (InvV {
                player_x: max_int(old(self)@.player_x - PLAYER_STEP, 0),
                ..old(self)@
            }),
    {
        let x = self.player_x - PLAYER_STEP;
        self.player_x = if x >= 0 {
            x
        } else {
            0
        };
    }

    /// The player steps right, stopping at the wall.
    pub fn move_right(&mut self)
        requires
            old(self)@.player_x <= i32::MAX - PLAYER_STEP,
        ensures
            final(self)@ == (InvV {
                player_x: if old(self)@.player_x + PLAYER_STEP <= W - PLAYER_W {
                    old(self)@.player_x + PLAYER_STEP
                } else {
                    (W - PLAYER_W) as int
                },
                ..old(self)@
            }),
    {
        let x = self.player_x + PLAYER_STEP;
        self.player_x = if x <= W - PLAYER_W {
            x
        } else {
            W - PLAYER_W
        };
    }

    /// How many of the bullets are the player's.
    pub(crate) fn player_bullets(&self) -> (n: usize)
        ensures
            n == player_bullet_count(self.bullets@),
    {
        let mut n: usize = 0;
        let mut i: usize = 0;
        while i < self.bullets.len()
            invariant
                i <= self.bullets@.len(),
                n == player_bullet_count(self.bullets@.take(i as int)),
                n <= i,
            decreases self.bullets@.len() - i,
        {
            assert(self.bullets@.take(i + 1).drop_last() =~= self.bullets@.take(i as int));
            if !self.bullets[i].alien {
                n = n + 1;
            }
            i = i + 1;
        }
        assert(self.bullets@.take(self.bullets@.len() as int) =~= self.bullets@);
        n
    }

    /// The player fires from the centre of the ship, unless three of the
    /// player's bullets are already flying.
    pub fn fire(&mut self)
        requires
            old(self)@.player_x + PLAYER_W / 2 <= i32::MAX,
        ensures
            final(self)@ == fire_spec(old(self)@),
    {
        if self.player_bullets() >= 3 {
            return;
        }
        let b = Bullet {
            x: self.player_x + PLAYER_W / 2,
            y: Self::player_y() - BULLET_H,
            vy: -8,
            alien: false,
        };
        self.bullets.push(b);
    }

    /// Moves every bullet and drops those that left the canvas.
    pub(crate) fn move_bullets(&mut self)
        requires
            forall|i: int| 0 <= i < old(self)@.bullets.len() ==> bullet_ok(#[trigger] old(self)@.bullets[i]),
        ensures
            final(self)@ == (InvV { bullets: moved_bullets(old(self)@.bullets), ..old(self)@ }),
            forall|i: int| 0 <= i < final(self)@.bullets.len() ==> bullet_ok(#[trigger] final(self)@.bullets[i]),
    {
        let ghost bs = self.bullets@;
        assert forall|k: int| 0 <= k < bs.len() implies bullet_ok(#[trigger] bs[k]) by {
            assert(bs[k] == old(self)@.bullets[k]);
        }
        let mut out: Vec<Bullet> = Vec::new();
        let mut i: usize = 0;
        while i < self.bullets.len()
            invariant
                bs == self.bullets@,
                i <= bs.len(),
                forall|k: int| 0 <= k < bs.len() ==> bullet_ok(#[trigger] bs[k]),
                out@ == moved_bullets(bs.take(i as int)),
                forall|k: int| 0 <= k < out@.len() ==> bullet_ok(#[trigger] out@[k]),
            decreases bs.len() - i,
        {
            let b = self.bullets[i];
            assert(bullet_ok(bs[i as int]));
            let nb = Bullet { y: b.y + b.vy, ..b };
            assert(bs.take(i + 1).drop_last() =~= bs.take(i as int));
            assert(bs.take(i + 1).last() == b);
            if nb.y > -BULLET_H && nb.y < H + BULLET_H {
                out.push(nb);
            }
            i = i + 1;
        }
        assert(bs.take(bs.len() as int) =~= bs);
        self.bullets = out;
    }
}

/// How many bullets are the player's.
pub open spec fn player_bullet_count(bs: Seq<Bullet>) -> nat
    decreases bs.len(),
{
    if bs.len() == 0 {
        0
    } else {
        player_bullet_count(bs.drop_last()) + if !bs.last().alien {
            1nat
        } else {
            0nat
        }
    }
}

/// Firing: a bullet from the ship's centre moving up, unless the player has
/// three bullets flying.
pub open spec fn fire_spec(s: InvV) -> InvV {
    if player_bullet_count(s.bullets) >= 3 {
        s
    } else {
        InvV {
            bullets: s.bullets.push(
                Bullet {
                    x: (s.player_x + PLAYER_W / 2) as i32,
                    y: (player_y_spec() - BULLET_H) as i32,
                    vy: -8i32,
                    alien: false,
                },
            ),
            ..s
        }
    }
}


/// The alien rules of [`wf`].
pub open spec fn aliens_wf(s: InvV) -> bool {
    &&& s.aliens.len() == ROWS * COLS
    &&& forall|i: int| 0 <= i < s.aliens.len() ==> alien_ok(#[trigger] s.aliens[i])
    &&& (s.alien_dir == 1 || s.alien_dir == -1)
    &&& s.alien_dir == -1 ==> forall|i: int|
        0 <= i < s.aliens.len() && (#[trigger] s.aliens[i]).alive ==> s.aliens[i].x >= 2
    &&& s.alien_dir == 1 ==> forall|i: int|
        0 <= i < s.aliens.len() && (#[trigger] s.aliens[i]).alive ==> s.aliens[i].x <= 446
    &&& !s.is_over ==> forall|i: int|
        0 <= i < s.aliens.len() && (#[trigger] s.aliens[i]).alive ==> s.aliens[i].y + ALIEN_H
            < player_y_spec()
}

proof fn lemma_alive_count_shift(al: Seq<Alien>, dx: int)
    ensures
        alive_count(shifted(al, dx)) == alive_count(al),
        alive_count(dropped(al)) == alive_count(al),
    decreases al.len(),
{
    if al.len() > 0 {
        lemma_alive_count_shift(al.drop_last(), dx);
        assert(shifted(al, dx).drop_last() =~= shifted(al.drop_last(), dx));
        assert(dropped(al).drop_last() =~= dropped(al.drop_last()));
    }
}

/// The alien phase keeps the aliens within bounds, and the march turns
/// before crossing a wall by more than a step.
proof fn lemma_alien_phase_wf(s: InvV)
    requires
        aliens_wf(s),
        !s.is_over,
        s.alien_ticks <= 30,
    ensures
        aliens_wf(alien_phase(s).0),
        alien_phase(s).0.alien_ticks <= 30,
        alien_phase(s).1 == alien_phase(s).0.is_over,
        alive_count(alien_phase(s).0.aliens) == alive_count(s.aliens),
        alien_phase(s).0.bullets == s.bullets,
        alien_phase(s).0.score == s.score,
        alien_phase(s).0.player_x == s.player_x,
        alien_phase(s).0.alien_shoot_ticks == s.alien_shoot_ticks,
        alien_phase(s).0.lives == s.lives,
        alien_phase(s).0.won == s.won,
        alien_phase(s).0.rng_state == s.rng_state,
{
    let t = s.alien_ticks + 1;
    lemma_alive_count_shift(s.aliens, s.alien_dir * ALIEN_SPEED);
    lemma_alive_count_le(s.aliens);
    if t >= move_interval(s.aliens) {
        let dx = s.alien_dir * ALIEN_SPEED;
        let moved = shifted(s.aliens, dx);
        lemma_alive_count_shift(moved, 0);
        if exists|i: int| 0 <= i < moved.len() && #[trigger] at_wall(moved[i]) {
            let d = dropped(moved);
            assert forall|i: int| 0 <= i < d.len() implies alien_ok(#[trigger] d[i]) by {
                assert(alien_ok(s.aliens[i]));
                assert(d[i] == drop_down(moved[i]));
                assert(moved[i] == shift(s.aliens[i], dx));
            }
            if !(exists|i: int| 0 <= i < d.len() && #[trigger] at_player_line(d[i])) {
                assert forall|i: int| 0 <= i < d.len() && (#[trigger] d[i]).alive implies d[i].y
                    + ALIEN_H < player_y_spec() by {
                    assert(!at_player_line(d[i]));
                }
            }
            if s.alien_dir == 1 {
                assert forall|i: int| 0 <= i < d.len() && (#[trigger] d[i]).alive implies d[i].x
                    >= 2 by {
                    assert(alien_ok(s.aliens[i]));
                }
            } else {
                assert forall|i: int| 0 <= i < d.len() && (#[trigger] d[i]).alive implies d[i].x
                    <= 446 by {
                    assert(alien_ok(s.aliens[i]));
                }
            }
        } else {
            assert forall|i: int| 0 <= i < moved.len() implies alien_ok(#[trigger] moved[i]) by {
                assert(alien_ok(s.aliens[i]));
            }
            assert forall|i: int| 0 <= i < moved.len() && (#[trigger] moved[i]).alive implies 2
                <= moved[i].x <= 446 by {
                assert(!at_wall(moved[i]));
            }
        }
    }
}

impl InvadersSession {
    /// The alien phase of a tick; returns whether the game ended.
    fn move_aliens(&mut self) -> (end: bool)
        requires
            aliens_wf(old(self)@),
            !old(self)@.is_over,
            old(self)@.alien_ticks <= 30,
        ensures
            (final(self)@, end) == alien_phase(old(self)@),
    {
        let ghost s0 = self@;
        self.alien_ticks = self.alien_ticks + 1;
        let interval = self.alien_move_interval();
        if self.alien_ticks < interval {
            return false;
        }
        assert(s0.alien_ticks + 1 >= move_interval(s0.aliens));
        self.alien_ticks = 0;
        let dx = self.alien_dir * ALIEN_SPEED;
        let ghost moved = shifted(s0.aliens, dx as int);
        let mut hit_wall = false;
        let mut i: usize = 0;
        while i < self.aliens.len()
            invariant
                i <= self.aliens@.len() == s0.aliens.len() == ROWS * COLS,
                forall|k: int| 0 <= k < s0.aliens.len() ==> alien_ok(#[trigger] s0.aliens[k]),
                dx == s0.alien_dir * ALIEN_SPEED,
                s0.alien_dir == 1 || s0.alien_dir == -1,
                moved == shifted(s0.aliens, dx as int),
                forall|k: int| 0 <= k < i ==> #[trigger] self.aliens@[k] == moved[k],
                forall|k: int| i <= k < self.aliens@.len() ==> #[trigger] self.aliens@[k] == s0.aliens[k],
                hit_wall == exists|k: int| 0 <= k < i && #[trigger] at_wall(moved[k]),
                self@ == (InvV { aliens: self.aliens@, alien_ticks: 0, ..s0 }),
            decreases self.aliens@.len() - i,
        {
            if self.aliens[i].alive {
                assert(alien_ok(s0.aliens[i as int]));
                let x = self.aliens[i].x + dx;
                self.aliens[i].x = x;
                if x < 10 || x + ALIEN_W > W - 10 {
                    hit_wall = true;
                }
            }
            proof {
                assert(self.aliens@[i as int] == moved[i as int]);
                if hit_wall {
                    if !(exists|k: int| 0 <= k < i && #[trigger] at_wall(moved[k])) {
                        assert(at_wall(moved[i as int]));
                    }
                }
            }
            i = i + 1;
        }
        assert(self.aliens@ =~= moved);
        if !hit_wall {
            assert(!(exists|q: int| 0 <= q < moved.len() && #[trigger] at_wall(moved[q])));
            return false;
        }
        self.alien_dir = -self.alien_dir;
        let ghost d = dropped(moved);
        let mut j: usize = 0;
        while j < self.aliens.len()
            invariant
                j <= self.aliens@.len() == moved.len() == ROWS * COLS,
                forall|k: int| 0 <= k < s0.aliens.len() ==> alien_ok(#[trigger] s0.aliens[k]),
                moved == shifted(s0.aliens, dx as int),
                dx == s0.alien_dir * ALIEN_SPEED,
                d == dropped(moved),
                forall|k: int| 0 <= k < j ==> #[trigger] self.aliens@[k] == d[k],
                forall|k: int| j <= k < self.aliens@.len() ==> #[trigger] self.aliens@[k] == moved[k],
                self@ == (InvV {
                    aliens: self.aliens@,
                    alien_ticks: 0,
                    alien_dir: -s0.alien_dir,
                    ..s0
                }),
            decreases self.aliens@.len() - j,
        {
            if self.aliens[j].alive {
                assert(alien_ok(s0.aliens[j as int]));
                let y = self.aliens[j].y + ALIEN_DROP;
                self.aliens[j].y = y;
            }
            assert(self.aliens@[j as int] == d[j as int]);
            j = j + 1;
        }
        assert(self.aliens@ =~= d);
        let py = Self::player_y();
        let mut k: usize = 0;
        while k < self.aliens.len()
            invariant
                k <= self.aliens@.len(),
                self.aliens@ == d,
                self@ == (InvV {
                    aliens: self.aliens@,
                    alien_ticks: 0,
                    alien_dir: -s0.alien_dir,
                    ..s0
                }),
                d == dropped(moved),
                moved == shifted(s0.aliens, s0.alien_dir * ALIEN_SPEED),
                exists|q: int| 0 <= q < moved.len() && #[trigger] at_wall(moved[q]),
                s0.alien_ticks + 1 >= move_interval(s0.aliens),
                s0 == old(self)@,
                py == player_y_spec(),
                forall|q: int| 0 <= q < k ==> !#[trigger] at_player_line(d[q]),
                forall|q: int| 0 <= q < d.len() ==> -100 <= (#[trigger] d[q]).y <= 1000,
            decreases self.aliens@.len() - k,
        {
            if self.aliens[k].alive && self.aliens[k].y + ALIEN_H >= py {
                assert(at_player_line(d[k as int]));
                self.is_over = true;
                assert(self@ == (InvV {
                    is_over: true,
                    ..(InvV { alien_ticks: 0, aliens: d, alien_dir: -s0.alien_dir, ..s0 })
                }));
                return true;
            }
            k = k + 1;
        }
        false
    }
}


/// Aliens listed in `ka`, all alive and listed once, are that many fewer
/// alive once killed.
pub proof fn lemma_kill_count(al: Seq<Alien>, ka: Seq<int>)
    requires
        ka.no_duplicates(),
        forall|k: int| 0 <= k < ka.len() ==> 0 <= #[trigger] ka[k] < al.len() && al[ka[k]].alive,
    ensures
        alive_count(kill_listed(al, ka)) + ka.len() == alive_count(al),
    decreases ka.len(),
{
    if ka.len() > 0 {
        let init = ka.drop_last();
        let x = ka.last();
        assert forall|k: int| 0 <= k < init.len() implies 0 <= #[trigger] init[k] < al.len()
            && al[init[k]].alive by {
            assert(init[k] == ka[k]);
        }
        assert(init.no_duplicates()) by {
            assert forall|i: int, j: int| 0 <= i < init.len() && 0 <= j < init.len() && i != j implies init[i] != init[j] by {
                assert(init[i] == ka[i] && init[j] == ka[j]);
            }
        }
        lemma_kill_count(al, init);
        let before = kill_listed(al, init);
        assert(!init.contains(x)) by {
            if init.contains(x) {
                let i = choose|i: int| 0 <= i < init.len() && init[i] == x;
                assert(ka[i] == ka[ka.len() - 1]);
            }
        }
        assert(ka[ka.len() - 1] == x);
        assert(kill_listed(al, ka) =~= before.update(x, Alien { alive: false, ..before[x] })) by {
            assert forall|i: int| 0 <= i < al.len() implies ka.contains(i) == (init.contains(i)
                || i == x) by {
                if ka.contains(i) && i != x {
                    let j = choose|j: int| 0 <= j < ka.len() && ka[j] == i;
                    assert(j < ka.len() - 1);
                    assert(init[j] == i);
                }
                if init.contains(i) {
                    let j = choose|j: int| 0 <= j < init.len() && init[j] == i;
                    assert(ka[j] == i);
                }
            }
        }
        lemma_alive_count_kill_one(before, x);
    } else {
        assert(kill_listed(al, ka) =~= al);
    }
}

proof fn lemma_alive_count_kill_one(al: Seq<Alien>, x: int)
    requires
        0 <= x < al.len(),
        al[x].alive,
    ensures
        alive_count(al.update(x, Alien { alive: false, ..al[x] })) + 1 == alive_count(al),
    decreases al.len(),
{
    let t = al.update(x, Alien { alive: false, ..al[x] });
    if x < al.len() - 1 {
        assert(t.drop_last() =~= al.drop_last().update(x, Alien { alive: false, ..al[x] }));
        lemma_alive_count_kill_one(al.drop_last(), x);
    } else {
        assert(t.drop_last() =~= al.drop_last());
    }
}

pub open spec fn ints(v: Seq<usize>) -> Seq<int> {
    v.map_values(|x: usize| x as int)
}

/// Whether `x` is listed in `v`.
fn listed(v: &Vec<usize>, x: usize) -> (r: bool)
    ensures
        r == ints(v@).contains(x as int),
{
    let mut i: usize = 0;
    while i < v.len()
        invariant
            i <= v@.len(),
            forall|k: int| 0 <= k < i ==> v@[k] != x,
        decreases v@.len() - i,
    {
        if v[i] == x {
            assert(ints(v@)[i as int] == x as int);
            return true;
        }
        i = i + 1;
    }
    proof {
        if ints(v@).contains(x as int) {
            let k = choose|k: int| 0 <= k < ints(v@).len() && ints(v@)[k] == x as int;
            assert(v@[k] == x);
        }
    }
    false
}

impl InvadersSession {
    /// The shooting phase of a tick.
    fn alien_shoot(&mut self)
        requires
            old(self)@.aliens.len() == ROWS * COLS,
            forall|i: int| 0 <= i < old(self)@.aliens.len() ==> alien_ok(#[trigger] old(self)@.aliens[i]),
            old(self)@.alien_shoot_ticks <= 30,
        ensures
            final(self)@ == shoot_phase(old(self)@),
            final(self)@.alien_shoot_ticks <= 30,
            forall|i: int| 0 <= i < old(self)@.bullets.len() ==> bullet_ok(#[trigger] old(self)@.bullets[i])
                ==> true,
            (forall|i: int| 0 <= i < old(self)@.bullets.len() ==> bullet_ok(#[trigger] old(self)@.bullets[i]))
                ==> (forall|i: int| 0 <= i < final(self)@.bullets.len() ==> bullet_ok(#[trigger] final(self)@.bullets[i])),
    {
        let ghost s0 = self@;
        proof {
            lemma_alive_count_le(s0.aliens);
        }
        self.alien_shoot_ticks = self.alien_shoot_ticks + 1;
        if self.alien_shoot_ticks < self.alien_shoot_interval() {
            return;
        }
        self.alien_shoot_ticks = 0;
        let mut idx: Vec<usize> = Vec::new();
        let mut i: usize = 0;
        while i < self.aliens.len()
            invariant
                i <= self.aliens@.len(),
                self.aliens@ == s0.aliens,
                ints(idx@) == alive_indices(s0.aliens.take(i as int)),
                forall|k: int| 0 <= k < idx@.len() ==> #[trigger] idx@[k] < i,
            decreases self.aliens@.len() - i,
        {
            assert(s0.aliens.take(i + 1).drop_last() =~= s0.aliens.take(i as int));
            if self.aliens[i].alive {
                idx.push(i);
                assert(ints(idx@) =~= alive_indices(s0.aliens.take(i as int)).push(i as int));
            }
            i = i + 1;
        }
        assert(s0.aliens.take(s0.aliens.len() as int) =~= s0.aliens);
        if idx.len() > 0 {
            let r = xorshift64(&mut self.rng_state);
            let n = idx.len();
            let ai = idx[(r as usize) % n];
            assert(ints(idx@)[((r as usize) % n) as int] == ai as int);
            assert(alien_ok(s0.aliens[ai as int]));
            let bx = self.aliens[ai].x + ALIEN_W / 2;
            let by = self.aliens[ai].y + ALIEN_H;
            let ghost b0 = self.bullets@;
            self.bullets.push(Bullet { x: bx, y: by, vy: 3, alien: true });
            proof {
                assert forall|q: int| 0 <= q < self.bullets@.len() && (forall|i: int|
                    0 <= i < b0.len() ==> bullet_ok(#[trigger] b0[i])) implies bullet_ok(
                    #[trigger] self.bullets@[q],
                ) by {
                    if q < b0.len() {
                        assert(self.bullets@[q] == b0[q]);
                    }
                }
            }
        }
    }

    /// The hit phase of a tick.
    pub(crate) fn resolve_hits(&mut self)
        requires
            old(self)@.aliens.len() == ROWS * COLS,
            forall|i: int| 0 <= i < old(self)@.aliens.len() ==> alien_ok(#[trigger] old(self)@.aliens[i]),
            forall|i: int| 0 <= i < old(self)@.bullets.len() ==> bullet_ok(#[trigger] old(self)@.bullets[i]),
            old(self)@.score <= 1600,
        ensures
            final(self)@ == hit_phase(old(self)@),
            final(self)@.score + 40 * alive_count(final(self)@.aliens) <= old(self)@.score + 40
                * alive_count(old(self)@.aliens),
            forall|i: int| 0 <= i < final(self)@.bullets.len() ==> bullet_ok(#[trigger] final(self)@.bullets[i]),
            forall|i: int| 0 <= i < final(self)@.aliens.len() ==> #[trigger] final(self)@.aliens[i]
                == (if final(self)@.aliens[i].alive {
                old(self)@.aliens[i]
            } else {
                Alien { alive: false, ..old(self)@.aliens[i] }
            }),
            final(self)@.aliens.len() == old(self)@.aliens.len(),
    {
        let ghost s0 = self@;
        let ghost bs = s0.bullets;
        let ghost al = s0.aliens;
        let mut ka: Vec<usize> = Vec::new();
        let mut kb: Vec<usize> = Vec::new();
        let mut gain: u32 = 0;
        let mut bi: usize = 0;
        while bi < self.bullets.len()
            invariant
                self@ == s0,
                bs == s0.bullets,
                al == s0.aliens,
                al.len() == ROWS * COLS,
                forall|i: int| 0 <= i < al.len() ==> alien_ok(#[trigger] al[i]),
                forall|i: int| 0 <= i < bs.len() ==> bullet_ok(#[trigger] bs[i]),
                bi <= bs.len(),
                (ints(ka@), ints(kb@), gain as int) == collide(bs, al, bi as int),
                ints(ka@).no_duplicates(),
                forall|k: int|
                    0 <= k < ints(ka@).len() ==> 0 <= #[trigger] ints(ka@)[k] < al.len()
                        && al[ints(ka@)[k]].alive,
                ka@.len() <= ROWS * COLS,
                gain <= 40 * ka@.len(),
            decreases bs.len() - bi,
        {
            let b = self.bullets[bi];
            if !b.alien {
                let mut ai: usize = 0;
                let ghost kav = ints(ka@);
                while ai < self.aliens.len()
                    invariant_except_break
                        first_hit(b, al, kav, 0) == first_hit(b, al, kav, ai as int),
                    invariant
                        self@ == s0,
                        al == s0.aliens,
                        al.len() == ROWS * COLS,
                        b == bs[bi as int],
                        bs == s0.bullets,
                        kav == ints(ka@),
                        forall|i: int| 0 <= i < al.len() ==> alien_ok(#[trigger] al[i]),
                        forall|i: int| 0 <= i < bs.len() ==> bullet_ok(#[trigger] bs[i]),
                        bi < bs.len(),
                        ai <= al.len(),
                    ensures
                        ai < al.len() ==> first_hit(b, al, kav, 0) == Some(ai as int),
                        ai == al.len() ==> first_hit(b, al, kav, 0) is None,
                    decreases al.len() - ai,
                {
                    let a = self.aliens[ai];
                    assert(alien_ok(al[ai as int]));
                    assert(bullet_ok(bs[bi as int]));
                    if a.alive && !listed(&ka, ai) && b.x >= a.x && b.x <= a.x + ALIEN_W && b.y
                        >= a.y && b.y <= a.y + ALIEN_H {
                        break;
                    }
                    ai = ai + 1;
                }
                if ai < self.aliens.len() {
                    let a = self.aliens[ai];
                    assert(alien_ok(al[ai as int]));
                    ka.push(ai);
                    kb.push(bi);
                    gain = gain + ((ROWS - a.row) as u32) * 10;
                    proof {
                        assert(ints(ka@) =~= kav.push(ai as int));
                        lemma_first_hit(b, al, kav, 0);
                        assert(!kav.contains(ai as int));
                        let nk = ints(ka@);
                        assert(nk.no_duplicates()) by {
                            assert forall|i: int, j: int| 0 <= i < nk.len() && 0 <= j < nk.len() && i != j implies nk[i] != nk[j] by {
                                if i < kav.len() && j < kav.len() {
                                    assert(nk[i] == kav[i] && nk[j] == kav[j]);
                                } else if i < kav.len() {
                                    assert(nk[i] == kav[i]);
                                } else if j < kav.len() {
                                    assert(nk[j] == kav[j]);
                                }
                            }
                        }
                        lemma_kill_count(al, nk);
                        lemma_alive_count_le(al);
                        lemma_alive_count_le(kill_listed(al, nk));
                    }
                }
            }
            bi = bi + 1;
        }
        // the hit aliens die
        assert forall|i: int| 0 <= i < ka@.len() implies #[trigger] ka@[i] < al.len() by {
            assert(ints(ka@)[i] == ka@[i] as int);
        }
        let mut k: usize = 0;
        while k < ka.len()
            invariant
                k <= ka@.len(),
                al == s0.aliens,
                self.aliens@.len() == al.len(),
                forall|i: int|
                    0 <= i < al.len() ==> #[trigger] self.aliens@[i] == (if ints(ka@).take(
                        k as int,
                    ).contains(i) {
                        Alien { alive: false, ..al[i] }
                    } else {
                        al[i]
                    }),
                forall|i: int| 0 <= i < ka@.len() ==> #[trigger] ka@[i] < al.len(),
                self@ == (InvV { aliens: self.aliens@, ..s0 }),
            decreases ka@.len() - k,
        {
            let j = ka[k];
            let ghost before = self.aliens@;
            self.aliens[j].alive = false;
            proof {
                assert(ints(ka@).take(k + 1) =~= ints(ka@).take(k as int).push(j as int));
                assert forall|i: int| 0 <= i < al.len() implies #[trigger] self.aliens@[i] == (if ints(
                    ka@,
                ).take(k + 1).contains(i) {
                    Alien { alive: false, ..al[i] }
                } else {
                    al[i]
                }) by {
                    if i == j {
                        assert(ints(ka@).take(k + 1)[k as int] == i);
                    } else {
                        assert(self.aliens@[i] == before[i]);
                        let t1 = ints(ka@).take(k + 1);
                        let t0 = ints(ka@).take(k as int);
                        if t1.contains(i) {
                            let q = choose|q: int| 0 <= q < t1.len() && #[trigger] t1[q] == i;
                            assert(q < k);
                            assert(t0[q] == i);
                        }
                        if t0.contains(i) {
                            let q = choose|q: int| 0 <= q < t0.len() && #[trigger] t0[q] == i;
                            assert(t1[q] == i);
                        }
                    }
                }
            }
            k = k + 1;
        }
        proof {
            assert(ints(ka@).take(ka@.len() as int) =~= ints(ka@));
            assert(self.aliens@ =~= kill_listed(al, ints(ka@)));
            lemma_kill_count(al, ints(ka@));
        }
        self.score = self.score + gain;
        // the spent bullets go
        let mut out: Vec<Bullet> = Vec::new();
        let mut q: usize = 0;
        while q < self.bullets.len()
            invariant
                q <= self.bullets@.len(),
                self.bullets@ == bs,
                out@ == unlisted(bs, ints(kb@), q as int),
                forall|i: int| 0 <= i < bs.len() ==> bullet_ok(#[trigger] bs[i]),
                forall|i: int| 0 <= i < out@.len() ==> bullet_ok(#[trigger] out@[i]),
            decreases bs.len() - q,
        {
            if !listed(&kb, q) {
                assert(bullet_ok(bs[q as int]));
                out.push(self.bullets[q]);
            }
            q = q + 1;
        }
        self.bullets = out;
    }

    /// The end of a tick; returns whether the game ended.
    pub(crate) fn end_checks(&mut self) -> (end: bool)
        requires
            0 <= old(self)@.player_x <= W - PLAYER_W,
            forall|i: int| 0 <= i < old(self)@.bullets.len() ==> bullet_ok(#[trigger] old(self)@.bullets[i]),
        ensures
            (final(self)@, end) == end_phase(old(self)@),
            forall|i: int| 0 <= i < final(self)@.bullets.len() ==> bullet_ok(#[trigger] final(self)@.bullets[i]),
    {
        let ghost s0 = self@;
        let px = self.player_x;
        let py = Self::player_y();
        let mut hit = false;
        let mut out: Vec<Bullet> = Vec::new();
        let mut i: usize = 0;
        while i < self.bullets.len()
            invariant
                self@ == s0,
                px == s0.player_x,
                0 <= px <= W - PLAYER_W,
                py == player_y_spec(),
                i <= s0.bullets.len(),
                forall|k: int| 0 <= k < s0.bullets.len() ==> bullet_ok(#[trigger] s0.bullets[k]),
                out@ == misses(s0.bullets.take(i as int), px as int),
                forall|k: int| 0 <= k < out@.len() ==> bullet_ok(#[trigger] out@[k]),
                hit == player_hit(s0.bullets.take(i as int), px as int),
            decreases s0.bullets.len() - i,
        {
            let b = self.bullets[i];
            assert(bullet_ok(s0.bullets[i as int]));
            assert(s0.bullets.take(i + 1).drop_last() =~= s0.bullets.take(i as int));
            let ghost t0 = s0.bullets.take(i as int);
            let ghost t1 = s0.bullets.take(i + 1);
            if b.alien && b.x >= px && b.x <= px + PLAYER_W && b.y >= py && b.y <= py + PLAYER_H {
                assert(hits_player(t1[i as int], px as int));
                hit = true;
            } else {
                out.push(b);
                proof {
                    if player_hit(t1, px as int) {
                        let j = choose|j: int| 0 <= j < t1.len() && #[trigger] hits_player(t1[j], px as int);
                        assert(j < i);
                        assert(t0[j] == t1[j]);
                    }
                }
            }
            proof {
                if player_hit(t0, px as int) {
                    let j = choose|j: int| 0 <= j < t0.len() && #[trigger] hits_player(t0[j], px as int);
                    assert(t1[j] == t0[j]);
                }
            }
            i = i + 1;
        }
        assert(s0.bullets.take(s0.bullets.len() as int) =~= s0.bullets);
        self.bullets = out;
        if hit {
            self.lives = if self.lives >= 1 {
                self.lives - 1
            } else {
                0
            };
            if self.lives == 0 {
                self.is_over = true;
                return true;
            }
        }
        let mut none_alive = true;
        let mut k: usize = 0;
        while k < self.aliens.len()
            invariant
                k <= self.aliens@.len(),
                none_alive == forall|q: int| 0 <= q < k ==> !(#[trigger] self.aliens@[q]).alive,
            decreases self.aliens@.len() - k,
        {
            if self.aliens[k].alive {
                none_alive = false;
            }
            k = k + 1;
        }
        if !none_alive {
            proof {
                let q = choose|q: int| 0 <= q < k && (#[trigger] self.aliens@[q]).alive;
                assert(s0.aliens[q].alive);
                assert(!all_dead(s0.aliens));
            }
            return false;
        }
        self.won = true;
        self.is_over = true;
        true
    }

    /// One tick of the game (see [`tick_spec`]); returns whether the game
    /// ended.
    pub fn advance_tick(&mut self) -> (end: bool)
        requires
            wf(old(self)@),
            !old(self)@.is_over,
        ensures
            (final(self)@, end) == tick_spec(old(self)@),
            wf(final(self)@),
    {
        let ghost s0 = self@;
        self.move_bullets();
        let ghost s1 = self@;
        proof {
            lemma_alien_phase_wf(s1);
        }
        if self.move_aliens() {
            return true;
        }
        let ghost s2 = self@;
        self.alien_shoot();
        let ghost s3 = self@;
        proof {
            assert(s3.aliens == s2.aliens);
            assert(s3.score == s2.score);
        }
        self.resolve_hits();
        let ghost s4 = self@;
        proof {
            assert forall|i: int| 0 <= i < s4.aliens.len() implies alien_ok(#[trigger] s4.aliens[i]) by {
                assert(alien_ok(s3.aliens[i]));
            }
        }
        self.end_checks()
    }
}


/// The game once started from `seed`.
pub open spec fn init_spec(s: InvV, seed: u64) -> InvV {
    InvV {
        rng_state: if seed == 0 {
            0xdeadbeef_cafebabe
        } else {
            seed
        },
        player_x: (W / 2 - PLAYER_W / 2) as int,
        aliens: formation(),
        initialized: true,
        ..s
    }
}

/// The player's move: "left", "right" or "fire"; any other word moves
/// nothing.
pub open spec fn input_spec(s: InvV, a: Seq<char>) -> InvV {
    if a == "left"@ {
        InvV { player_x: max_int(s.player_x - PLAYER_STEP, 0), ..s }
    } else if a == "right"@ {
        InvV {
            player_x: if s.player_x + PLAYER_STEP <= W - PLAYER_W {
                s.player_x + PLAYER_STEP
            } else {
                (W - PLAYER_W) as int
            },
            ..s
        }
    } else if a == "fire"@ {
        fire_spec(s)
    } else {
        s
    }
}

/// One request: the first starts the game; then, unless the input could
/// not be read (`None`) or the game is over, the player's move and a tick.
pub open spec fn process_spec(s: InvV, action: Option<Seq<char>>, seed: u64) -> InvV {
    let s1 = if !s.initialized {
        init_spec(s, seed)
    } else {
        s
    };
    match action {
        None => s1,
        Some(a) => if s1.is_over {
            s1
        } else {
            tick_spec(input_spec(s1, a)).0
        },
    }
}

/// A game not yet started, as [`Default`] makes it.
pub open spec fn fresh(s: InvV) -> bool {
    &&& forall|i: int| 0 <= i < s.bullets.len() ==> bullet_ok(#[trigger] s.bullets[i])
    &&& s.alien_dir == 1
    &&& s.alien_ticks <= 30
    &&& s.alien_shoot_ticks <= 30
    &&& s.score == 0
    &&& !s.is_over
}

pub(crate) proof fn lemma_formation()
    ensures
        forall|i: int| 0 <= i < formation().len() ==> alien_ok(#[trigger] formation()[i]),
        forall|i: int|
            0 <= i < formation().len() ==> (#[trigger] formation()[i]).alive && formation()[i].x
                <= 446 && formation()[i].y + ALIEN_H < player_y_spec(),
        alive_count(formation()) == ROWS * COLS,
{
    let f = formation();
    assert forall|i: int| 0 <= i < f.len() implies alien_ok(#[trigger] f[i]) && f[i].alive && f[i].x
        <= 446 && f[i].y + ALIEN_H < player_y_spec() by {
        assert(0 <= i % 10 < 10 && 0 <= i / 10 < 4) by (nonlinear_arith)
            requires
                0 <= i < 40,
        ;
    }
    lemma_all_alive_count(f);
}

proof fn lemma_all_alive_count(al: Seq<Alien>)
    requires
        forall|i: int| 0 <= i < al.len() ==> (#[trigger] al[i]).alive,
    ensures
        alive_count(al) == al.len(),
    decreases al.len(),
{
    if al.len() > 0 {
        assert(al[al.len() - 1].alive);
        lemma_all_alive_count(al.drop_last());
    }
}

impl InvadersSession {
    /// One request (see [`process_spec`]): `action` is the player's word, or
    /// `None` when the input could not be read; `seed` starts the game on the
    /// first request.
    pub fn process_action(&mut self, action: Option<&str>, seed: u64)
        requires
            old(self)@.initialized ==> wf(old(self)@),
            !old(self)@.initialized ==> fresh(old(self)@),
        ensures
            final(self)@ == process_spec(old(self)@, match action {
                Some(a) => Some(a@),
                None => None,
            }, seed),
            final(self)@.initialized,
            wf(final(self)@),
    {
        if !self.initialized {
            self.init(seed);
            proof {
                lemma_formation();
            }
        }
        let a = match action {
            None => {
                return;
            },
            Some(a) => a,
        };
        if self.is_over {
            return;
        }
        let ghost s1 = self@;
        if str_eq(a, "left") {
            self.move_left();
        } else if str_eq(a, "right") {
            self.move_right();
        } else if str_eq(a, "fire") {
            self.fire();
            proof {
                assert forall|i: int| 0 <= i < self@.bullets.len() implies bullet_ok(
                    #[trigger] self@.bullets[i],
                ) by {
                    if i < s1.bullets.len() {
                        assert(self@.bullets[i] == s1.bullets[i]);
                    }
                }
            }
        }
        self.advance_tick();
    }
}

} // verus!

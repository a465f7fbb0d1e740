//! Snake on a 40 × 20 grid whose border is wall.
//!
//! The snake starts at (20, 10), three cells long, heading right, with food
//! at (10, 5). Each request may steer it, then it moves one cell.
use vstd::prelude::*;
use crate::text::str_eq;

verus! {

/// Grid width, walls included.
pub const WIDTH: i32 = 40;
/// Grid height, walls included.
pub const HEIGHT: i32 = 20;

/// A cell or a direction as a pair of integers.
pub open spec fn pt(a: [i32; 2]) -> (int, int) {
    (a@[0] as int, a@[1] as int)
}

/// A game of snake. An empty body means the game has not started.
pub struct SnakeSession {
    /// Body cells, head first.
    pub snake: Vec<[i32; 2]>,
    pub food: [i32; 2],
    /// Direction of the last move, as (dx, dy).
    pub dir: [i32; 2],
    /// Direction of the next move.
    pub next_dir: [i32; 2],
    pub score: u32,
    pub is_over: bool,
}

/// The mathematical state of a game.
pub struct SnakeV {
    pub body: Seq<(int, int)>,
    pub food: (int, int),
    pub dir: (int, int),
    pub next_dir: (int, int),
    pub score: int,
    pub is_over: bool,
}

pub open spec fn body_of(v: Seq<[i32; 2]>) -> Seq<(int, int)> {
    Seq::new(v.len(), |i: int| pt(v[i]))
}

impl View for SnakeSession {
    type V = SnakeV;

    open spec fn view(&self) -> SnakeV {
        SnakeV {
            body: body_of(self.snake@),
            food: pt(self.food),
            dir: pt(self.dir),
            next_dir: pt(self.next_dir),
            score: self.score as int,
            is_over: self.is_over,
        }
    }
}

impl Default for SnakeSession {
    /// A game not yet started.
    fn default() -> (s: Self)
        ensures
            s@.body.len() == 0,
            s@.food == (0int, 0int),
            s@.dir == (0int, 0int),
            s@.next_dir == (0int, 0int),
            s@.score == 0,
            !s@.is_over,
    {
        SnakeSession {
            snake: Vec::new(),
            food: [0, 0],
            dir: [0, 0],
            next_dir: [0, 0],
            score: 0,
            is_over: false,
        }
    }
}

/// The starting position.
pub open spec fn init_spec() -> SnakeV {
    SnakeV {
        body: seq![(20int, 10int), (19int, 10int), (18int, 10int)],
        food: (10, 5),
        dir: (1, 0),
        next_dir: (1, 0),
        score: 0,
        is_over: false,
    }
}

/// The player's word: "quit" ends the game; a direction becomes the next
/// one unless it is the reverse of the current one; anything else is ignored.
pub open spec fn steer_spec(s: SnakeV, a: Seq<char>) -> SnakeV {
    if a == "quit"@ {
        SnakeV { is_over: true, ..s }
    } else if a == "up"@ {
        if s.dir != (0int, 1int) { SnakeV { next_dir: (0, -1), ..s } } else { s }
    } else if a == "down"@ {
        if s.dir != (0int, -1int) { SnakeV { next_dir: (0, 1), ..s } } else { s }
    } else if a == "left"@ {
        if s.dir != (1int, 0int) { SnakeV { next_dir: (-1, 0), ..s } } else { s }
    } else if a == "right"@ {
        if s.dir != (-1int, 0int) { SnakeV { next_dir: (1, 0), ..s } } else { s }
    } else {
        s
    }
}

/// Cell number `k` of the interior in row-major order.
pub open spec fn interior_cell(k: int) -> (int, int) {
    (1 + k % (WIDTH - 2), 1 + k / (WIDTH - 2))
}

/// Number of interior cells.
pub open spec fn interior_size() -> int {
    (WIDTH - 2) * (HEIGHT - 2)
}

/// The first interior cell from number `k` on that the body does not cover.
pub open spec fn first_free(body: Seq<(int, int)>, k: int) -> Option<(int, int)>
    decreases interior_size() - k,
{
    if k < 0 || k >= interior_size() {
        None
    } else if !body.contains(interior_cell(k)) {
        Some(interior_cell(k))
    } else {
        first_free(body, k + 1)
    }
}

/// Where the food goes after a meal: the first free interior cell, or
/// nowhere new when the grid is full.
pub open spec fn placed_food(body: Seq<(int, int)>, food: (int, int)) -> (int, int) {
    match first_free(body, 0) {
        Some(c) => c,
        None => food,
    }
}

/// The head's next cell.
pub open spec fn next_head(s: SnakeV) -> (int, int) {
    (s.body[0].0 + s.next_dir.0, s.body[0].1 + s.next_dir.1)
}

/// A wall cell, or outside the grid.
pub open spec fn is_wall(c: (int, int)) -> bool {
    c.0 <= 0 || c.0 >= WIDTH - 1 || c.1 <= 0 || c.1 >= HEIGHT - 1
}

/// One move: the next direction becomes the direction; hitting a wall or
/// the body ends the game; eating the food grows the snake, scores 10 and
/// places new food; otherwise the tail follows.
pub open spec fn tick_spec(s: SnakeV) -> SnakeV {
    if s.is_over {
        s
    } else {
        let nh = next_head(s);
        let s1 = SnakeV { dir: s.next_dir, ..s };
        if is_wall(nh) || s.body.contains(nh) {
            SnakeV { is_over: true, ..s1 }
        } else if nh == s.food {
            let body = seq![nh] + s.body;
            SnakeV { body: body, score: s.score + 10, food: placed_food(body, s.food), ..s1 }
        } else {
            SnakeV { body: (seq![nh] + s.body).drop_last(), ..s1 }
        }
    }
}

/// The score after the move fits in a `u32`.
pub open spec fn tick_fits(s: SnakeV) -> bool {
    let nh = next_head(s);
    (!s.is_over && !is_wall(nh) && !s.body.contains(nh) && nh == s.food) ==> s.score + 10
        <= u32::MAX
}

/// One request: start the game if needed; `None` is unreadable input and
/// only starts it; otherwise steer with the word, if any, and move.
pub open spec fn process_spec(s: SnakeV, input: Option<Option<Seq<char>>>) -> SnakeV {
    let s1 = if s.body.len() > 0 { s } else { init_spec() };
    match input {
        None => s1,
        Some(None) => tick_spec(s1),
        Some(Some(a)) => tick_spec(steer_spec(s1, a)),
    }
}

/// The score after the request fits in a `u32`.
pub open spec fn process_fits(s: SnakeV, input: Option<Option<Seq<char>>>) -> bool {
    let s1 = if s.body.len() > 0 { s } else { init_spec() };
    match input {
        None => true,
        Some(None) => tick_fits(s1),
        Some(Some(a)) => tick_fits(steer_spec(s1, a)),
    }
}

/// A unit step or no step.
pub open spec fn unit_dir(d: (int, int)) -> bool {
    -1 <= d.0 <= 1 && -1 <= d.1 <= 1
}

/// The invariant of a started game: the body lies on the grid and the
/// directions are unit steps.
pub open spec fn wf(s: SnakeV) -> bool {
    &&& s.body.len() > 0
    &&& forall|i: int|
        0 <= i < s.body.len() ==> 0 <= (#[trigger] s.body[i]).0 < WIDTH && 0 <= s.body[i].1
            < HEIGHT
    &&& unit_dir(s.dir)
    &&& unit_dir(s.next_dir)
}

proof fn lemma_body_push_front(v: Seq<[i32; 2]>, a: [i32; 2])
    ensures
        body_of(v.insert(0, a)) == seq![pt(a)] + body_of(v),
{
    assert(body_of(v.insert(0, a)) =~= seq![pt(a)] + body_of(v));
}

impl SnakeSession {
    /// Whether the game has started.
    pub fn initialized(&self) -> (r: bool)
        ensures
            r == (self@.body.len() > 0),
    {
        self.snake.len() > 0
    }

    /// The starting position.
    pub fn init(&mut self)
        ensures
            final(self)@ == init_spec(),
            wf(final(self)@),
    {
        let mut v: Vec<[i32; 2]> = Vec::new();
        v.push([20, 10]);
        v.push([19, 10]);
        v.push([18, 10]);
        self.snake = v;
        self.food = [10, 5];
        self.dir = [1, 0];
        self.next_dir = [1, 0];
        self.score = 0;
        self.is_over = false;
        assert(self@.body =~= init_spec().body);
    }

    /// Whether the body covers the cell.
    pub fn covers(&self, x: i32, y: i32) -> (r: bool)
        ensures
            r == self@.body.contains((x as int, y as int)),
    {
        let n = self.snake.len();
        let mut i: usize = 0;
        while i < n
            invariant
                n == self@.body.len(),
                i <= n,
                forall|j: int| 0 <= j < i ==> self@.body[j] != (x as int, y as int),
            decreases n - i,
        {
            let c = self.snake[i];
            if c[0] == x && c[1] == y {
                assert(self@.body[i as int] == (x as int, y as int));
                return true;
            }
            i = i + 1;
        }
        false
    }

    /// Puts the food on the first interior cell, row by row, that the body
    /// does not cover; leaves it where it is when there is none.
    pub fn place_food(&mut self)
        ensures
            final(self)@ == (SnakeV { food: placed_food(old(self)@.body, old(self)@.food), ..old(self)@ }),
    {
        let ghost s0 = self@;
        let mut y: i32 = 1;
        while y < HEIGHT - 1
            invariant
                self@ == s0,
                s0 == old(self)@,
                1 <= y <= HEIGHT - 1,
                first_free(s0.body, 0) == first_free(s0.body, (y - 1) * (WIDTH - 2)),
            decreases HEIGHT - 1 - y,
        {
            let mut x: i32 = 1;
            while x < WIDTH - 1
                invariant
                    self@ == s0,
                    s0 == old(self)@,
                    1 <= y < HEIGHT - 1,
                    1 <= x <= WIDTH - 1,
                    first_free(s0.body, 0) == first_free(
                        s0.body,
                        (y - 1) * (WIDTH - 2) + (x - 1),
                    ),
                decreases WIDTH - 1 - x,
            {
                let ghost k: int = (y - 1) * (WIDTH - 2) + (x - 1);
                assert(interior_cell(k) == (x as int, y as int) && 0 <= k < 684) by (nonlinear_arith)
                    requires
                        k == (y - 1) * 38 + (x - 1),
                        1 <= x < 39,
                        1 <= y < 19,
                ;
                assert(interior_size() == 684);
                let taken = self.covers(x, y);
                if !taken {
                    assert(first_free(s0.body, k) == Some(interior_cell(k)));
                    self.food = [x, y];
                    assert(self@.food == (x as int, y as int));
                    return;
                }
                x = x + 1;
            }
            assert((y - 1) * (WIDTH - 2) + (WIDTH - 2) == y * (WIDTH - 2)) by (nonlinear_arith)
                requires
                    WIDTH == 40,
            ;
            y = y + 1;
        }
        assert(first_free(s0.body, (HEIGHT - 2) * (WIDTH - 2)) is None);
    }

    /// Applies the player's word (see [`steer_spec`]).
    pub fn steer(&mut self, action: &str)
        ensures
            final(self)@ == steer_spec(old(self)@, action@),
    {
        if str_eq(action, "quit") {
            self.is_over = true;
        } else if str_eq(action, "up") {
            if !(self.dir[0] == 0 && self.dir[1] == 1) {
                self.next_dir = [0, -1];
            }
        } else if str_eq(action, "down") {
            if !(self.dir[0] == 0 && self.dir[1] == -1) {
                self.next_dir = [0, 1];
            }
        } else if str_eq(action, "left") {
            if !(self.dir[0] == 1 && self.dir[1] == 0) {
                self.next_dir = [-1, 0];
            }
        } else if str_eq(action, "right") {
            if !(self.dir[0] == -1 && self.dir[1] == 0) {
                self.next_dir = [1, 0];
            }
        }
    }

    /// Moves the snake one cell (see [`tick_spec`]).
    pub fn tick(&mut self)
        requires
            wf(old(self)@),
            tick_fits(old(self)@),
        ensures
            final(self)@ == tick_spec(old(self)@),
            wf(final(self)@),
    {
        if self.is_over {
            return;
        }
        let ghost s0 = self@;
        self.dir = self.next_dir;
        let head = self.snake[0];
        assert(pt(head) == s0.body[0]);
        let new_x = head[0] + self.dir[0];
        let new_y = head[1] + self.dir[1];
        if new_x <= 0 || new_x >= WIDTH - 1 || new_y <= 0 || new_y >= HEIGHT - 1 {
            self.is_over = true;
            return;
        }
        let hit = self.covers(new_x, new_y);
        if hit {
            self.is_over = true;
            return;
        }
        let new_head = [new_x, new_y];
        assert(pt(new_head) == next_head(s0));
        proof {
            lemma_body_push_front(self.snake@, new_head);
        }
        self.snake.insert(0, new_head);
        if new_x == self.food[0] && new_y == self.food[1] {
            self.score = self.score + 10;
            self.place_food();
        } else {
            let ghost grown = self@.body;
            let _ = self.snake.pop();
            assert(self@.body =~= grown.drop_last());
        }
    }

    /// One request (see [`process_spec`]): `None` when the input could not
    /// be read, `Some(None)` when it named no action.
    pub fn process_action(&mut self, input: Option<Option<&str>>)
        requires
            self_ok(old(self)@),
            process_fits(old(self)@, input_view(input)),
        ensures
            final(self)@ == process_spec(old(self)@, input_view(input)),
            wf(final(self)@),
    {
        if !self.initialized() {
            self.init();
        }
        match input {
            None => {},
            Some(None) => {
                self.tick();
            },
            Some(Some(a)) => {
                self.steer(a);
                self.tick();
            },
        }
    }
}

/// A session a request may be made on: not started, or a valid game.
pub open spec fn self_ok(s: SnakeV) -> bool {
    s.body.len() > 0 ==> wf(s)
}

pub open spec fn input_view(input: Option<Option<&str>>) -> Option<Option<Seq<char>>> {
    match input {
        None => None,
        Some(None) => Some(None),
        Some(Some(a)) => Some(Some(a@)),
    }
}

/// The reverse of a direction.
pub open spec fn reverse(d: (int, int)) -> (int, int) {
    (-d.0, -d.1)
}

/// The queued direction is a real step and not the reverse of the
/// current one.
pub open spec fn heading_ok(s: SnakeV) -> bool {
    s.body.len() > 0 ==> s.next_dir != (0int, 0int) && s.next_dir != reverse(s.dir)
}

/// The snake never turns back on itself: requests keep the queued
/// direction a real step that is not the reverse of the current one, and
/// the direction it moves in is the old one or not its reverse.
pub proof fn lemma_no_reversal(s: SnakeV, input: Option<Option<Seq<char>>>)
    requires
        heading_ok(s),
    ensures
        heading_ok(process_spec(s, input)),
        s.body.len() > 0 ==> (process_spec(s, input).dir == s.dir || process_spec(s, input).dir
            != reverse(s.dir)),
{
}

/// Each meal adds ten points and one cell: a game's score is always ten
/// times the cells grown since the three-cell start.
pub proof fn lemma_score_tracks_length(s: SnakeV, input: Option<Option<Seq<char>>>)
    requires
        s.body.len() > 0 ==> s.score == 10 * (s.body.len() - 3),
    ensures
        process_spec(s, input).score == 10 * (process_spec(s, input).body.len() - 3),
{
    let s1 = if s.body.len() > 0 { s } else { init_spec() };
    let s2 = match input {
        Some(Some(a)) => steer_spec(s1, a),
        _ => s1,
    };
    assert((seq![next_head(s2)] + s2.body).len() == s2.body.len() + 1);
}

/// After the game ends the snake, the food and the score stay as they are.
pub proof fn lemma_over_is_final(s: SnakeV, input: Option<Option<Seq<char>>>)
    requires
        s.body.len() > 0,
        s.is_over,
    ensures
        process_spec(s, input).is_over,
        process_spec(s, input).body == s.body,
        process_spec(s, input).food == s.food,
        process_spec(s, input).score == s.score,
{
}

} // verus!

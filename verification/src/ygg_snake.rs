//! Snake of the core library: a snake of three on a walled board, turning
//! but never straight back, growing by one and scoring ten for each food;
//! the next food goes on the first free cell, row by row.
use vstd::prelude::*;

use crate::core_game::{GameAction, Input};

verus! {

/// A game, as values.
pub struct SnakeV {
    pub body: Seq<(usize, usize)>,
    pub food: (usize, usize),
    pub direction: (i32, i32),
    pub next_direction: (i32, i32),
    pub score: nat,
    pub game_over: bool,
    pub width: usize,
    pub height: usize,
}

/// The first cell inside the walls not on `body`, scanning row `y` from
/// column `x`, then the rows below.
pub open spec fn free_from(body: Seq<(usize, usize)>, w: int, h: int, y: int, x: int) -> Option<
    (usize, usize),
>
    decreases h - y, w - x,
{
    if y < 1 || y >= h - 1 || x < 1 {
        None
    } else if x >= w - 1 {
        free_from(body, w, h, y + 1, 1)
    } else if !body.contains((x as usize, y as usize)) {
        Some((x as usize, y as usize))
    } else {
        free_from(body, w, h, y, x + 1)
    }
}

/// Where the food goes: the first free cell; it stays when none is free.
pub open spec fn next_food(body: Seq<(usize, usize)>, w: int, h: int, old_food: (usize, usize)) -> (
    usize,
    usize,
) {
    match free_from(body, w, h, 1, 1) {
        Some(c) => c,
        None => old_food,
    }
}

/// The heading after a key: a turn, unless it goes straight back.
pub open spec fn turned(s: SnakeV, input: Input) -> (i32, i32) {
    match input {
        Input::Up => if s.direction != (0i32, 1i32) {
            (0i32, -1i32)
        } else {
            s.next_direction
        },
        Input::Down => if s.direction != (0i32, -1i32) {
            (0i32, 1i32)
        } else {
            s.next_direction
        },
        Input::Left => if s.direction != (1i32, 0i32) {
            (-1i32, 0i32)
        } else {
            s.next_direction
        },
        Input::Right => if s.direction != (-1i32, 0i32) {
            (1i32, 0i32)
        } else {
            s.next_direction
        },
        _ => s.next_direction,
    }
}

/// One tick: a finished game stays; `Quit` ends it; otherwise the snake
/// turns and steps, dying at a wall or on itself, eating the food it meets.
/// The flag tells whether to quit.
pub open spec fn snake_step(s: SnakeV, input: Input) -> (SnakeV, bool) {
    if s.game_over {
        (s, true)
    } else if input is Quit {
        (SnakeV { game_over: true, ..s }, true)
    } else {
        let d = turned(s, input);
        let s1 = SnakeV { direction: d, next_direction: d, ..s };
        let nx = s.body[0].0 + d.0;
        let ny = s.body[0].1 + d.1;
        if nx <= 0 || nx >= s.width - 1 || ny <= 0 || ny >= s.height - 1 {
            (SnakeV { game_over: true, ..s1 }, true)
        } else if s.body.contains((nx as usize, ny as usize)) {
            (SnakeV { game_over: true, ..s1 }, true)
        } else {
            let head = (nx as usize, ny as usize);
            let grown = seq![head] + s.body;
            if head == s.food {
                (
                    SnakeV {
                        body: grown,
                        score: s.score + 10,
                        food: next_food(grown, s.width as int, s.height as int, s.food),
                        ..s1
                    },
                    false,
                )
            } else {
                (SnakeV { body: grown.drop_last(), ..s1 }, false)
            }
        }
    }
}

/// A heading of one step along an axis.
pub open spec fn unit(d: (i32, i32)) -> bool {
    d == (1i32, 0i32) || d == (-1i32, 0i32) || d == (0i32, 1i32) || d == (0i32, -1i32)
}

/// What every game keeps: a snake of at least one cell within the board,
/// a board that fits the counters, and unit headings.
pub open spec fn snake_wf(s: SnakeV) -> bool {
    &&& s.body.len() >= 1
    &&& forall|i: int| 0 <= i < s.body.len() ==> (#[trigger] s.body[i]).0 < s.width && s.body[i].1 < s.height
    &&& s.width <= i32::MAX
    &&& s.height <= i32::MAX
    &&& unit(s.direction)
    &&& unit(s.next_direction)
}

/// A game of snake.
pub struct YggSnake {
    pub snake_body: Vec<(usize, usize)>,
    pub food: (usize, usize),
    /// Heading as (dx, dy).
    pub direction: (i32, i32),
    pub next_direction: (i32, i32),
    pub score: u32,
    pub game_over: bool,
    pub width: usize,
    pub height: usize,
}

impl View for YggSnake {
    type V = SnakeV;

    open spec fn view(&self) -> SnakeV {
        SnakeV {
            body: self.snake_body@,
            food: self.food,
            direction: self.direction,
            next_direction: self.next_direction,
            score: self.score as nat,
            game_over: self.game_over,
            width: self.width,
            height: self.height,
        }
    }
}

fn contains_cell(v: &Vec<(usize, usize)>, c: (usize, usize)) -> (r: bool)
    ensures
        r == v@.contains(c),
{
    let mut i: usize = 0;
    while i < v.len()
        invariant
            i <= v@.len(),
            forall|k: int| 0 <= k < i ==> v@[k] != c,
        decreases v@.len() - i,
    {
        if v[i].0 == c.0 && v[i].1 == c.1 {
            return true;
        }
        i = i + 1;
    }
    false
}

impl YggSnake {
    /// A new game on a `width` × `height` board: a snake of three heading
    /// right from the middle, the food a quarter of the way in.
    pub fn new(width: usize, height: usize) -> (g: Self)
        requires
            width <= i32::MAX,
            height <= i32::MAX,
            width >= 1,
            height >= 1,
        ensures
            g@ == (SnakeV {
                body: seq![
                    ((width / 2) as usize, (height / 2) as usize),
                    (if width / 2 >= 1 { (width / 2 - 1) as usize } else { 0usize }, (height / 2) as usize),
                    (if width / 2 >= 2 { (width / 2 - 2) as usize } else { 0usize }, (height / 2) as usize),
                ],
                food: ((width / 4) as usize, (height / 4) as usize),
                direction: (1i32, 0i32),
                next_direction: (1i32, 0i32),
                score: 0,
                game_over: false,
                width,
                height,
            }),
            snake_wf(g@),
    {
        let mid_x = width / 2;
        let mid_y = height / 2;
        let x1 = if mid_x >= 1 { mid_x - 1 } else { 0 };
        let x2 = if mid_x >= 2 { mid_x - 2 } else { 0 };
        let snake_body = vec![(mid_x, mid_y), (x1, mid_y), (x2, mid_y)];
        let g = YggSnake {
            snake_body,
            food: (width / 4, height / 4),
            direction: (1, 0),
            next_direction: (1, 0),
            score: 0,
            game_over: false,
            width,
            height,
        };
        assert(g@.body =~= seq![(mid_x, mid_y), (x1, mid_y), (x2, mid_y)]);
        g
    }

    /// Puts the food on the first free cell (see [`next_food`]).
    fn place_food(&mut self)
        requires
            1 <= old(self).width <= i32::MAX,
            old(self).height <= i32::MAX,
        ensures
            final(self)@ == (SnakeV {
                food: next_food(old(self)@.body, old(self).width as int, old(self).height as int, old(self).food),
                ..old(self)@
            }),
    {
        let w = self.width;
        let h = self.height;
        let ghost body = self.snake_body@;
        if h < 2 {
            return;
        }
        let mut y: usize = 1;
        while y < h - 1
            invariant
                self@ == old(self)@,
                body == self.snake_body@,
                w == self.width,
                h == self.height,
                2 <= h,
                1 <= w,
                1 <= y <= h - 1,
                free_from(body, w as int, h as int, 1, 1) == free_from(body, w as int, h as int, y as int, 1),
            decreases h - y,
        {
            let mut x: usize = 1;
            while x < w - 1
                invariant
                    self@ == old(self)@,
                    body == self.snake_body@,
                    w == self.width,
                    h == self.height,
                    1 <= w,
                    1 <= y < h - 1,
                    1 <= x,
                    x < w || x == 1,
                    free_from(body, w as int, h as int, 1, 1) == free_from(body, w as int, h as int, y as int, x as int),
                decreases w - x,
            {
                if !contains_cell(&self.snake_body, (x, y)) {
                    self.food = (x, y);
                    return;
                }
                x = x + 1;
            }
            y = y + 1;
        }
    }

    /// The score.
    pub fn score(&self) -> (r: u32)
        ensures
            r == self.score,
    {
        self.score
    }

    /// Whether the game is over.
    pub fn is_over(&self) -> (r: bool)
        ensures
            r == self.game_over,
    {
        self.game_over
    }

    /// One tick (see [`snake_step`]).
    pub fn tick(&mut self, input: Input) -> (r: GameAction)
        requires
            snake_wf(old(self)@),
            old(self).score + 10 <= u32::MAX,
        ensures
            snake_wf(final(self)@),
            (final(self)@, r is Quit) == snake_step(old(self)@, input),
    {
        if self.game_over {
            return GameAction::Quit;
        }
        match input {
            Input::Quit => {
                self.game_over = true;
                return GameAction::Quit;
            },
            Input::Up => {
                if !(self.direction.0 == 0 && self.direction.1 == 1) {
                    self.next_direction = (0, -1);
                }
            },
            Input::Down => {
                if !(self.direction.0 == 0 && self.direction.1 == -1) {
                    self.next_direction = (0, 1);
                }
            },
            Input::Left => {
                if !(self.direction.0 == 1 && self.direction.1 == 0) {
                    self.next_direction = (-1, 0);
                }
            },
            Input::Right => {
                if !(self.direction.0 == -1 && self.direction.1 == 0) {
                    self.next_direction = (1, 0);
                }
            },
            _ => {},
        }
        self.direction = self.next_direction;
        let head = self.snake_body[0];
        let new_x = head.0 as i32 + self.direction.0;
        let new_y = head.1 as i32 + self.direction.1;
        if new_x <= 0 || new_x >= self.width as i32 - 1 || new_y <= 0 || new_y >= self.height as i32 - 1 {
            self.game_over = true;
            return GameAction::Quit;
        }
        let new_head = (new_x as usize, new_y as usize);
        if contains_cell(&self.snake_body, new_head) {
            self.game_over = true;
            return GameAction::Quit;
        }
        let ghost old_body = self.snake_body@;
        self.snake_body.insert(0, new_head);
        assert(self.snake_body@ =~= seq![new_head] + old_body);
        if new_head.0 == self.food.0 && new_head.1 == self.food.1 {
            self.score = self.score + 10;
            self.place_food();
        } else {
            self.snake_body.pop();
        }
        GameAction::Continue
    }
}

} // verus!

//! Tetris of the core library: the well and rules of the tetris universe,
//! driven by keys, with a sprint variant that ends once a set number of
//! lines is cleared.
use vstd::prelude::*;

use crate::tetris::{
    apply_fits, apply_spec, clear_fits, clear_spec, grid, init_spec, wf, TetV, TetrisSession,
};
use crate::core_game::{GameAction, Input};

verus! {

/// Options of a variant: `Some(n)` is a sprint that ends at `n` lines.
#[derive(Debug, Clone, Copy)]
pub struct TetrisOptions {
    pub sprint_lines: Option<u32>,
}

impl Default for TetrisOptions {
    fn default() -> (o: Self)
        ensures
            o.sprint_lines is None,
    {
        TetrisOptions { sprint_lines: None }
    }
}

/// The falling piece, as drawn.
#[derive(Debug)]
pub struct ActivePiece {
    pub piece_type: u8,
    pub x: i32,
    pub y: i32,
    pub shape: Vec<Vec<u8>>,
}

/// What is drawn of a game.
#[derive(Debug)]
pub struct TetrisRender {
    pub board: Vec<Vec<u8>>,
    pub piece: ActivePiece,
    pub score: u32,
    pub level: u32,
    pub game_over: bool,
}

/// A game of the core library's tetris.
pub struct YggTetris {
    pub game: TetrisSession,
    /// `Some(n)`: the game ends once `n` lines are cleared.
    pub sprint_limit: Option<u32>,
}

/// The universe's action for a key: arrows move and rotate, the action key
/// drops, anything else lets the piece fall one row.
pub open spec fn action_word(input: Input) -> Seq<char> {
    match input {
        Input::Left => "left"@,
        Input::Right => "right"@,
        Input::Up => "rotate"@,
        Input::Action => "drop"@,
        _ => "down"@,
    }
}

/// A sprint ends when a settling piece clears lines and the count reaches
/// the limit.
pub open spec fn sprint_spec(before: TetV, after: TetV, limit: Option<u32>) -> TetV {
    match limit {
        Some(n) => if after.lines > before.lines && after.lines >= n {
            TetV { is_over: true, ..after }
        } else {
            after
        },
        None => after,
    }
}

/// One call of `tick`: a finished game stays; `Quit` ends it; otherwise the
/// key's action, then the sprint rule. The flag tells whether to quit.
pub open spec fn tetris_step(s: TetV, limit: Option<u32>, input: Input) -> (TetV, bool) {
    if s.is_over {
        (s, true)
    } else if input is Quit {
        (TetV { is_over: true, ..s }, true)
    } else {
        let t = sprint_spec(s, apply_spec(s, action_word(input)), limit);
        (t, t.is_over)
    }
}

/// A game before it is set up: no well, no piece, level 1.
pub open spec fn unset() -> TetV {
    TetV {
        board: Seq::empty(),
        piece_type: 0,
        shape: Seq::empty(),
        x: 0,
        y: 0,
        score: 0,
        level: 1,
        lines: 0,
        is_over: false,
        rng: 0,
        initialized: false,
    }
}

impl YggTetris {
    /// A new marathon game (no line limit).
    pub fn new() -> (g: Self)
        ensures
            g.game@ == init_spec(unset(), 12345),
            wf(g.game@),
            g.sprint_limit is None,
    {
        Self::with_options(TetrisOptions { sprint_lines: None })
    }

    /// A new game with the variant's options: an empty well, the first piece
    /// drawn from the generator seeded at 12345.
    pub fn with_options(opts: TetrisOptions) -> (g: Self)
        ensures
            g.game@ == init_spec(unset(), 12345),
            wf(g.game@),
            g.sprint_limit == opts.sprint_lines,
    {
        let mut game = TetrisSession::default();
        game.init(12345);
        YggTetris { game, sprint_limit: opts.sprint_lines }
    }

    /// The score.
    pub fn score(&self) -> (r: u32)
        ensures
            r == self.game.score,
    {
        self.game.score
    }

    /// Whether the game is over.
    pub fn is_over(&self) -> (r: bool)
        ensures
            r == self.game.is_over,
    {
        self.game.is_over
    }

    /// What is drawn.
    pub fn render(&self) -> (r: TetrisRender)
        ensures
            grid(r.board@) == self.game@.board,
            r.piece.piece_type == self.game.piece_type,
            r.piece.x == self.game.piece_x,
            r.piece.y == self.game.piece_y,
            grid(r.piece.shape@) == self.game@.shape,
            r.score == self.game.score,
            r.level == self.game.level,
            r.game_over == self.game.is_over,
    {
        let board = copy_grid(&self.game.board);
        let shape = copy_grid(&self.game.piece_shape);
        TetrisRender {
            board,
            piece: ActivePiece {
                piece_type: self.game.piece_type,
                x: self.game.piece_x,
                y: self.game.piece_y,
                shape,
            },
            score: self.game.score,
            level: self.game.level,
            game_over: self.game.is_over,
        }
    }

    /// Removes the full rows and scores them (as the universe does), then
    /// applies the sprint rule.
    pub fn clear_lines(&mut self)
        requires
            clear_fits(old(self).game@),
        ensures
            final(self).game@ == sprint_spec(old(self).game@, clear_spec(old(self).game@), old(self).sprint_limit),
            final(self).sprint_limit == old(self).sprint_limit,
    {
        let before = self.game.lines_cleared;
        self.game.clear_lines();
        match self.sprint_limit {
            Some(n) => {
                if self.game.lines_cleared > before && self.game.lines_cleared >= n {
                    self.game.is_over = true;
                }
            },
            None => {},
        }
    }

    /// One key (see [`tetris_step`]).
    pub fn tick(&mut self, input: Input) -> (r: GameAction)
        requires
            wf(old(self).game@),
            apply_fits(old(self).game@, action_word(input)),
        ensures
            wf(final(self).game@),
            final(self).sprint_limit == old(self).sprint_limit,
            (final(self).game@, r is Quit) == tetris_step(old(self).game@, old(self).sprint_limit, input),
    {
        if self.game.is_over {
            return GameAction::Quit;
        }
        let word = match input {
            Input::Quit => {
                self.game.is_over = true;
                return GameAction::Quit;
            },
            Input::Left => "left",
            Input::Right => "right",
            Input::Up => "rotate",
            Input::Action => "drop",
            _ => "down",
        };
        let before = self.game.lines_cleared;
        self.game.apply_action(word);
        match self.sprint_limit {
            Some(n) => {
                if self.game.lines_cleared > before && self.game.lines_cleared >= n {
                    self.game.is_over = true;
                }
            },
            None => {},
        }
        if self.game.is_over {
            GameAction::Quit
        } else {
            GameAction::Continue
        }
    }
}

/// A copy of rows of cells.
fn copy_grid(g: &Vec<Vec<u8>>) -> (r: Vec<Vec<u8>>)
    ensures
        grid(r@) == grid(g@),
{
    let mut r: Vec<Vec<u8>> = Vec::new();
    let mut i: usize = 0;
    while i < g.len()
        invariant
            i <= g@.len(),
            r@.len() == i,
            forall|k: int| 0 <= k < i ==> (#[trigger] r@[k])@ == g@[k]@,
        decreases g@.len() - i,
    {
        let mut row: Vec<u8> = Vec::new();
        let mut j: usize = 0;
        while j < g[i].len()
            invariant
                i < g@.len(),
                j <= g@[i as int]@.len(),
                row@ == g@[i as int]@.subrange(0, j as int),
            decreases g@[i as int]@.len() - j,
        {
            row.push(g[i][j]);
            j = j + 1;
        }
        r.push(row);
        i = i + 1;
    }
    assert(grid(r@) =~= grid(g@));
    r
}

} // verus!

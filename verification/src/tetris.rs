//! Tetris: a 10 × 20 well, the seven classic pieces, and an xorshift64
//! generator for the piece sequence.
//!
//! Each step of the game is a function of the session state and an action;
//! the contracts below state each step over the view `TetV`.
use vstd::prelude::*;
use crate::poker::cards::xorshift_step;
use crate::pointset::xorshift64;
use crate::text::str_eq;

verus! {

/// Width of the well, in cells.
pub const BOARD_W: usize = 10;
/// Height of the well, in cells.
pub const BOARD_H: usize = 20;

/// The view of a grid of cells stored row by row.
pub open spec fn grid(v: Seq<Vec<u8>>) -> Seq<Seq<u8>> {
    Seq::new(v.len(), |i: int| v[i]@)
}

/// Appending a row to a grid appends its view.
pub proof fn lemma_grid_push(v: Seq<Vec<u8>>, x: Vec<u8>)
    ensures
        grid(v.push(x)) == grid(v).push(x@),
{
    assert(grid(v.push(x)) =~= grid(v).push(x@));
}

/// The canonical spawn orientation of piece `t` (1 = I, 2 = O, 3 = T,
/// 4 = S, 5 = Z, 6 = J, 7 = L); any other number has no cells.
pub open spec fn shape_of(t: u8) -> Seq<Seq<u8>> {
    if t == 1 {
        seq![seq![0u8, 1, 0, 0], seq![0u8, 1, 0, 0], seq![0u8, 1, 0, 0], seq![0u8, 1, 0, 0]]
    } else if t == 2 {
        seq![seq![1u8, 1], seq![1u8, 1]]
    } else if t == 3 {
        seq![seq![0u8, 1, 0], seq![1u8, 1, 1], seq![0u8, 0, 0]]
    } else if t == 4 {
        seq![seq![0u8, 1, 1], seq![1u8, 1, 0], seq![0u8, 0, 0]]
    } else if t == 5 {
        seq![seq![1u8, 1, 0], seq![0u8, 1, 1], seq![0u8, 0, 0]]
    } else if t == 6 {
        seq![seq![1u8, 0, 0], seq![1u8, 1, 1], seq![0u8, 0, 0]]
    } else if t == 7 {
        seq![seq![0u8, 0, 1], seq![1u8, 1, 1], seq![0u8, 0, 0]]
    } else {
        seq![]
    }
}

fn row2(a: u8, b: u8) -> (r: Vec<u8>)
    ensures
        r@ == seq![a, b],
{
    let mut r = Vec::new();
    r.push(a);
    r.push(b);
    assert(r@ =~= seq![a, b]);
    r
}

fn row4(a: u8, b: u8, c: u8, d: u8) -> (r: Vec<u8>)
    ensures
        r@ == seq![a, b, c, d],
{
    let mut r = Vec::new();
    r.push(a);
    r.push(b);
    r.push(c);
    r.push(d);
    assert(r@ =~= seq![a, b, c, d]);
    r
}

fn row3(a: u8, b: u8, c: u8) -> (r: Vec<u8>)
    ensures
        r@ == seq![a, b, c],
{
    let mut r = Vec::new();
    r.push(a);
    r.push(b);
    r.push(c);
    assert(r@ =~= seq![a, b, c]);
    r
}

/// The cells of piece `t` in its spawn orientation.
pub fn piece_shape(piece_type: u8) -> (r: Vec<Vec<u8>>)
    ensures
        grid(r@) == shape_of(piece_type),
{
    let mut out: Vec<Vec<u8>> = Vec::new();
    if piece_type == 1 {
        let mut k: usize = 0;
        while k < 4
            invariant
                k <= 4,
                grid(out@) == Seq::new(k as nat, |i: int| seq![0u8, 1, 0, 0]),
            decreases 4 - k,
        {
            let row = row4(0, 1, 0, 0);
            proof {
                lemma_grid_push(out@, row);
            }
            out.push(row);
            k = k + 1;
            assert(grid(out@) =~= Seq::new(k as nat, |i: int| seq![0u8, 1, 0, 0]));
        }
    } else if piece_type == 2 {
        let a = row2(1, 1);
        let b = row2(1, 1);
        proof {
            lemma_grid_push(out@, a);
            lemma_grid_push(out@.push(a), b);
        }
        out.push(a);
        out.push(b);
    } else if 3 <= piece_type && piece_type <= 7 {
        let top = if piece_type == 3 {
            row3(0, 1, 0)
        } else if piece_type == 4 {
            row3(0, 1, 1)
        } else if piece_type == 5 {
            row3(1, 1, 0)
        } else if piece_type == 6 {
            row3(1, 0, 0)
        } else {
            row3(0, 0, 1)
        };
        let mid = if piece_type == 4 {
            row3(1, 1, 0)
        } else if piece_type == 5 {
            row3(0, 1, 1)
        } else {
            row3(1, 1, 1)
        };
        let bottom = row3(0, 0, 0);
        proof {
            lemma_grid_push(out@, top);
            lemma_grid_push(out@.push(top), mid);
            lemma_grid_push(out@.push(top).push(mid), bottom);
        }
        out.push(top);
        out.push(mid);
        out.push(bottom);
    }
    assert(grid(out@) =~= shape_of(piece_type));
    out
}

/// `true` when the grid has a first row and no row is shorter than it.
pub open spec fn indexable(s: Seq<Seq<u8>>) -> bool {
    &&& s.len() > 0
    &&& forall|r: int| 0 <= r < s.len() ==> #[trigger] s[r].len() >= s[0].len()
}

/// `true` when the grid has rows and columns and every row has the same length.
pub open spec fn rectangular(s: Seq<Seq<u8>>) -> bool {
    &&& s.len() > 0
    &&& s[0].len() > 0
    &&& forall|r: int| 0 <= r < s.len() ==> #[trigger] s[r].len() == s[0].len()
}

/// The grid turned a quarter turn clockwise: column `c` of `s`, read from
/// the bottom up, becomes row `c`.
pub open spec fn rotated(s: Seq<Seq<u8>>) -> Seq<Seq<u8>> {
    let rows = s.len();
    let cols = s[0].len();
    Seq::new(cols, |c: int| Seq::new(rows, |k: int| s[rows - 1 - k][c]))
}

/// Turns a shape a quarter turn clockwise.
pub fn rotate_cw(shape: &[Vec<u8>]) -> (r: Vec<Vec<u8>>)
    requires
        indexable(grid(shape@)),
    ensures
        grid(r@) == rotated(grid(shape@)),
{
    let ghost g = grid(shape@);
    let rows = shape.len();
    let cols = shape[0].len();
    let mut out: Vec<Vec<u8>> = Vec::new();
    let mut c: usize = 0;
    while c < cols
        invariant
            g == grid(shape@),
            indexable(g),
            rows == g.len(),
            cols == g[0].len(),
            c <= cols,
            grid(out@) == rotated(g).take(c as int),
        decreases cols - c,
    {
        let mut row: Vec<u8> = Vec::new();
        let mut k: usize = 0;
        while k < rows
            invariant
                g == grid(shape@),
                indexable(g),
                rows == g.len(),
                cols == g[0].len(),
                c < cols,
                k <= rows,
                row@ == rotated(g)[c as int].take(k as int),
            decreases rows - k,
        {
            let src = rows - 1 - k;
            assert(g[src as int].len() >= cols);
            let v = shape[src][c];
            row.push(v);
            k = k + 1;
            assert(row@ =~= rotated(g)[c as int].take(k as int));
        }
        assert(row@ =~= rotated(g)[c as int]);
        proof {
            lemma_grid_push(out@, row);
        }
        out.push(row);
        c = c + 1;
        assert(grid(out@) =~= rotated(g).take(c as int));
    }
    assert(grid(out@) =~= rotated(g));
    out
}

/// A rectangular grid turned a quarter turn stays rectangular, with its
/// height and width exchanged.
pub proof fn lemma_rotated_rectangular(s: Seq<Seq<u8>>)
    requires
        rectangular(s),
    ensures
        rectangular(rotated(s)),
        rotated(s).len() == s[0].len(),
        rotated(s)[0].len() == s.len(),
{
}

/// Two quarter turns read a rectangular grid backwards in both directions.
proof fn lemma_rotated_twice(s: Seq<Seq<u8>>)
    requires
        rectangular(s),
    ensures
        rotated(rotated(s)) == Seq::new(
            s.len(),
            |r: int| Seq::new(s[0].len(), |c: int| s[s.len() - 1 - r][s[0].len() - 1 - c]),
        ),
{
    let t = rotated(rotated(s));
    let u = Seq::new(
        s.len(),
        |r: int| Seq::new(s[0].len(), |c: int| s[s.len() - 1 - r][s[0].len() - 1 - c]),
    );
    lemma_rotated_rectangular(s);
    assert forall|r: int| 0 <= r < t.len() implies t[r] =~= u[r] by {}
    assert(t =~= u);
}

/// Four quarter turns bring any rectangular shape back to itself.
pub proof fn lemma_rotate_four_times(s: Seq<Seq<u8>>)
    requires
        rectangular(s),
    ensures
        rotated(rotated(rotated(rotated(s)))) == s,
{
    lemma_rotated_twice(s);
    let h = rotated(rotated(s));
    lemma_rotated_rectangular(s);
    lemma_rotated_rectangular(rotated(s));
    assert(rectangular(h));
    lemma_rotated_twice(h);
    let t = rotated(rotated(h));
    assert forall|r: int| 0 <= r < s.len() implies t[r] =~= s[r] by {}
    assert(t =~= s);
}

// ── The session ──────────────────────────────────────────────────────────

/// A game of Tetris: the settled cells, the falling piece and the counters.
pub struct TetrisSession {
    /// Settled cells, row by row from the top; 0 is empty, otherwise the
    /// type of the piece that settled there.
    pub board: Vec<Vec<u8>>,
    pub piece_type: u8,
    pub piece_shape: Vec<Vec<u8>>,
    /// Column of the shape's left edge.
    pub piece_x: i32,
    /// Row of the shape's top edge.
    pub piece_y: i32,
    pub score: u32,
    pub level: u32,
    pub lines_cleared: u32,
    pub is_over: bool,
    pub rng_state: u64,
    /// `true` once the first action has set the game up.
    pub initialized: bool,
}

/// The mathematical state of a session.
pub struct TetV {
    pub board: Seq<Seq<u8>>,
    pub piece_type: u8,
    pub shape: Seq<Seq<u8>>,
    pub x: int,
    pub y: int,
    pub score: int,
    pub level: int,
    pub lines: int,
    pub is_over: bool,
    pub rng: u64,
    pub initialized: bool,
}

impl View for TetrisSession {
    type V = TetV;

    open spec fn view(&self) -> TetV {
        TetV {
            board: grid(self.board@),
            piece_type: self.piece_type,
            shape: grid(self.piece_shape@),
            x: self.piece_x as int,
            y: self.piece_y as int,
            score: self.score as int,
            level: self.level as int,
            lines: self.lines_cleared as int,
            is_over: self.is_over,
            rng: self.rng_state,
            initialized: self.initialized,
        }
    }
}

impl Default for TetrisSession {
    /// A game not yet set up: no board, no piece, level 1.
    fn default() -> (s: Self)
        ensures
            s@.board.len() == 0,
            s@.piece_type == 0,
            s@.shape.len() == 0,
            s@.x == 0,
            s@.y == 0,
            s@.score == 0,
            s@.level == 1,
            s@.lines == 0,
            !s@.is_over,
            s@.rng == 0,
            !s@.initialized,
    {
        TetrisSession {
            board: Vec::new(),
            piece_type: 0,
            piece_shape: Vec::new(),
            piece_x: 0,
            piece_y: 0,
            score: 0,
            level: 1,
            lines_cleared: 0,
            is_over: false,
            rng_state: 0,
            initialized: false,
        }
    }
}

// ── Geometry ──────────────────────────────────────────────────────────────

/// Cell (r, c) of the shape exists and is part of the piece.
pub open spec fn filled(sh: Seq<Seq<u8>>, r: int, c: int) -> bool {
    0 <= r < sh.len() && 0 <= c < sh[r].len() && sh[r][c] != 0
}

/// A piece cell at column `nx`, row `ny` would leave the well through a
/// side or the floor, or overlap a settled cell. Rows above the top are free.
pub open spec fn blocked(b: Seq<Seq<u8>>, nx: int, ny: int) -> bool {
    nx < 0 || nx >= BOARD_W || ny >= BOARD_H || (ny >= 0 && b[ny][nx] != 0)
}

/// The shape placed with its top-left corner at (x, y) has a blocked cell.
pub open spec fn collides(b: Seq<Seq<u8>>, sh: Seq<Seq<u8>>, x: int, y: int) -> bool {
    exists|r: int, c: int| #[trigger] filled(sh, r, c) && blocked(b, x + c, y + r)
}

pub open spec fn in_i32(v: int) -> bool {
    i32::MIN <= v <= i32::MAX
}

/// Every cell position computed for the shape at (x, y) shifted by
/// (ox, oy) fits in an `i32`.
pub open spec fn fits(x: int, y: int, sh: Seq<Seq<u8>>, ox: int, oy: int) -> bool {
    forall|r: int, c: int|
        #[trigger] filled(sh, r, c) ==> {
            &&& r <= i32::MAX
            &&& c <= i32::MAX
            &&& in_i32(x + c)
            &&& in_i32(x + c + ox)
            &&& in_i32(y + r)
            &&& in_i32(y + r + oy)
        }
}

/// The well: `BOARD_H` rows of `BOARD_W` cells.
pub open spec fn board_ok(b: Seq<Seq<u8>>) -> bool {
    &&& b.len() == BOARD_H
    &&& forall|i: int| 0 <= i < BOARD_H ==> #[trigger] b[i].len() == BOARD_W
}

/// A piece shape: a rectangle of at most 4 × 4 cells with at least one
/// filled cell.
pub open spec fn shape_ok(sh: Seq<Seq<u8>>) -> bool {
    &&& rectangular(sh)
    &&& sh.len() <= 4
    &&& sh[0].len() <= 4
    &&& exists|r: int, c: int| #[trigger] filled(sh, r, c)
}

/// The invariant of a set-up session.
pub open spec fn wf(s: TetV) -> bool {
    &&& board_ok(s.board)
    &&& shape_ok(s.shape)
    &&& -20 <= s.x <= 20
    &&& -20 <= s.y <= 20
}

/// Positions near the well always fit in an `i32`.
pub proof fn lemma_small_fits(x: int, y: int, sh: Seq<Seq<u8>>, ox: int, oy: int)
    requires
        shape_ok(sh),
        -20 <= x <= 20,
        -20 <= y <= 20,
        -1 <= ox <= 1,
        -1 <= oy <= 1,
    ensures
        fits(x, y, sh, ox, oy),
{
}

/// The board with the shape's filled cells written as `t`; cells outside
/// the board are dropped.
pub open spec fn locked(b: Seq<Seq<u8>>, sh: Seq<Seq<u8>>, x: int, y: int, t: u8) -> Seq<Seq<u8>> {
    Seq::new(
        b.len(),
        |i: int| Seq::new(b[i].len(), |j: int| if filled(sh, i - y, j - x) { t } else { b[i][j] }),
    )
}

/// `locked` restricted to the cells before (r, c) in row-major order.
spec fn locked_upto(
    b: Seq<Seq<u8>>,
    sh: Seq<Seq<u8>>,
    x: int,
    y: int,
    t: u8,
    r: int,
    c: int,
) -> Seq<Seq<u8>> {
    Seq::new(
        b.len(),
        |i: int|
            Seq::new(
                b[i].len(),
                |j: int|
                    if filled(sh, i - y, j - x) && (i - y < r || (i - y == r && j - x < c)) {
                        t
                    } else {
                        b[i][j]
                    },
            ),
    )
}

impl TetrisSession {
    /// Advances the generator one xorshift64 step and returns the new state.
    pub fn next_rng(&mut self) -> (r: u64)
        ensures
            r == xorshift_step(old(self)@.rng),
            final(self)@ == (TetV { rng: r, ..old(self)@ }),
    {
        xorshift64(&mut self.rng_state)
    }

    /// The next piece type, 1 to 7.
    pub fn next_piece_type(&mut self) -> (t: u8)
        ensures
            t == (xorshift_step(old(self)@.rng) % 7 + 1) as u8,
            1 <= t <= 7,
            final(self)@ == (TetV { rng: xorshift_step(old(self)@.rng), ..old(self)@ }),
    {
        let r = self.next_rng();
        (r % 7 + 1) as u8
    }

    /// Whether the given shape, placed at the piece's position shifted by
    /// (ox, oy), would leave the well or overlap a settled cell.
    pub fn collides_at(&self, ox: i32, oy: i32, shape: &[Vec<u8>]) -> (r: bool)
        requires
            board_ok(self@.board),
            fits(self@.x, self@.y, grid(shape@), ox as int, oy as int),
        ensures
            r == collides(self@.board, grid(shape@), self@.x + ox, self@.y + oy),
    {
        let ghost b = self@.board;
        let ghost g = grid(shape@);
        let ghost x = self@.x + ox;
        let ghost y = self@.y + oy;
        let n = shape.len();
        let mut r: usize = 0;
        while r < n
            invariant
                b == self@.board,
                g == grid(shape@),
                x == self@.x + ox,
                y == self@.y + oy,
                board_ok(b),
                fits(self@.x, self@.y, g, ox as int, oy as int),
                n == g.len(),
                r <= n,
                forall|rr: int, cc: int|
                    0 <= rr < r && #[trigger] filled(g, rr, cc) ==> !blocked(b, x + cc, y + rr),
            decreases n - r,
        {
            let row = &shape[r];
            let m = row.len();
            let mut c: usize = 0;
            while c < m
                invariant
                    b == self@.board,
                    g == grid(shape@),
                    x == self@.x + ox,
                    y == self@.y + oy,
                    board_ok(b),
                    fits(self@.x, self@.y, g, ox as int, oy as int),
                    n == g.len(),
                    r < n,
                    row@ == g[r as int],
                    m == row@.len(),
                    c <= m,
                    forall|rr: int, cc: int|
                        0 <= rr < r && #[trigger] filled(g, rr, cc) ==> !blocked(b, x + cc, y + rr),
                    forall|cc: int|
                        0 <= cc < c && #[trigger] filled(g, r as int, cc) ==> !blocked(
                            b,
                            x + cc,
                            y + r,
                        ),
                decreases m - c,
            {
                let cell = row[c];
                if cell != 0 {
                    assert(filled(g, r as int, c as int));
                    let nx = self.piece_x + c as i32 + ox;
                    let ny = self.piece_y + r as i32 + oy;
                    if nx < 0 || nx >= BOARD_W as i32 || ny >= BOARD_H as i32 {
                        assert(blocked(b, x + c, y + r));
                        return true;
                    }
                    if ny >= 0 {
                        assert(b[ny as int].len() == BOARD_W);
                    }
                    if ny >= 0 && self.board[ny as usize][nx as usize] != 0 {
                        assert(blocked(b, x + c, y + r));
                        return true;
                    }
                }
                c = c + 1;
            }
            r = r + 1;
        }
        false
    }

    /// Writes the piece's type into every board cell that its shape covers.
    pub fn lock_piece(&mut self)
        requires
            board_ok(old(self)@.board),
            fits(old(self)@.x, old(self)@.y, old(self)@.shape, 0, 0),
        ensures
            final(self)@ == (TetV {
                board: locked(
                    old(self)@.board,
                    old(self)@.shape,
                    old(self)@.x,
                    old(self)@.y,
                    old(self)@.piece_type,
                ),
                ..old(self)@
            }),
    {
        let ghost s0 = self@;
        let ghost b0 = self@.board;
        let ghost g = self@.shape;
        let ghost t = self@.piece_type;
        let n = self.piece_shape.len();
        let mut r: usize = 0;
        assert(self@.board =~~= locked_upto(b0, g, s0.x, s0.y, t, 0, 0));
        while r < n
            invariant
                self@ == (TetV { board: self@.board, ..s0 }),
                b0 == s0.board,
                g == s0.shape,
                t == s0.piece_type,
                board_ok(b0),
                fits(s0.x, s0.y, g, 0, 0),
                n == g.len(),
                r <= n,
                self@.board == locked_upto(b0, g, s0.x, s0.y, t, r as int, 0),
            decreases n - r,
        {
            let m = self.piece_shape[r].len();
            let mut c: usize = 0;
            while c < m
                invariant
                    self@ == (TetV { board: self@.board, ..s0 }),
                    b0 == s0.board,
                    g == s0.shape,
                    t == s0.piece_type,
                    board_ok(b0),
                    fits(s0.x, s0.y, g, 0, 0),
                    n == g.len(),
                    r < n,
                    m == g[r as int].len(),
                    c <= m,
                    self@.board == locked_upto(b0, g, s0.x, s0.y, t, r as int, c as int),
                decreases m - c,
            {
                let cell = self.piece_shape[r][c];
                let ghost prev = self@.board;
                let ghost want = locked_upto(b0, g, s0.x, s0.y, t, r as int, c + 1);
                if cell != 0 {
                    assert(filled(g, r as int, c as int));
                    let nx = self.piece_x + c as i32;
                    let ny = self.piece_y + r as i32;
                    if 0 <= ny && ny < BOARD_H as i32 && 0 <= nx && nx < BOARD_W as i32 {
                        let v = self.piece_type;
                        assert(b0[ny as int].len() == BOARD_W);
                        assert(self@.board.len() == b0.len());
                        assert(self@.board[ny as int].len() == b0[ny as int].len());
                        assert(self.board@[ny as int]@ == self@.board[ny as int]);
                        self.board[ny as usize][nx as usize] = v;
                        assert forall|i: int| 0 <= i < want.len() implies #[trigger] self@.board[i]
                            =~= want[i] by {
                            if i == ny {
                                assert(self@.board[i] == prev[i].update(nx as int, v));
                            } else {
                                assert(self@.board[i] == prev[i]);
                            }
                        }
                    } else {
                        assert forall|i: int| 0 <= i < want.len() implies #[trigger] self@.board[i]
                            =~= want[i] by {}
                    }
                } else {
                    assert forall|i: int| 0 <= i < want.len() implies #[trigger] self@.board[i]
                        =~= want[i] by {}
                }
                assert(self@.board =~= want);
                c = c + 1;
            }
            r = r + 1;
            assert(self@.board =~~= locked_upto(b0, g, s0.x, s0.y, t, r as int, 0));
        }
        assert(self@.board =~~= locked(b0, g, s0.x, s0.y, t));
    }
}

// ── Clearing lines ────────────────────────────────────────────────────────

/// Every cell of the row is occupied (an empty row counts as full).
pub open spec fn full_row(row: Seq<u8>) -> bool {
    forall|j: int| 0 <= j < row.len() ==> row[j] != 0
}

/// The rows that are not full, in their order.
pub open spec fn kept_rows(b: Seq<Seq<u8>>) -> Seq<Seq<u8>>
    decreases b.len(),
{
    if b.len() == 0 {
        seq![]
    } else if full_row(b.last()) {
        kept_rows(b.drop_last())
    } else {
        kept_rows(b.drop_last()).push(b.last())
    }
}

/// How many rows are full.
pub open spec fn full_count(b: Seq<Seq<u8>>) -> nat
    decreases b.len(),
{
    if b.len() == 0 {
        0
    } else if full_row(b.last()) {
        full_count(b.drop_last()) + 1
    } else {
        full_count(b.drop_last())
    }
}

/// A row of `BOARD_W` empty cells.
pub open spec fn empty_row() -> Seq<u8> {
    Seq::new(BOARD_W as nat, |j: int| 0u8)
}

/// The board with its full rows removed and as many empty rows added on top.
pub open spec fn cleared(b: Seq<Seq<u8>>) -> Seq<Seq<u8>> {
    Seq::new(full_count(b), |i: int| empty_row()) + kept_rows(b)
}

/// Points for clearing `k` rows at once, before the level multiplier.
pub open spec fn line_points(k: nat) -> int {
    if k == 1 {
        100
    } else if k == 2 {
        300
    } else if k == 3 {
        500
    } else if k == 4 {
        800
    } else {
        0
    }
}

/// Removing the full rows: the score grows by the points times the level,
/// the line count by the rows removed, and the level follows the count.
pub open spec fn clear_spec(s: TetV) -> TetV {
    let k = full_count(s.board);
    if k > 0 {
        TetV {
            board: cleared(s.board),
            score: s.score + line_points(k) * s.level,
            lines: s.lines + k,
            level: (s.lines + k) / 10 + 1,
            ..s
        }
    } else {
        TetV { board: cleared(s.board), ..s }
    }
}

/// The counters after clearing still fit in a `u32`.
pub open spec fn clear_fits(s: TetV) -> bool {
    let k = full_count(s.board);
    k > 0 ==> s.score + line_points(k) * s.level <= u32::MAX && s.lines + k <= u32::MAX
}

proof fn lemma_grid_add(a: Seq<Vec<u8>>, b: Seq<Vec<u8>>)
    ensures
        grid(a + b) == grid(a) + grid(b),
{
    assert(grid(a + b) =~= grid(a) + grid(b));
}

/// The kept rows and the full rows together are all the rows; kept rows
/// are not full and keep their width.
pub proof fn lemma_kept_rows(b: Seq<Seq<u8>>)
    ensures
        kept_rows(b).len() + full_count(b) == b.len(),
        forall|i: int| 0 <= i < kept_rows(b).len() ==> !full_row(#[trigger] kept_rows(b)[i]),
        forall|i: int|
            0 <= i < kept_rows(b).len() ==> exists|j: int|
                0 <= j < b.len() && #[trigger] kept_rows(b)[i] == b[j],
        full_count(b) == 0 ==> kept_rows(b) == b,
    decreases b.len(),
{
    if b.len() > 0 {
        lemma_kept_rows(b.drop_last());
        let p = kept_rows(b.drop_last());
        assert forall|i: int| 0 <= i < kept_rows(b).len() implies exists|j: int|
            0 <= j < b.len() && #[trigger] kept_rows(b)[i] == b[j] by {
            if i < p.len() {
                let j = choose|j: int| 0 <= j < b.drop_last().len() && p[i] == b.drop_last()[j];
                assert(kept_rows(b)[i] == b[j]);
            } else {
                assert(kept_rows(b)[i] == b[b.len() - 1]);
            }
        }
        if full_count(b) == 0 {
            assert(b.drop_last().push(b.last()) =~= b);
        }
    }
}

/// Clearing keeps a well a well, and leaves no full row behind.
pub proof fn lemma_cleared(b: Seq<Seq<u8>>)
    requires
        board_ok(b),
    ensures
        board_ok(cleared(b)),
        forall|i: int| 0 <= i < BOARD_H ==> !full_row(#[trigger] cleared(b)[i]),
        full_count(b) == 0 ==> cleared(b) == b,
{
    lemma_kept_rows(b);
    let e = Seq::new(full_count(b), |i: int| empty_row());
    let k = kept_rows(b);
    assert forall|i: int| 0 <= i < BOARD_H implies cleared(b)[i].len() == BOARD_W && !full_row(
        #[trigger] cleared(b)[i],
    ) by {
        if i < e.len() {
            assert(cleared(b)[i] == empty_row());
            assert(empty_row()[0] == 0);
        } else {
            assert(cleared(b)[i] == k[i - e.len()]);
            let j = choose|j: int| 0 <= j < b.len() && k[i - e.len()] == b[j];
            assert(b[j].len() == BOARD_W);
        }
    }
    if full_count(b) == 0 {
        assert(cleared(b) =~= b);
    }
}

fn row_is_full(row: &Vec<u8>) -> (r: bool)
    ensures
        r == full_row(row@),
{
    let n = row.len();
    let mut j: usize = 0;
    while j < n
        invariant
            n == row@.len(),
            j <= n,
            forall|k: int| 0 <= k < j ==> row@[k] != 0,
        decreases n - j,
    {
        if row[j] == 0 {
            return false;
        }
        j = j + 1;
    }
    true
}

fn copy_row(row: &Vec<u8>) -> (r: Vec<u8>)
    ensures
        r@ == row@,
{
    let n = row.len();
    let mut out: Vec<u8> = Vec::new();
    let mut j: usize = 0;
    while j < n
        invariant
            n == row@.len(),
            j <= n,
            out@ == row@.take(j as int),
        decreases n - j,
    {
        out.push(row[j]);
        j = j + 1;
        assert(out@ =~= row@.take(j as int));
    }
    assert(row@.take(n as int) =~= row@);
    out
}

fn new_empty_row() -> (r: Vec<u8>)
    ensures
        r@ == empty_row(),
{
    let mut out: Vec<u8> = Vec::new();
    let mut j: usize = 0;
    while j < BOARD_W
        invariant
            j <= BOARD_W,
            out@ == Seq::new(j as nat, |k: int| 0u8),
        decreases BOARD_W - j,
    {
        out.push(0);
        j = j + 1;
        assert(out@ =~= Seq::new(j as nat, |k: int| 0u8));
    }
    out
}

impl TetrisSession {
    /// Removes every full row, adds as many empty rows on top, and scores
    /// them: 100, 300, 500 or 800 points for one to four rows, times the level.
    pub fn clear_lines(&mut self)
        requires
            clear_fits(old(self)@),
        ensures
            final(self)@ == clear_spec(old(self)@),
    {
        let ghost s0 = self@;
        let ghost b0 = s0.board;
        let n = self.board.len();
        let mut kept: Vec<Vec<u8>> = Vec::new();
        let mut count: usize = 0;
        let mut i: usize = 0;
        while i < n
            invariant
                self@ == s0,
                b0 == s0.board,
                n == b0.len(),
                i <= n,
                grid(kept@) == kept_rows(b0.take(i as int)),
                count == full_count(b0.take(i as int)),
                count <= i,
            decreases n - i,
        {
            assert(b0.take(i + 1).drop_last() =~= b0.take(i as int));
            assert(b0.take(i + 1).last() == b0[i as int]);
            let full = row_is_full(&self.board[i]);
            if full {
                count = count + 1;
            } else {
                let row = copy_row(&self.board[i]);
                proof {
                    lemma_grid_push(kept@, row);
                }
                kept.push(row);
            }
            i = i + 1;
        }
        assert(b0.take(n as int) =~= b0);
        let mut nb: Vec<Vec<u8>> = Vec::new();
        let mut j: usize = 0;
        while j < count
            invariant
                j <= count,
                grid(nb@) == Seq::new(j as nat, |k: int| empty_row()),
            decreases count - j,
        {
            let e = new_empty_row();
            proof {
                lemma_grid_push(nb@, e);
            }
            nb.push(e);
            j = j + 1;
            assert(grid(nb@) =~= Seq::new(j as nat, |k: int| empty_row()));
        }
        proof {
            lemma_grid_add(nb@, kept@);
        }
        nb.append(&mut kept);
        self.board = nb;
        assert(self@.board == cleared(b0));
        if count > 0 {
            let base: u32 = if count == 1 {
                100
            } else if count == 2 {
                300
            } else if count == 3 {
                500
            } else if count == 4 {
                800
            } else {
                0
            };
            assert(base == line_points(count as nat));
            assert(base * self.level <= u32::MAX) by (nonlinear_arith)
                requires
                    s0.score + line_points(count as nat) * s0.level <= u32::MAX,
                    base == line_points(count as nat),
                    self.level == s0.level,
                    s0.score >= 0,
            ;
            let pts = base * self.level;
            self.score = self.score + pts;
            self.lines_cleared = self.lines_cleared + count as u32;
            self.level = self.lines_cleared / 10 + 1;
        }
    }
}

// ── Game steps ────────────────────────────────────────────────────────────

/// The column where a new shape starts: centred, rounding left.
pub open spec fn spawn_x(sh: Seq<Seq<u8>>) -> int {
    (BOARD_W - sh[0].len()) / 2
}

/// A new piece from the generator at the top of the well; the game ends
/// when it already overlaps.
pub open spec fn spawn_spec(s: TetV) -> TetV {
    let r = xorshift_step(s.rng);
    let t = (r % 7 + 1) as u8;
    let sh = shape_of(t);
    let x = spawn_x(sh);
    TetV {
        piece_type: t,
        shape: sh,
        x: x,
        y: 0,
        rng: r,
        is_over: s.is_over || collides(s.board, sh, x, 0),
        ..s
    }
}

/// The piece written into the board.
pub open spec fn lock_spec(s: TetV) -> TetV {
    TetV { board: locked(s.board, s.shape, s.x, s.y, s.piece_type), ..s }
}

/// One row down; when blocked the piece settles, full rows clear and the
/// next piece comes.
pub open spec fn gravity_spec(s: TetV) -> TetV {
    if !collides(s.board, s.shape, s.x, s.y + 1) {
        TetV { y: s.y + 1, ..s }
    } else {
        spawn_spec(clear_spec(lock_spec(s)))
    }
}

/// The counters of a settling step fit in a `u32`.
pub open spec fn gravity_fits(s: TetV) -> bool {
    collides(s.board, s.shape, s.x, s.y + 1) ==> clear_fits(lock_spec(s))
}

/// The lowest row the shape can sink to from row `y`.
pub open spec fn sink(b: Seq<Seq<u8>>, sh: Seq<Seq<u8>>, x: int, y: int) -> int
    decreases 20 - y,
{
    if y >= 20 || collides(b, sh, x, y + 1) {
        y
    } else {
        sink(b, sh, x, y + 1)
    }
}

/// Hard drop: sink as far as possible, then settle.
pub open spec fn drop_spec(s: TetV) -> TetV {
    gravity_spec(TetV { y: sink(s.board, s.shape, s.x, s.y), ..s })
}

/// One action: "left", "right" and "rotate" move the piece when the new
/// place is free, "drop" is a hard drop, anything else is a gravity tick.
pub open spec fn apply_spec(s: TetV, a: Seq<char>) -> TetV {
    if a == "left"@ {
        if !collides(s.board, s.shape, s.x - 1, s.y) {
            TetV { x: s.x - 1, ..s }
        } else {
            s
        }
    } else if a == "right"@ {
        if !collides(s.board, s.shape, s.x + 1, s.y) {
            TetV { x: s.x + 1, ..s }
        } else {
            s
        }
    } else if a == "rotate"@ {
        if !collides(s.board, rotated(s.shape), s.x, s.y) {
            TetV { shape: rotated(s.shape), ..s }
        } else {
            s
        }
    } else if a == "drop"@ {
        drop_spec(s)
    } else {
        gravity_spec(s)
    }
}

/// The counters after the action fit in a `u32`.
pub open spec fn apply_fits(s: TetV, a: Seq<char>) -> bool {
    if a == "left"@ || a == "right"@ || a == "rotate"@ {
        true
    } else if a == "drop"@ {
        gravity_fits(TetV { y: sink(s.board, s.shape, s.x, s.y), ..s })
    } else {
        gravity_fits(s)
    }
}

/// An empty well.
pub open spec fn empty_board() -> Seq<Seq<u8>> {
    Seq::new(BOARD_H as nat, |i: int| empty_row())
}

/// Setting the game up: the seed (a fixed one for 0), an empty well and
/// the first piece.
pub open spec fn init_spec(s: TetV, seed: u64) -> TetV {
    let s1 = TetV {
        rng: if seed == 0 { 0xdeadbeef_cafebabe } else { seed },
        board: empty_board(),
        ..s
    };
    TetV { initialized: true, ..spawn_spec(s1) }
}

/// One request: set up on the first one, then apply the action unless the
/// input was unreadable (`None`) or the game is over.
pub open spec fn process_spec(s: TetV, a: Option<Seq<char>>, seed: u64) -> TetV {
    let s1 = if s.initialized { s } else { init_spec(s, seed) };
    match a {
        Some(a) => if s1.is_over { s1 } else { apply_spec(s1, a) },
        None => s1,
    }
}

/// The counters after the request fit in a `u32`.
pub open spec fn process_fits(s: TetV, a: Option<Seq<char>>, seed: u64) -> bool {
    let s1 = if s.initialized { s } else { init_spec(s, seed) };
    match a {
        Some(a) => !s1.is_over ==> apply_fits(s1, a),
        None => true,
    }
}

proof fn lemma_shape_of_ok(t: u8)
    requires
        1 <= t <= 7,
    ensures
        shape_ok(shape_of(t)),
        spawn_x(shape_of(t)) == 3 || spawn_x(shape_of(t)) == 4,
{
    let sh = shape_of(t);
    if t == 1 {
        assert(filled(sh, 0, 1));
    } else if t == 2 {
        assert(filled(sh, 0, 0));
    } else {
        assert(filled(sh, 1, 1));
    }
}

proof fn lemma_locked_board_ok(b: Seq<Seq<u8>>, sh: Seq<Seq<u8>>, x: int, y: int, t: u8)
    requires
        board_ok(b),
    ensures
        board_ok(locked(b, sh, x, y, t)),
{
}

/// A quarter turn of a piece shape is a piece shape.
proof fn lemma_rotated_shape_ok(sh: Seq<Seq<u8>>)
    requires
        shape_ok(sh),
    ensures
        shape_ok(rotated(sh)),
{
    lemma_rotated_rectangular(sh);
    let (r0, c0) = choose|r: int, c: int| #[trigger] filled(sh, r, c);
    assert(rotated(sh)[c0][sh.len() - 1 - r0] == sh[r0][c0]);
    assert(filled(rotated(sh), c0, sh.len() - 1 - r0));
}

/// A piece that is free one step away is still near the well.
proof fn lemma_free_near(b: Seq<Seq<u8>>, sh: Seq<Seq<u8>>, x: int, y: int)
    requires
        shape_ok(sh),
        !collides(b, sh, x, y),
    ensures
        -4 < x < BOARD_W,
        y < BOARD_H,
{
    let (r0, c0) = choose|r: int, c: int| #[trigger] filled(sh, r, c);
    assert(!blocked(b, x + c0, y + r0));
}

impl TetrisSession {
    /// Brings in the next piece at the top of the well.
    pub fn spawn_piece(&mut self)
        requires
            board_ok(old(self)@.board),
        ensures
            final(self)@ == spawn_spec(old(self)@),
            wf(final(self)@),
    {
        let t = self.next_piece_type();
        self.piece_type = t;
        self.piece_shape = piece_shape(t);
        proof {
            lemma_shape_of_ok(t);
        }
        let cols = self.piece_shape[0].len();
        self.piece_x = (BOARD_W as i32 - cols as i32) / 2;
        self.piece_y = 0;
        proof {
            lemma_small_fits(self@.x, self@.y, self@.shape, 0, 0);
        }
        let hit = self.collides_at(0, 0, self.piece_shape.as_slice());
        if hit {
            self.is_over = true;
        }
    }

    /// One row down, or settle the piece when it cannot move.
    pub fn gravity_drop(&mut self)
        requires
            wf(old(self)@),
            gravity_fits(old(self)@),
        ensures
            final(self)@ == gravity_spec(old(self)@),
            wf(final(self)@),
    {
        proof {
            lemma_small_fits(self@.x, self@.y, self@.shape, 0, 1);
        }
        let hit = self.collides_at(0, 1, self.piece_shape.as_slice());
        if !hit {
            proof {
                lemma_free_near(self@.board, self@.shape, self@.x, self@.y + 1);
            }
            self.piece_y = self.piece_y + 1;
        } else {
            proof {
                lemma_small_fits(self@.x, self@.y, self@.shape, 0, 0);
                lemma_locked_board_ok(
                    self@.board,
                    self@.shape,
                    self@.x,
                    self@.y,
                    self@.piece_type,
                );
            }
            self.lock_piece();
            proof {
                lemma_cleared(self@.board);
            }
            self.clear_lines();
            self.spawn_piece();
        }
    }

    /// One player action (see [`apply_spec`]).
    pub fn apply_action(&mut self, action: &str)
        requires
            wf(old(self)@),
            apply_fits(old(self)@, action@),
        ensures
            final(self)@ == apply_spec(old(self)@, action@),
            wf(final(self)@),
    {
        if str_eq(action, "left") {
            proof {
                lemma_small_fits(self@.x, self@.y, self@.shape, -1, 0);
            }
            let hit = self.collides_at(-1, 0, self.piece_shape.as_slice());
            if !hit {
                proof {
                    lemma_free_near(self@.board, self@.shape, self@.x - 1, self@.y);
                }
                self.piece_x = self.piece_x - 1;
            }
        } else if str_eq(action, "right") {
            proof {
                lemma_small_fits(self@.x, self@.y, self@.shape, 1, 0);
            }
            let hit = self.collides_at(1, 0, self.piece_shape.as_slice());
            if !hit {
                proof {
                    lemma_free_near(self@.board, self@.shape, self@.x + 1, self@.y);
                }
                self.piece_x = self.piece_x + 1;
            }
        } else if str_eq(action, "rotate") {
            let turned = rotate_cw(self.piece_shape.as_slice());
            proof {
                lemma_rotated_shape_ok(self@.shape);
                lemma_small_fits(self@.x, self@.y, grid(turned@), 0, 0);
            }
            let hit = self.collides_at(0, 0, turned.as_slice());
            if !hit {
                self.piece_shape = turned;
            }
        } else if str_eq(action, "drop") {
            let ghost s0 = self@;
            proof {
                lemma_small_fits(self@.x, self@.y, self@.shape, 0, 1);
            }
            let mut hit = self.collides_at(0, 1, self.piece_shape.as_slice());
            while !hit
                invariant
                    wf(self@),
                    self@ == (TetV { y: self@.y, ..s0 }),
                    s0.y <= self@.y,
                    hit == collides(s0.board, s0.shape, s0.x, self@.y + 1),
                    sink(s0.board, s0.shape, s0.x, self@.y) == sink(
                        s0.board,
                        s0.shape,
                        s0.x,
                        s0.y,
                    ),
                decreases 20 - self@.y,
            {
                proof {
                    lemma_free_near(self@.board, self@.shape, self@.x, self@.y + 1);
                }
                self.piece_y = self.piece_y + 1;
                proof {
                    lemma_small_fits(self@.x, self@.y, self@.shape, 0, 1);
                }
                hit = self.collides_at(0, 1, self.piece_shape.as_slice());
            }
            self.gravity_drop();
        } else {
            self.gravity_drop();
        }
    }

    /// Sets the game up: the seed (a fixed one when it is 0), an empty well
    /// and the first piece.
    pub fn init(&mut self, seed: u64)
        ensures
            final(self)@ == init_spec(old(self)@, seed),
            wf(final(self)@),
    {
        self.rng_state = if seed == 0 {
            0xdeadbeef_cafebabe
        } else {
            seed
        };
        let mut b: Vec<Vec<u8>> = Vec::new();
        let mut i: usize = 0;
        while i < BOARD_H
            invariant
                i <= BOARD_H,
                grid(b@) == Seq::new(i as nat, |k: int| empty_row()),
            decreases BOARD_H - i,
        {
            let e = new_empty_row();
            proof {
                lemma_grid_push(b@, e);
            }
            b.push(e);
            i = i + 1;
            assert(grid(b@) =~= Seq::new(i as nat, |k: int| empty_row()));
        }
        self.board = b;
        self.spawn_piece();
        self.initialized = true;
    }

    /// One request (see [`process_spec`]): `action` is the player's word, or
    /// `None` when the input could not be read; `seed` starts the game on the
    /// first request.
    pub fn process_action(&mut self, action: Option<&str>, seed: u64)
        requires
            old(self)@.initialized ==> wf(old(self)@),
            process_fits(old(self)@, match action {
                Some(a) => Some(a@),
                None => None,
            }, seed),
        ensures
            final(self)@ == process_spec(old(self)@, match action {
                Some(a) => Some(a@),
                None => None,
            }, seed),
            final(self)@.initialized,
            wf(final(self)@),
    {
        if !self.initialized {
            self.init(seed);
        }
        match action {
            None => {},
            Some(a) => {
                if !self.is_over {
                    self.apply_action(a);
                }
            },
        }
    }
}

// ── Laws ──────────────────────────────────────────────────────────────────

/// Once the game is over, requests change nothing.
pub proof fn lemma_over_is_final(s: TetV, a: Option<Seq<char>>, seed: u64)
    requires
        s.initialized,
        s.is_over,
    ensures
        process_spec(s, a, seed) == s,
{
}

/// A settling step never lowers the score or the line count, and keeps the
/// level equal to a tenth of the lines plus one.
proof fn lemma_gravity_counters(s: TetV)
    requires
        0 <= s.level,
        0 <= s.lines,
    ensures
        gravity_spec(s).score >= s.score,
        gravity_spec(s).lines >= s.lines,
        gravity_spec(s).level >= 0,
        s.level == s.lines / 10 + 1 ==> gravity_spec(s).level == gravity_spec(s).lines / 10 + 1,
{
    let k = full_count(lock_spec(s).board);
    assert(line_points(k) * s.level >= 0) by (nonlinear_arith)
        requires
            line_points(k) >= 0,
            s.level >= 0,
    ;
}

/// The score and the number of cleared lines never go down.
pub proof fn lemma_counters_never_drop(s: TetrisSession, a: Option<Seq<char>>, seed: u64)
    ensures
        process_spec(s@, a, seed).score >= s@.score,
        process_spec(s@, a, seed).lines >= s@.lines,
{
    let s1 = if s@.initialized { s@ } else { init_spec(s@, seed) };
    lemma_gravity_counters(s1);
    lemma_gravity_counters(TetV { y: sink(s1.board, s1.shape, s1.x, s1.y), ..s1 });
}

/// The level is always a tenth of the cleared lines plus one, as it is
/// when a session starts (level 1, no lines).
pub proof fn lemma_level_follows_lines(s: TetrisSession, a: Option<Seq<char>>, seed: u64)
    requires
        s@.level == s@.lines / 10 + 1,
    ensures
        process_spec(s@, a, seed).level == process_spec(s@, a, seed).lines / 10 + 1,
{
    let s1 = if s@.initialized { s@ } else { init_spec(s@, seed) };
    lemma_gravity_counters(s1);
    lemma_gravity_counters(TetV { y: sink(s1.board, s1.shape, s1.x, s1.y), ..s1 });
}

/// The falling piece is in the well and clear of the settled cells: each of
/// its cells lies between the walls, above the floor, and (once inside the
/// well) on an empty cell.
pub open spec fn piece_clear(s: TetV) -> bool {
    forall|r: int, c: int|
        #[trigger] filled(s.shape, r, c) ==> {
            &&& 0 <= s.x + c < BOARD_W
            &&& s.y + r < BOARD_H
            &&& (s.y + r >= 0 ==> s.board[s.y + r][s.x + c] == 0)
        }
}

proof fn lemma_clear_iff(s: TetV)
    ensures
        piece_clear(s) <==> !collides(s.board, s.shape, s.x, s.y),
{
    if !collides(s.board, s.shape, s.x, s.y) {
        assert forall|r: int, c: int| #[trigger] filled(s.shape, r, c) implies {
            &&& 0 <= s.x + c < BOARD_W
            &&& s.y + r < BOARD_H
            &&& (s.y + r >= 0 ==> s.board[s.y + r][s.x + c] == 0)
        } by {
            assert(!blocked(s.board, s.x + c, s.y + r));
        }
    }
    if collides(s.board, s.shape, s.x, s.y) {
        let (r, c) = choose|r: int, c: int|
            #[trigger] filled(s.shape, r, c) && blocked(s.board, s.x + c, s.y + r);
        assert(filled(s.shape, r, c));
    }
}

/// The falling piece never ends up in a wall, below the floor or on a
/// settled cell: from a clear piece, every action leaves a clear piece,
/// unless the game ended. A move or a turn that would not be clear is
/// refused, so "left", "right" and "rotate" change nothing but the piece's
/// column or shape, and only to a clear place.
pub proof fn lemma_piece_stays_clear(s: TetV, a: Seq<char>)
    requires
        piece_clear(s),
    ensures
        !apply_spec(s, a).is_over ==> piece_clear(apply_spec(s, a)),
        (a == "left"@ || a == "right"@ || a == "rotate"@) ==> {
            let r = apply_spec(s, a);
            &&& r.board == s.board && r.y == s.y && r.is_over == s.is_over
            &&& r.score == s.score && r.piece_type == s.piece_type
            &&& piece_clear(r)
        },
        a == "rotate"@ ==> apply_spec(s, a).shape == rotated(s.shape) || apply_spec(s, a) == s,
        a == "left"@ ==> apply_spec(s, a).x == s.x - 1 || apply_spec(s, a) == s,
        a == "right"@ ==> apply_spec(s, a).x == s.x + 1 || apply_spec(s, a) == s,
{
    reveal_strlit("left");
    reveal_strlit("right");
    reveal_strlit("rotate");
    reveal_strlit("drop");
    assert("left"@.len() == 4 && "right"@.len() == 5 && "rotate"@.len() == 6 && "drop"@.len() == 4);
    assert("left"@[0] == 'l' && "drop"@[0] == 'd');
    lemma_clear_iff(s);
    let r = apply_spec(s, a);
    lemma_clear_iff(r);
    if a == "drop"@ {
        let s1 = TetV { y: sink(s.board, s.shape, s.x, s.y), ..s };
        lemma_clear_iff(s1);
        lemma_gravity_clear(s1);
    } else if !(a == "left"@ || a == "right"@ || a == "rotate"@) {
        lemma_gravity_clear(s);
    }
}

/// After a gravity tick the piece is clear, unless the game ended: it moved
/// down only onto a clear place, or a new piece came that is clear or ends
/// the game.
proof fn lemma_gravity_clear(s: TetV)
    ensures
        !gravity_spec(s).is_over ==> !collides(
            gravity_spec(s).board,
            gravity_spec(s).shape,
            gravity_spec(s).x,
            gravity_spec(s).y,
        ),
{
}

/// No row of the well is full.
pub open spec fn no_full_row(b: Seq<Seq<u8>>) -> bool {
    forall|i: int| 0 <= i < b.len() ==> !full_row(#[trigger] b[i])
}

proof fn lemma_kept_rows_from(b: Seq<Seq<u8>>)
    ensures
        no_full_row(kept_rows(b)),
        kept_rows(b).len() + full_count(b) == b.len(),
        forall|i: int| 0 <= i < kept_rows(b).len() ==> b.contains(#[trigger] kept_rows(b)[i]),
    decreases b.len(),
{
    if b.len() > 0 {
        let t = b.drop_last();
        lemma_kept_rows_from(t);
        let k = kept_rows(b);
        let kt = kept_rows(t);
        assert forall|i: int| 0 <= i < k.len() implies b.contains(#[trigger] k[i]) by {
            if i < kt.len() {
                assert(k[i] == kt[i]);
                let j = choose|j: int| 0 <= j < t.len() && t[j] == kt[i];
                assert(b[j] == t[j]);
            } else {
                assert(k[i] == b[b.len() - 1]);
            }
        }
        assert forall|i: int| 0 <= i < k.len() implies !full_row(#[trigger] k[i]) by {
            if i < kt.len() {
                assert(k[i] == kt[i]);
            }
        }
    }
}

/// Clearing leaves a well of the same height with no full row, and every
/// row of it is either an empty row or a row of the old well that was not
/// full, in their old order.
pub proof fn lemma_cleared_has_no_full_row(b: Seq<Seq<u8>>)
    ensures
        cleared(b).len() == b.len(),
        no_full_row(cleared(b)),
        forall|i: int|
            0 <= i < cleared(b).len() ==> #[trigger] cleared(b)[i] == empty_row() || b.contains(
                cleared(b)[i],
            ),
{
    lemma_kept_rows_from(b);
    let e = Seq::new(full_count(b), |i: int| empty_row());
    let c = cleared(b);
    assert(!full_row(empty_row())) by {
        assert(empty_row()[0] == 0);
    }
    assert forall|i: int| 0 <= i < c.len() implies !full_row(#[trigger] c[i]) by {
        if i < e.len() {
            assert(c[i] == empty_row());
        } else {
            assert(c[i] == kept_rows(b)[i - e.len()]);
        }
    }
    assert forall|i: int| 0 <= i < c.len() implies #[trigger] c[i] == empty_row() || b.contains(c[i]) by {
        if i >= e.len() {
            assert(c[i] == kept_rows(b)[i - e.len()]);
        }
    }
}

/// Score and cleared lines never go down, and a well without full rows
/// keeps none after any action: a piece that settles and completes rows has
/// them removed at once, the well keeping its height.
pub proof fn lemma_action_keeps_well(s: TetV, a: Seq<char>)
    requires
        s.score >= 0,
        s.level >= 0,
        no_full_row(s.board),
    ensures
        apply_spec(s, a).score >= s.score,
        apply_spec(s, a).lines >= s.lines,
        apply_spec(s, a).board.len() == s.board.len(),
        no_full_row(apply_spec(s, a).board),
{
    reveal_strlit("left");
    reveal_strlit("right");
    reveal_strlit("rotate");
    reveal_strlit("drop");
    assert("left"@.len() == 4 && "right"@.len() == 5 && "rotate"@.len() == 6 && "drop"@.len() == 4);
    assert("left"@[0] == 'l' && "drop"@[0] == 'd');
    let s1 = TetV { y: sink(s.board, s.shape, s.x, s.y), ..s };
    lemma_gravity_well(s);
    lemma_gravity_well(s1);
}

proof fn lemma_gravity_well(s: TetV)
    requires
        s.score >= 0,
        s.level >= 0,
        no_full_row(s.board),
    ensures
        gravity_spec(s).score >= s.score,
        gravity_spec(s).lines >= s.lines,
        gravity_spec(s).board.len() == s.board.len(),
        no_full_row(gravity_spec(s).board),
{
    let l = lock_spec(s);
    lemma_cleared_has_no_full_row(l.board);
    assert(line_points(full_count(l.board)) >= 0);
    assert(line_points(full_count(l.board)) * s.level >= 0) by (nonlinear_arith)
        requires
            line_points(full_count(l.board)) >= 0,
            s.level >= 0,
    ;
}

} // verus!

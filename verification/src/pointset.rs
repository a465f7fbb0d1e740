//! A SameGame-style tile game on an 8 × 6 grid of colours 1 to 5 (0 is an
//! empty cell): clicking a connected group of two or more tiles of one
//! colour removes it, the tiles above fall down, and the score grows by the
//! square of the group's size. The game is over when the grid is empty or no
//! group of two is left.
use vstd::prelude::*;

use crate::poker::cards::xorshift_step;
use crate::text::str_eq;

verus! {

pub const COLS: usize = 8;

pub const ROWS: usize = 6;

/// The smallest group a click removes.
pub const MIN_GROUP: usize = 2;

/// The grid's rows, top first, as values.
pub open spec fn gv(g: [[u8; COLS]; ROWS]) -> Seq<Seq<u8>> {
    g@.map_values(|row: [u8; COLS]| row@)
}

/// A cell (row, column) inside the grid.
pub open spec fn in_grid(p: (int, int)) -> bool {
    0 <= p.0 < ROWS && 0 <= p.1 < COLS
}

/// The colour at a cell.
pub open spec fn at(g: Seq<Seq<u8>>, p: (int, int)) -> u8 {
    g[p.0][p.1]
}

/// Two cells of the grid side by side (left, right, above or below).
pub open spec fn adjacent(a: (int, int), b: (int, int)) -> bool {
    &&& in_grid(a)
    &&& in_grid(b)
    &&& ((a.0 == b.0 && (a.1 == b.1 + 1 || b.1 == a.1 + 1)) || (a.1 == b.1 && (a.0 == b.0 + 1
        || b.0 == a.0 + 1)))
}

/// A walk through side-by-side cells of one colour.
pub open spec fn one_colour_path(g: Seq<Seq<u8>>, path: Seq<(int, int)>) -> bool {
    &&& path.len() > 0
    &&& forall|i: int|
        0 <= i < path.len() ==> in_grid(#[trigger] path[i]) && at(g, path[i]) == at(g, path[0])
    &&& forall|i: int| 0 <= i < path.len() - 1 ==> adjacent(#[trigger] path[i], path[i + 1])
}

/// Cell `b` can be reached from cell `a` through cells of `a`'s colour.
pub open spec fn connected(g: Seq<Seq<u8>>, a: (int, int), b: (int, int)) -> bool {
    exists|path: Seq<(int, int)>|
        #![trigger one_colour_path(g, path), path.last()]
        one_colour_path(g, path) && path[0] == a && path.last() == b
}

/// The group of a cell: every tile connected to it (none for an empty
/// cell).
pub open spec fn group_of(g: Seq<Seq<u8>>, start: (int, int)) -> Set<(int, int)> {
    if at(g, start) == 0 {
        Set::empty()
    } else {
        Set::new(|p: (int, int)| connected(g, start, p))
    }
}

/// Cells as integer pairs.
pub open spec fn cells(v: Seq<(usize, usize)>) -> Seq<(int, int)> {
    v.map_values(|p: (usize, usize)| (p.0 as int, p.1 as int))
}

/// Whether rows of flags mark exactly the cells of `s`.
pub open spec fn marks(vis: Seq<Seq<bool>>, s: Set<(int, int)>) -> bool {
    &&& vis.len() == ROWS
    &&& forall|r: int| 0 <= r < ROWS ==> (#[trigger] vis[r]).len() == COLS
    &&& forall|r: int, c: int|
        0 <= r < ROWS && 0 <= c < COLS ==> (#[trigger] vis[r][c] <==> s.contains((r, c)))
    &&& forall|p: (int, int)| #[trigger] s.contains(p) ==> in_grid(p)
}

/// How many cells of a row are unmarked.
pub open spec fn unmarked_row(row: Seq<bool>) -> nat
    decreases row.len(),
{
    if row.len() == 0 {
        0
    } else {
        unmarked_row(row.drop_last()) + if row.last() {
            0nat
        } else {
            1nat
        }
    }
}

/// How many cells of the first `k` rows are unmarked.
pub open spec fn unmarked(vis: Seq<Seq<bool>>, k: int) -> nat
    decreases k,
{
    if k <= 0 {
        0
    } else {
        unmarked(vis, k - 1) + unmarked_row(vis[k - 1])
    }
}

proof fn lemma_unmarked_row_mark(row: Seq<bool>, c: int)
    requires
        0 <= c < row.len(),
        !row[c],
    ensures
        unmarked_row(row.update(c, true)) + 1 == unmarked_row(row),
    decreases row.len(),
{
    if c < row.len() - 1 {
        assert(row.update(c, true).drop_last() =~= row.drop_last().update(c, true));
        lemma_unmarked_row_mark(row.drop_last(), c);
    } else {
        assert(row.update(c, true).drop_last() =~= row.drop_last());
    }
}

proof fn lemma_unmarked_mark(vis: Seq<Seq<bool>>, k: int, r: int, c: int)
    requires
        0 <= r < k <= vis.len(),
        0 <= c < vis[r].len(),
        !vis[r][c],
    ensures
        unmarked(vis.update(r, vis[r].update(c, true)), k) + 1 == unmarked(vis, k),
    decreases k,
{
    let v2 = vis.update(r, vis[r].update(c, true));
    if r < k - 1 {
        lemma_unmarked_mark(vis, k - 1, r, c);
        assert(v2[k - 1] == vis[k - 1]);
    } else {
        lemma_unmarked_same(vis, v2, k - 1);
        lemma_unmarked_row_mark(vis[r], c);
    }
}

proof fn lemma_unmarked_same(a: Seq<Seq<bool>>, b: Seq<Seq<bool>>, k: int)
    requires
        0 <= k <= a.len(),
        k <= b.len(),
        forall|i: int| 0 <= i < k ==> a[i] == b[i],
    ensures
        unmarked(a, k) == unmarked(b, k),
    decreases k,
{
    if k > 0 {
        lemma_unmarked_same(a, b, k - 1);
    }
}

pub open spec fn vis_view(vis: [[bool; COLS]; ROWS]) -> Seq<Seq<bool>> {
    vis@.map_values(|row: [bool; COLS]| row@)
}

/// The four neighbours of a cell that lie inside the grid are pushed.
pub open spec fn pushed_neighbours(before: Seq<(usize, usize)>, after: Seq<(usize, usize)>, p: (
    int,
    int,
)) -> bool {
    &&& before.len() <= after.len()
    &&& forall|i: int| 0 <= i < before.len() ==> after[i] == before[i]
    &&& forall|q: (int, int)| adjacent(p, q) ==> cells(after).contains(q)
    &&& forall|i: int| before.len() <= i < after.len() ==> adjacent(p, #[trigger] cells(after)[i])
}

/// Pushes the in-grid neighbours of `(r, c)`.
fn push_neighbours(stack: &mut Vec<(usize, usize)>, r: usize, c: usize)
    requires
        r < ROWS,
        c < COLS,
    ensures
        pushed_neighbours(old(stack)@, final(stack)@, (r as int, c as int)),
{
    let ghost s0 = stack@;
    if r > 0 {
        stack.push((r - 1, c));
    }
    if r + 1 < ROWS {
        stack.push((r + 1, c));
    }
    if c > 0 {
        stack.push((r, c - 1));
    }
    if c + 1 < COLS {
        stack.push((r, c + 1));
    }
    proof {
        let p = (r as int, c as int);
        let cs = cells(stack@);
        assert forall|q: (int, int)| adjacent(p, q) implies cs.contains(q) by {
            if q.0 == p.0 - 1 {
                let k = s0.len() as int;
                assert(cs[k] == q);
            } else if q.0 == p.0 + 1 {
                let k = s0.len() + if r > 0 { 1int } else { 0int };
                assert(cs[k] == q);
            } else if q.1 == p.1 - 1 {
                let k = s0.len() + (if r > 0 { 1int } else { 0int }) + (if r + 1 < ROWS { 1int } else { 0int });
                assert(cs[k] == q);
            } else {
                let k = s0.len() + (if r > 0 { 1int } else { 0int }) + (if r + 1 < ROWS { 1int } else { 0int }) + (if c > 0 { 1int } else { 0int });
                assert(cs[k] == q);
            }
        }
    }
}

/// Every tile on a path through a set that is closed under one-colour
/// neighbours, and that holds the path's first cell, is in the set.
proof fn lemma_closed_path(g: Seq<Seq<u8>>, s: Set<(int, int)>, path: Seq<(int, int)>, k: int)
    requires
        one_colour_path(g, path),
        s.contains(path[0]),
        forall|v: (int, int), n: (int, int)|
            #![trigger s.contains(v), adjacent(v, n)]
            s.contains(v) && adjacent(v, n) && at(g, n) == at(g, path[0]) ==> s.contains(n),
        0 <= k < path.len(),
    ensures
        s.contains(path[k]),
    decreases k,
{
    if k > 0 {
        lemma_closed_path(g, s, path, k - 1);
        assert(adjacent(path[k - 1], path[k]));
        assert(at(g, path[k]) == at(g, path[0]));
    }
}

/// Every cell waiting on the stack is the start or next to a reached cell.
#[verifier::opaque]
pub open spec fn stack_ok(start: (int, int), stack: Seq<(int, int)>, set: Set<(int, int)>) -> bool {
    forall|i: int|
        0 <= i < stack.len() ==> in_grid(#[trigger] stack[i]) && (stack[i] == start || exists|
            v: (int, int),
        | set.contains(v) && adjacent(v, stack[i]))
}

/// Every one-colour neighbour of a reached cell has been reached or waits
/// on the stack.
#[verifier::opaque]
pub open spec fn closed_ok(
    g: Seq<Seq<u8>>,
    start: (int, int),
    stack: Seq<(int, int)>,
    set: Set<(int, int)>,
) -> bool {
    forall|v: (int, int), n: (int, int)|
        #![trigger set.contains(v), adjacent(v, n)]
        set.contains(v) && adjacent(v, n) && at(g, n) == at(g, start) ==> set.contains(n)
            || stack.contains(n)
}

/// What holds at each step of the search from `start`: `set` is what has
/// been reached (marked in `vis`, listed once each in `group`), all of it
/// connected to `start`; every cell waiting on the stack is the start or
/// next to a reached cell; and every one-colour neighbour of a reached cell
/// has been reached or waits on the stack.
pub open spec fn search_inv(
    g: Seq<Seq<u8>>,
    start: (int, int),
    vis: Seq<Seq<bool>>,
    stack: Seq<(int, int)>,
    group: Seq<(int, int)>,
    set: Set<(int, int)>,
) -> bool {
    &&& marks(vis, set)
    &&& group.no_duplicates()
    &&& group.to_set() == set
    &&& forall|v: (int, int)| #[trigger] set.contains(v) ==> connected(g, start, v)
    &&& stack_ok(start, stack, set)
    &&& closed_ok(g, start, stack, set)
    &&& set.contains(start) || stack.contains(start)
}

proof fn lemma_search_skip(
    g: Seq<Seq<u8>>,
    start: (int, int),
    vis: Seq<Seq<bool>>,
    stack: Seq<(int, int)>,
    group: Seq<(int, int)>,
    set: Set<(int, int)>,
)
    requires
        search_inv(g, start, vis, stack, group, set),
        stack.len() > 0,
        set.contains(stack.last()) || at(g, stack.last()) != at(g, start),
    ensures
        search_inv(g, start, vis, stack.drop_last(), group, set),
{
    reveal(stack_ok);
    reveal(closed_ok);
    let rest = stack.drop_last();
    let p = stack.last();
    assert forall|n: (int, int)| stack.contains(n) && n != p implies rest.contains(n) by {
        let i = choose|i: int| 0 <= i < stack.len() && stack[i] == n;
        assert(rest[i] == n);
    }
    assert forall|i: int| 0 <= i < rest.len() implies in_grid(#[trigger] rest[i]) && (rest[i]
        == start || exists|v: (int, int)| set.contains(v) && adjacent(v, rest[i])) by {
        assert(rest[i] == stack[i]);
    }
}

proof fn lemma_visit_connected(
    g: Seq<Seq<u8>>,
    start: (int, int),
    set: Set<(int, int)>,
    p: (int, int),
)
    requires
        forall|v: (int, int)| #[trigger] set.contains(v) ==> connected(g, start, v),
        p == start || exists|v: (int, int)| set.contains(v) && adjacent(v, p),
        at(g, p) == at(g, start),
        in_grid(p),
    ensures
        connected(g, start, p),
{
    if p != start {
        let v = choose|v: (int, int)| set.contains(v) && adjacent(v, p);
        let path = choose|path: Seq<(int, int)>|
            #![trigger one_colour_path(g, path), path.last()]
            one_colour_path(g, path) && path[0] == start && path.last() == v;
        let path2 = path.push(p);
        assert(path2[0] == start);
        assert forall|i: int| 0 <= i < path2.len() - 1 implies adjacent(
            #[trigger] path2[i],
            path2[i + 1],
        ) by {
            if i < path.len() - 1 {
                assert(adjacent(path[i], path[i + 1]));
            }
        }
        assert(one_colour_path(g, path2));
        assert(path2.last() == p);
    } else {
        let path = seq![start];
        assert(one_colour_path(g, path));
        assert(path.last() == p);
    }
}

proof fn lemma_visit_group(group: Seq<(int, int)>, set: Set<(int, int)>, p: (int, int))
    requires
        group.no_duplicates(),
        group.to_set() == set,
        !set.contains(p),
    ensures
        group.push(p).no_duplicates(),
        group.push(p).to_set() == set.insert(p),
{
    let group2 = group.push(p);
    assert(!group.contains(p));
    assert(group2.to_set() =~= set.insert(p)) by {
        assert forall|q: (int, int)| group2.contains(q) <==> set.insert(p).contains(q) by {
            if group2.contains(q) && q != p {
                let i = choose|i: int| 0 <= i < group2.len() && group2[i] == q;
                assert(group[i] == q);
            }
            if q == p {
                assert(group2[group.len() as int] == p);
            } else if group.contains(q) {
                let i = choose|i: int| 0 <= i < group.len() && group[i] == q;
                assert(group2[i] == q);
            }
        }
    }
}

proof fn lemma_visit_marks(vis: Seq<Seq<bool>>, set: Set<(int, int)>, p: (int, int))
    requires
        marks(vis, set),
        in_grid(p),
        !set.contains(p),
    ensures
        marks(vis.update(p.0, vis[p.0].update(p.1, true)), set.insert(p)),
        unmarked(vis.update(p.0, vis[p.0].update(p.1, true)), 6) + 1 == unmarked(vis, 6),
{
    let vis2 = vis.update(p.0, vis[p.0].update(p.1, true));
    let set2 = set.insert(p);
    assert forall|r: int| 0 <= r < ROWS implies (#[trigger] vis2[r]).len() == COLS by {}
    assert forall|r: int, c: int| 0 <= r < ROWS && 0 <= c < COLS implies (#[trigger] vis2[r][c]
        <==> set2.contains((r, c))) by {}
    assert(!vis[p.0][p.1]);
    lemma_unmarked_mark(vis, 6, p.0, p.1);
}

proof fn lemma_visit_stack(
    start: (int, int),
    stack: Seq<(int, int)>,
    set: Set<(int, int)>,
    after: Seq<(int, int)>,
)
    requires
        stack_ok(start, stack, set),
        stack.len() > 0,
        stack.drop_last().len() <= after.len(),
        forall|i: int| 0 <= i < stack.len() - 1 ==> #[trigger] after[i] == stack[i],
        forall|i: int| stack.len() - 1 <= i < after.len() ==> adjacent(stack.last(), #[trigger] after[i]),
    ensures
        stack_ok(start, after, set.insert(stack.last())),
{
    reveal(stack_ok);
    let p = stack.last();
    let set2 = set.insert(p);
    assert forall|i: int| 0 <= i < after.len() implies in_grid(#[trigger] after[i]) && (after[i]
        == start || exists|v: (int, int)| set2.contains(v) && adjacent(v, after[i])) by {
        if i < stack.len() - 1 {
            assert(after[i] == stack[i]);
            assert(in_grid(stack[i]));
            if stack[i] != start {
                let v = choose|v: (int, int)| set.contains(v) && adjacent(v, stack[i]);
                assert(set2.contains(v));
            }
        } else {
            assert(adjacent(p, after[i]));
            assert(set2.contains(p));
        }
    }
}

proof fn lemma_visit_closed(
    g: Seq<Seq<u8>>,
    start: (int, int),
    stack: Seq<(int, int)>,
    set: Set<(int, int)>,
    after: Seq<(int, int)>,
)
    requires
        closed_ok(g, start, stack, set),
        stack.len() > 0,
        stack.len() - 1 <= after.len(),
        forall|i: int| 0 <= i < stack.len() - 1 ==> #[trigger] after[i] == stack[i],
        forall|q: (int, int)| adjacent(stack.last(), q) ==> after.contains(q),
    ensures
        closed_ok(g, start, after, set.insert(stack.last())),
{
    reveal(closed_ok);
    let p = stack.last();
    let set2 = set.insert(p);
    assert(stack[stack.len() - 1] == p);
    assert forall|n: (int, int)| stack.contains(n) && n != p implies after.contains(n) by {
        let i = choose|i: int| 0 <= i < stack.len() && stack[i] == n;
        assert(i < stack.len() - 1);
        assert(after[i] == stack[i]);
        assert(after[i] == n);
    }
    assert forall|v: (int, int), n: (int, int)|
        #![trigger set2.contains(v), adjacent(v, n)]
        set2.contains(v) && adjacent(v, n) && at(g, n) == at(g, start) implies set2.contains(n)
            || after.contains(n) by {
        if v == p {
            assert(after.contains(n));
        } else {
            assert(set.contains(v));
        }
    }
}

proof fn lemma_search_visit(
    g: Seq<Seq<u8>>,
    start: (int, int),
    vis: Seq<Seq<bool>>,
    stack: Seq<(int, int)>,
    group: Seq<(int, int)>,
    set: Set<(int, int)>,
    after: Seq<(int, int)>,
)
    requires
        search_inv(g, start, vis, stack, group, set),
        at(g, start) != 0,
        in_grid(start),
        stack.len() > 0,
        !set.contains(stack.last()),
        at(g, stack.last()) == at(g, start),
        stack.drop_last().len() <= after.len(),
        forall|i: int| 0 <= i < stack.len() - 1 ==> #[trigger] after[i] == stack[i],
        forall|q: (int, int)| adjacent(stack.last(), q) ==> after.contains(q),
        forall|i: int| stack.len() - 1 <= i < after.len() ==> adjacent(stack.last(), #[trigger] after[i]),
    ensures
        search_inv(
            g,
            start,
            vis.update(stack.last().0, vis[stack.last().0].update(stack.last().1, true)),
            after,
            group.push(stack.last()),
            set.insert(stack.last()),
        ),
        unmarked(vis.update(stack.last().0, vis[stack.last().0].update(stack.last().1, true)), 6) + 1
            == unmarked(vis, 6),
{
    let p = stack.last();
    assert(stack[stack.len() - 1] == p);
    assert(in_grid(p) && (p == start || exists|v: (int, int)| set.contains(v) && adjacent(v, p))) by {
        reveal(stack_ok);
    }
    lemma_visit_connected(g, start, set, p);
    lemma_visit_marks(vis, set, p);
    lemma_visit_group(group, set, p);
    lemma_visit_stack(start, stack, set, after);
    lemma_visit_closed(g, start, stack, set, after);
    let set2 = set.insert(p);
    assert forall|v: (int, int)| #[trigger] set2.contains(v) implies connected(g, start, v) by {
        if v != p {
            assert(set.contains(v));
        }
    }
    if !set.contains(start) && start != p {
        let i = choose|i: int| 0 <= i < stack.len() && stack[i] == start;
        assert(i < stack.len() - 1);
        assert(after[i] == stack[i]);
        assert(after.contains(start));
    }
}

/// The cells connected to `(row, col)` through tiles of its colour (none
/// for an empty cell), each once, in the order a depth-first search visits
/// them.
pub fn find_group(grid: &[[u8; COLS]; ROWS], row: usize, col: usize) -> (r: Vec<(usize, usize)>)
    requires
        row < ROWS,
        col < COLS,
    ensures
        cells(r@).no_duplicates(),
        cells(r@).to_set() == group_of(gv(*grid), (row as int, col as int)),
{
    let ghost g = gv(*grid);
    let ghost start = (row as int, col as int);
    let color = grid[row][col];
    if color == 0 {
        let r: Vec<(usize, usize)> = Vec::new();
        assert(cells(r@).to_set() =~= Set::<(int, int)>::empty());
        return r;
    }
    let mut visited = [[false; 8]; 6];
    let mut stack: Vec<(usize, usize)> = Vec::new();
    stack.push((row, col));
    let mut group: Vec<(usize, usize)> = Vec::new();
    let ghost mut set: Set<(int, int)> = Set::empty();
    proof {
        assert(cells(stack@)[0] == start);
        assert(cells(group@) =~= Seq::<(int, int)>::empty());
        assert(cells(group@).to_set() =~= set);
        reveal(stack_ok);
        reveal(closed_ok);
        assert(search_inv(g, start, vis_view(visited), cells(stack@), cells(group@), set));
    }
    while stack.len() > 0
        invariant
            g == gv(*grid),
            start == (row as int, col as int),
            row < ROWS && col < COLS,
            color == at(g, start),
            color != 0,
            search_inv(g, start, vis_view(visited), cells(stack@), cells(group@), set),
        decreases unmarked(vis_view(visited), 6), stack@.len(),
    {
        let ghost st0 = cells(stack@);
        let (r, c) = stack.pop().unwrap();
        let ghost p = (r as int, c as int);
        proof {
            assert(st0.last() == p);
            assert(cells(stack@) =~= st0.drop_last());
            reveal(stack_ok);
            assert(in_grid(st0[st0.len() - 1]));
        }
        if visited[r][c] {
            proof {
                assert(vis_view(visited)[r as int][c as int]);
                lemma_search_skip(g, start, vis_view(visited), st0, cells(group@), set);
            }
            continue;
        }
        if grid[r][c] != color {
            proof {
                lemma_search_skip(g, start, vis_view(visited), st0, cells(group@), set);
            }
            continue;
        }
        let ghost vis0 = vis_view(visited);
        let ghost group0 = cells(group@);
        visited[r][c] = true;
        group.push((r, c));
        push_neighbours(&mut stack, r, c);
        proof {
            assert(vis_view(visited) =~= vis0.update(p.0, vis0[p.0].update(p.1, true)));
            assert(cells(group@) =~= group0.push(p));
            let after = cells(stack@);
            assert forall|i: int| 0 <= i < st0.len() - 1 implies after[i] == st0[i] by {}
            lemma_search_visit(g, start, vis0, st0, group0, set, after);
            set = set.insert(p);
        }
    }
    proof {
        reveal(closed_ok);
        assert(set.contains(start));
        assert forall|q: (int, int)| #[trigger] set.contains(q) == group_of(g, start).contains(q) by {
            if group_of(g, start).contains(q) {
                let path = choose|path: Seq<(int, int)>|
                    #![trigger one_colour_path(g, path), path.last()]
                    one_colour_path(g, path) && path[0] == start && path.last() == q;
                lemma_closed_path(g, set, path, path.len() - 1);
            }
        }
        assert(set =~= group_of(g, start));
    }
    group
}


// ── Groups of two or more ──────────────────────────────────────────────────

/// Two side-by-side tiles of one colour: some group can be removed.
pub open spec fn has_pair(g: Seq<Seq<u8>>) -> bool {
    exists|a: (int, int), b: (int, int)|
        #![trigger adjacent(a, b)]
        adjacent(a, b) && at(g, a) != 0 && at(g, a) == at(g, b)
}

/// A tile with a neighbour of its colour.
pub open spec fn has_twin(g: Seq<Seq<u8>>, p: (int, int)) -> bool {
    exists|n: (int, int)| #![trigger adjacent(p, n)] adjacent(p, n) && at(g, n) == at(g, p)
}

/// A tile's group has two or more tiles exactly when the tile has a
/// neighbour of its colour.
proof fn lemma_group_two(g: Seq<Seq<u8>>, p: (int, int), v: Seq<(int, int)>)
    requires
        in_grid(p),
        at(g, p) != 0,
        v.no_duplicates(),
        v.to_set() == group_of(g, p),
    ensures
        (v.len() >= 2) == has_twin(g, p),
{
    let path0 = seq![p];
    assert(one_colour_path(g, path0) && path0.last() == p);
    assert(group_of(g, p).contains(p));
    if v.len() >= 2 {
        let q = if v[0] != p {
            v[0]
        } else {
            v[1]
        };
        assert(v.contains(q));
        assert(v.to_set().contains(q));
        assert(q != p);
        let path = choose|path: Seq<(int, int)>|
            #![trigger one_colour_path(g, path), path.last()]
            one_colour_path(g, path) && path[0] == p && path.last() == q;
        assert(path.len() >= 2);
        assert(adjacent(path[0], path[1]));
        assert(at(g, path[1]) == at(g, path[0]));
        assert(adjacent(p, path[1]) && at(g, path[1]) == at(g, p));
    }
    if has_twin(g, p) {
        let n = choose|n: (int, int)| #![trigger adjacent(p, n)] adjacent(p, n) && at(g, n) == at(g, p);
        let path = seq![p, n];
        assert(one_colour_path(g, path) && path.last() == n);
        assert(group_of(g, p).contains(n));
        assert(v.contains(n) && v.contains(p));
        let i = choose|i: int| 0 <= i < v.len() && v[i] == n;
        let j = choose|j: int| 0 <= j < v.len() && v[j] == p;
        assert(i != j);
    }
}

/// Whether some group of two or more tiles can be removed.
pub fn has_valid_group(grid: &[[u8; COLS]; ROWS]) -> (r: bool)
    ensures
        r == has_pair(gv(*grid)),
{
    let ghost g = gv(*grid);
    let mut r: usize = 0;
    while r < ROWS
        invariant
            r <= ROWS,
            g == gv(*grid),
            forall|q: (int, int)|
                in_grid(q) && q.0 < r && at(g, q) != 0 ==> !has_twin(g, q),
        decreases ROWS - r,
    {
        let mut c: usize = 0;
        while c < COLS
            invariant
                r < ROWS,
                c <= COLS,
                g == gv(*grid),
                forall|q: (int, int)|
                    in_grid(q) && (q.0 < r || (q.0 == r && q.1 < c)) && at(g, q) != 0 ==> !has_twin(
                        g,
                        q,
                    ),
            decreases COLS - c,
        {
            if grid[r][c] != 0 {
                let group = find_group(grid, r, c);
                proof {
                    lemma_group_two(g, (r as int, c as int), cells(group@));
                }
                if group.len() >= MIN_GROUP {
                    proof {
                        let p = (r as int, c as int);
                        let n = choose|n: (int, int)| #![trigger adjacent(p, n)] adjacent(p, n) && at(g, n) == at(g, p);
                        assert(adjacent(p, n) && at(g, p) != 0 && at(g, p) == at(g, n));
                    }
                    return true;
                }
            }
            c = c + 1;
        }
        r = r + 1;
    }
    proof {
        if has_pair(g) {
            let (a, b) = choose|a: (int, int), b: (int, int)|
                #![trigger adjacent(a, b)]
                adjacent(a, b) && at(g, a) != 0 && at(g, a) == at(g, b);
            assert(has_twin(g, a));
        }
    }
    false
}

/// Every cell is empty.
pub open spec fn all_empty(g: Seq<Seq<u8>>) -> bool {
    forall|p: (int, int)| in_grid(p) ==> #[trigger] at(g, p) == 0
}

/// Whether every cell is empty.
pub fn grid_is_empty(grid: &[[u8; COLS]; ROWS]) -> (r: bool)
    ensures
        r == all_empty(gv(*grid)),
{
    let ghost g = gv(*grid);
    let mut r: usize = 0;
    while r < ROWS
        invariant
            r <= ROWS,
            g == gv(*grid),
            forall|q: (int, int)| in_grid(q) && q.0 < r ==> #[trigger] at(g, q) == 0,
        decreases ROWS - r,
    {
        let mut c: usize = 0;
        while c < COLS
            invariant
                r < ROWS,
                c <= COLS,
                g == gv(*grid),
                forall|q: (int, int)|
                    in_grid(q) && (q.0 < r || (q.0 == r && q.1 < c)) ==> #[trigger] at(g, q) == 0,
            decreases COLS - c,
        {
            if grid[r][c] != 0 {
                assert(at(g, (r as int, c as int)) != 0);
                return false;
            }
            c = c + 1;
        }
        r = r + 1;
    }
    true
}


// ── Gravity and tile counts ────────────────────────────────────────────────

/// Column `c`, top first.
pub open spec fn column(g: Seq<Seq<u8>>, c: int) -> Seq<u8> {
    Seq::new(ROWS as nat, |r: int| g[r][c])
}

/// The tiles of a column, top first, without the empty cells.
pub open spec fn nonzeros(s: Seq<u8>) -> Seq<u8>
    decreases s.len(),
{
    if s.len() == 0 {
        Seq::empty()
    } else {
        nonzeros(s.drop_last()) + if s.last() != 0 {
            seq![s.last()]
        } else {
            Seq::empty()
        }
    }
}

/// A column after its tiles fell: empty cells on top, then the tiles in
/// their order.
pub open spec fn settled(s: Seq<u8>) -> Seq<u8> {
    Seq::new((s.len() - nonzeros(s).len()) as nat, |i: int| 0u8) + nonzeros(s)
}

/// The grid after every column's tiles fell.
pub open spec fn fallen(g: Seq<Seq<u8>>) -> Seq<Seq<u8>> {
    Seq::new(ROWS as nat, |r: int| Seq::new(COLS as nat, |c: int| settled(column(g, c))[r]))
}

/// The tiles on the grid, counted column by column over the first `k`
/// columns.
pub open spec fn tiles_in(g: Seq<Seq<u8>>, k: int) -> nat
    decreases k,
{
    if k <= 0 {
        0
    } else {
        tiles_in(g, k - 1) + nonzeros(column(g, k - 1)).len()
    }
}

/// How many tiles are on the grid.
pub open spec fn tile_count(g: Seq<Seq<u8>>) -> nat {
    tiles_in(g, COLS as int)
}

pub proof fn lemma_nonzeros_len(s: Seq<u8>)
    ensures
        nonzeros(s).len() <= s.len(),
    decreases s.len(),
{
    if s.len() > 0 {
        lemma_nonzeros_len(s.drop_last());
    }
}

proof fn lemma_nonzeros_clear(s: Seq<u8>, r: int)
    requires
        0 <= r < s.len(),
        s[r] != 0,
    ensures
        nonzeros(s.update(r, 0)).len() + 1 == nonzeros(s).len(),
    decreases s.len(),
{
    let t = s.update(r, 0);
    if r < s.len() - 1 {
        assert(t.drop_last() =~= s.drop_last().update(r, 0));
        lemma_nonzeros_clear(s.drop_last(), r);
    } else {
        assert(t.drop_last() =~= s.drop_last());
    }
}

proof fn lemma_nonzeros_concat(a: Seq<u8>, b: Seq<u8>)
    ensures
        nonzeros(a + b) == nonzeros(a) + nonzeros(b),
    decreases b.len(),
{
    if b.len() == 0 {
        assert(a + b =~= a);
        assert(nonzeros(a) + nonzeros(b) =~= nonzeros(a));
    } else {
        assert((a + b).drop_last() =~= a + b.drop_last());
        lemma_nonzeros_concat(a, b.drop_last());
        assert(nonzeros(a + b) =~= nonzeros(a) + nonzeros(b));
    }
}

proof fn lemma_nonzeros_of_zeros(n: nat)
    ensures
        nonzeros(Seq::new(n, |i: int| 0u8)) == Seq::<u8>::empty(),
    decreases n,
{
    if n > 0 {
        assert(Seq::new(n, |i: int| 0u8).drop_last() =~= Seq::new((n - 1) as nat, |i: int| 0u8));
        lemma_nonzeros_of_zeros((n - 1) as nat);
    }
}

proof fn lemma_nonzeros_idempotent(s: Seq<u8>)
    ensures
        nonzeros(nonzeros(s)) == nonzeros(s),
    decreases s.len(),
{
    if s.len() > 0 {
        lemma_nonzeros_idempotent(s.drop_last());
        let tail = if s.last() != 0 {
            seq![s.last()]
        } else {
            Seq::empty()
        };
        lemma_nonzeros_concat(nonzeros(s.drop_last()), tail);
        if s.last() != 0 {
            assert(tail.drop_last() =~= Seq::<u8>::empty());
            assert(nonzeros(tail.drop_last()) =~= Seq::<u8>::empty());
            assert(nonzeros(tail) =~= tail);
        }
    }
}

/// Falling keeps a column's tiles, in order.
pub proof fn lemma_settled_keeps_tiles(s: Seq<u8>)
    ensures
        nonzeros(settled(s)) == nonzeros(s),
        settled(s).len() == s.len(),
{
    lemma_nonzeros_len(s);
    let z = Seq::new((s.len() - nonzeros(s).len()) as nat, |i: int| 0u8);
    lemma_nonzeros_concat(z, nonzeros(s));
    lemma_nonzeros_of_zeros((s.len() - nonzeros(s).len()) as nat);
    lemma_nonzeros_idempotent(s);
    assert(Seq::<u8>::empty() + nonzeros(s) =~= nonzeros(s));
}

proof fn lemma_tiles_in_same(a: Seq<Seq<u8>>, b: Seq<Seq<u8>>, k: int)
    requires
        forall|c: int| 0 <= c < k ==> nonzeros(#[trigger] column(a, c)) == nonzeros(column(b, c)),
    ensures
        tiles_in(a, k) == tiles_in(b, k),
    decreases k,
{
    if k > 0 {
        lemma_tiles_in_same(a, b, k - 1);
    }
}

proof fn lemma_tiles_in_bound(g: Seq<Seq<u8>>, k: int)
    requires
        0 <= k,
    ensures
        tiles_in(g, k) <= ROWS * k,
    decreases k,
{
    if k > 0 {
        lemma_tiles_in_bound(g, k - 1);
        lemma_nonzeros_len(column(g, k - 1));
    }
}

proof fn lemma_tiles_in_clear(a: Seq<Seq<u8>>, b: Seq<Seq<u8>>, k: int, c0: int)
    requires
        0 <= c0 < k,
        nonzeros(column(b, c0)).len() + 1 == nonzeros(column(a, c0)).len(),
        forall|c: int| 0 <= c < k && c != c0 ==> nonzeros(#[trigger] column(a, c)) == nonzeros(column(b, c)),
    ensures
        tiles_in(b, k) + 1 == tiles_in(a, k),
    decreases k,
{
    if c0 < k - 1 {
        lemma_tiles_in_clear(a, b, k - 1, c0);
    } else {
        lemma_tiles_in_same(a, b, k - 1);
    }
}

/// The grid has at most 48 tiles.
pub proof fn lemma_tile_count_bound(g: Seq<Seq<u8>>)
    ensures
        tile_count(g) <= ROWS * COLS,
{
    lemma_tiles_in_bound(g, COLS as int);
}

/// Clearing one tile lowers the count by one.
pub proof fn lemma_clear_one(g: Seq<Seq<u8>>, r: int, c: int)
    requires
        g.len() == ROWS,
        forall|i: int| 0 <= i < ROWS ==> (#[trigger] g[i]).len() == COLS,
        in_grid((r, c)),
        g[r][c] != 0,
    ensures
        tile_count(g.update(r, g[r].update(c, 0))) + 1 == tile_count(g),
{
    let h = g.update(r, g[r].update(c, 0));
    assert(column(h, c) =~= column(g, c).update(r, 0));
    lemma_nonzeros_clear(column(g, c), r);
    assert forall|k: int| 0 <= k < COLS && k != c implies nonzeros(#[trigger] column(g, k))
        == nonzeros(column(h, k)) by {
        assert(column(g, k) =~= column(h, k));
    }
    lemma_tiles_in_clear(g, h, COLS as int, c);
}

/// Lets the tiles of every column fall to the bottom, keeping their order.
pub fn apply_gravity(grid: &mut [[u8; COLS]; ROWS])
    ensures
        forall|c: int| 0 <= c < COLS ==> #[trigger] column(gv(*final(grid)), c) == settled(column(gv(*old(grid)), c)),
        gv(*final(grid)) == fallen(gv(*old(grid))),
        tile_count(gv(*final(grid))) == tile_count(gv(*old(grid))),
{
    let ghost g0 = gv(*grid);
    let mut col: usize = 0;
    while col < COLS
        invariant
            col <= COLS,
            g0.len() == ROWS,
            forall|c: int| 0 <= c < col ==> #[trigger] column(gv(*grid), c) == settled(column(g0, c)),
            forall|c: int| col <= c < COLS ==> #[trigger] column(gv(*grid), c) == column(g0, c),
        decreases COLS - col,
    {
        let ghost before = gv(*grid);
        let mut tiles: Vec<u8> = Vec::new();
        let mut r: usize = 0;
        while r < ROWS
            invariant
                r <= ROWS,
                col < COLS,
                before == gv(*grid),
                tiles@ == nonzeros(column(before, col as int).take(r as int)),
            decreases ROWS - r,
        {
            proof {
                assert(column(before, col as int).take(r + 1).drop_last() =~= column(
                    before,
                    col as int,
                ).take(r as int));
            }
            if grid[r][col] != 0 {
                tiles.push(grid[r][col]);
            }
            r = r + 1;
        }
        let ghost cl = column(before, col as int);
        proof {
            assert(cl.take(ROWS as int) =~= cl);
            lemma_nonzeros_len(cl);
        }
        let empty = ROWS - tiles.len();
        let mut row: usize = 0;
        while row < ROWS
            invariant
                row <= ROWS,
                col < COLS,
                cl == column(before, col as int),
                tiles@ == nonzeros(cl),
                empty == ROWS - tiles@.len(),
                tiles@.len() <= ROWS,
                forall|i: int| 0 <= i < row ==> #[trigger] gv(*grid)[i][col as int] == settled(cl)[i],
                forall|i: int, c: int|
                    0 <= i < ROWS && 0 <= c < COLS && (c != col || i >= row) ==> #[trigger] gv(
                        *grid,
                    )[i][c] == before[i][c],
            decreases ROWS - row,
        {
            let v = if row < empty {
                0
            } else {
                tiles[row - empty]
            };
            let ghost gb = gv(*grid);
            grid[row][col] = v;
            proof {
                assert(gv(*grid) =~= gb.update(row as int, gb[row as int].update(col as int, v)));
                let z = Seq::new((cl.len() - nonzeros(cl).len()) as nat, |i: int| 0u8);
                assert(cl.len() == ROWS);
                assert(z.len() == empty);
                assert(settled(cl) == z + nonzeros(cl));
                if row < empty {
                    assert(settled(cl)[row as int] == z[row as int]);
                } else {
                    assert(settled(cl)[row as int] == nonzeros(cl)[row - empty]);
                }
            }
            row = row + 1;
        }
        proof {
            assert(column(gv(*grid), col as int) =~= settled(cl));
            assert forall|c: int| col < c < COLS implies #[trigger] column(gv(*grid), c) == column(
                g0,
                c,
            ) by {
                assert(column(gv(*grid), c) =~= column(before, c));
            }
            assert forall|c: int| 0 <= c < col implies #[trigger] column(gv(*grid), c) == settled(
                column(g0, c),
            ) by {
                assert(column(gv(*grid), c) =~= column(before, c));
            }
        }
        col = col + 1;
    }
    proof {
        assert forall|c: int| 0 <= c < COLS implies nonzeros(#[trigger] column(gv(*grid), c))
            == nonzeros(column(g0, c)) by {
            lemma_settled_keeps_tiles(column(g0, c));
        }
        lemma_tiles_in_same(gv(*grid), g0, COLS as int);
        assert forall|r: int| 0 <= r < ROWS implies #[trigger] gv(*grid)[r] == fallen(g0)[r] by {
            assert forall|c: int| 0 <= c < COLS implies gv(*grid)[r][c] == fallen(g0)[r][c] by {
                assert(column(gv(*grid), c)[r] == gv(*grid)[r][c]);
            }
            assert(gv(*grid)[r] =~= fallen(g0)[r]);
        }
        assert(gv(*grid) =~= fallen(g0));
    }
}


// ── The game ───────────────────────────────────────────────────────────────

/// The grid with the cells of `s` emptied.
pub open spec fn cleared(g: Seq<Seq<u8>>, s: Set<(int, int)>) -> Seq<Seq<u8>> {
    Seq::new(
        ROWS as nat,
        |r: int| Seq::new(COLS as nat, |c: int| if s.contains((r, c)) { 0u8 } else { g[r][c] }),
    )
}

/// The grid has six rows of eight cells.
pub open spec fn grid_shape(g: Seq<Seq<u8>>) -> bool {
    g.len() == ROWS && forall|i: int| 0 <= i < ROWS ==> (#[trigger] g[i]).len() == COLS
}

/// Two six-by-eight grids with the same cells are equal.
pub proof fn lemma_grid_ext(a: Seq<Seq<u8>>, b: Seq<Seq<u8>>)
    requires
        grid_shape(a),
        grid_shape(b),
        forall|r: int, c: int| 0 <= r < ROWS && 0 <= c < COLS ==> #[trigger] a[r][c] == b[r][c],
    ensures
        a == b,
{
    assert forall|r: int| 0 <= r < ROWS implies #[trigger] a[r] == b[r] by {
        assert(a[r] =~= b[r]);
    }
    assert(a =~= b);
}

/// A game, as values.
pub struct PointsetV {
    pub grid: Seq<Seq<u8>>,
    pub score: nat,
    pub is_over: bool,
    pub initialized: bool,
}

/// The game is over when the grid is empty or no group can be removed.
pub open spec fn game_over_spec(s: PointsetV) -> PointsetV {
    if all_empty(s.grid) || !has_pair(s.grid) {
        PointsetV { is_over: true, ..s }
    } else {
        s
    }
}

/// A click on cell (`row`, `col`): a group of two or more tiles is removed,
/// the tiles above fall, the score grows by the square of the group's size,
/// and the game may end; a smaller group is refused.
pub open spec fn click_spec(s: PointsetV, row: int, col: int) -> (PointsetV, Option<Seq<char>>) {
    let grp = group_of(s.grid, (row, col));
    if grp.len() >= MIN_GROUP {
        let k = grp.len();
        let g2 = fallen(cleared(s.grid, grp));
        (game_over_spec(PointsetV { grid: g2, score: s.score + k * k, ..s }), None)
    } else {
        (s, Some("Grupo muito pequeno"@))
    }
}

/// A click at column `x`, row `y`: played when both are given and inside
/// the grid, ignored otherwise.
pub open spec fn click_at(s: PointsetV, x: Option<u64>, y: Option<u64>) -> (
    PointsetV,
    Option<Seq<char>>,
) {
    match (x, y) {
        (Some(cx), Some(ry)) => if (cx as usize) < COLS && (ry as usize) < ROWS {
            click_spec(s, ry as usize as int, cx as usize as int)
        } else {
            (s, None)
        },
        _ => (s, None),
    }
}

/// A fresh game dealt from `seed`.
pub open spec fn dealt(seed: u64) -> PointsetV {
    PointsetV {
        grid: init_spec(start_state(seed), u64::MAX as nat),
        score: 0,
        is_over: false,
        initialized: true,
    }
}

/// One request: the first deals the grid; a "click" is played while the
/// game is not over; anything else changes nothing.
pub open spec fn process_spec(
    s: PointsetV,
    action: Seq<char>,
    x: Option<u64>,
    y: Option<u64>,
    seed: u64,
) -> (PointsetV, Option<Seq<char>>) {
    let s1 = if !s.initialized {
        dealt(seed)
    } else {
        s
    };
    if action == "click"@ && !s1.is_over {
        click_at(s1, x, y)
    } else {
        (s1, None)
    }
}

pub open spec fn msg_view(m: Option<&'static str>) -> Option<Seq<char>> {
    match m {
        Some(e) => Some(e@),
        None => None,
    }
}

/// `n` colours drawn from the generator from state `rng`, each 1 to 5,
/// and the state after.
pub open spec fn draws(rng: u64, n: nat) -> (Seq<u8>, u64)
    decreases n,
{
    if n == 0 {
        (Seq::empty(), rng)
    } else {
        let (s, r) = draws(rng, (n - 1) as nat);
        let r2 = xorshift_step(r);
        (s.push((r2 % 5 + 1) as u8), r2)
    }
}

/// A grid filled row by row with 48 draws, and the generator's state after.
pub open spec fn fill_spec(rng: u64) -> (Seq<Seq<u8>>, u64) {
    let (d, r) = draws(rng, (ROWS * COLS) as nat);
    (Seq::new(ROWS as nat, |i: int| d.subrange(i * 8, i * 8 + 8)), r)
}

/// Grids are filled until one has a group to remove, at most `tries + 1`
/// times.
pub open spec fn init_spec(rng: u64, tries: nat) -> Seq<Seq<u8>>
    decreases tries,
{
    let (g, r) = fill_spec(rng);
    if has_pair(g) || tries == 0 {
        g
    } else {
        init_spec(r, (tries - 1) as nat)
    }
}

/// The generator's starting state for a seed (zero is replaced).
pub open spec fn start_state(seed: u64) -> u64 {
    if seed == 0 {
        0xdeadbeef_cafebabe
    } else {
        seed
    }
}

/// Every cell holds a colour from 1 to 5.
pub open spec fn all_coloured(g: Seq<Seq<u8>>) -> bool {
    forall|p: (int, int)| in_grid(p) ==> 1 <= #[trigger] at(g, p) <= 5
}

proof fn lemma_draws_prefix(rng: u64, n: nat, m: nat)
    requires
        m <= n,
    ensures
        draws(rng, n).0.len() == n,
        draws(rng, n).0.take(m as int) == draws(rng, m).0,
        forall|i: int| 0 <= i < n ==> 1 <= #[trigger] draws(rng, n).0[i] <= 5,
    decreases n,
{
    if n > 0 {
        lemma_draws_prefix(rng, (n - 1) as nat, if m == n {
            (n - 1) as nat
        } else {
            m
        });
        let (s, r) = draws(rng, (n - 1) as nat);
        let r2 = xorshift_step(r);
        assert((r2 % 5 + 1) as u8 >= 1 && (r2 % 5 + 1) as u8 <= 5);
        if m == n {
            assert(draws(rng, n).0.take(m as int) =~= draws(rng, n).0);
        } else {
            assert(draws(rng, n).0.take(m as int) =~= s.take(m as int));
        }
    }
}

/// A step of the xorshift64 generator (without the zero-state guard).
pub fn xorshift64(state: &mut u64) -> (r: u64)
    ensures
        r == xorshift_step(*old(state)),
        *final(state) == r,
{
    let mut x = *state;
    x = x ^ (x << 13u64);
    x = x ^ (x >> 7u64);
    x = x ^ (x << 17u64);
    *state = x;
    x
}

/// Fills the grid row by row with colours drawn from `rng`.
fn fill_grid(grid: &mut [[u8; COLS]; ROWS], rng: &mut u64)
    ensures
        (gv(*final(grid)), *final(rng)) == fill_spec(*old(rng)),
{
    let ghost r0 = *rng;
    let ghost d = draws(r0, 48).0;
    proof {
        lemma_draws_prefix(r0, 48, 0);
    }
    let mut r: usize = 0;
    while r < ROWS
        invariant
            r <= ROWS,
            d == draws(r0, 48).0,
            d.len() == 48,
            *rng == draws(r0, (r * 8) as nat).1,
            forall|i: int, j: int|
                0 <= i < r && 0 <= j < COLS ==> #[trigger] gv(*grid)[i][j] == d[i * 8 + j],
        decreases ROWS - r,
    {
        let mut c: usize = 0;
        while c < COLS
            invariant
                r < ROWS,
                c <= COLS,
                d == draws(r0, 48).0,
                d.len() == 48,
                *rng == draws(r0, (r * 8 + c) as nat).1,
                forall|i: int, j: int|
                    (0 <= i < r && 0 <= j < COLS) || (i == r && 0 <= j < c) ==> #[trigger] gv(
                        *grid,
                    )[i][j] == d[i * 8 + j],
            decreases COLS - c,
        {
            let ghost gb = gv(*grid);
            let x = xorshift64(rng);
            let v = (x % 5 + 1) as u8;
            grid[r][c] = v;
            proof {
                let k = (r * 8 + c) as nat;
                lemma_draws_prefix(r0, 48, k + 1);
                assert(draws(r0, 48).0.take(k + 1 as int) == draws(r0, k + 1).0);
                assert(d[k as int] == draws(r0, 48).0.take(k + 1 as int)[k as int]);
                assert(gv(*grid) =~= gb.update(r as int, gb[r as int].update(c as int, v)));
            }
            c = c + 1;
        }
        r = r + 1;
    }
    proof {
        lemma_draws_prefix(r0, 48, 48);
        let fs = fill_spec(r0).0;
        assert forall|i: int| 0 <= i < ROWS implies #[trigger] gv(*grid)[i] == fs[i] by {
            assert(gv(*grid)[i] =~= d.subrange(i * 8, i * 8 + 8));
        }
        assert(gv(*grid) =~= fs);
    }
}

/// A game of pointset.
#[derive(Clone, Copy, Debug)]
pub struct PointsetSession {
    /// Row-major, row 0 on top; 0 is an empty cell.
    pub grid: [[u8; COLS]; ROWS],
    pub score: u32,
    pub is_over: bool,
    pub initialized: bool,
}

impl View for PointsetSession {
    type V = PointsetV;

    open spec fn view(&self) -> PointsetV {
        PointsetV {
            grid: gv(self.grid),
            score: self.score as nat,
            is_over: self.is_over,
            initialized: self.initialized,
        }
    }
}

/// The score can still grow by the square of every tile left: it never
/// overflows.
pub open spec fn score_fits(s: PointsetV) -> bool {
    s.score + tile_count(s.grid) * tile_count(s.grid) <= u32::MAX
}

impl Default for PointsetSession {
    /// An empty grid, not yet dealt.
    fn default() -> (s: Self)
        ensures
            s@.grid == Seq::new(ROWS as nat, |r: int| Seq::new(COLS as nat, |c: int| 0u8)),
            s@.score == 0,
            !s@.is_over,
            !s@.initialized,
    {
        let s = PointsetSession { grid: [[0u8; 8]; 6], score: 0, is_over: false, initialized: false };
        assert(s@.grid =~= Seq::new(ROWS as nat, |r: int| Seq::new(COLS as nat, |c: int| 0u8))) by {
            assert forall|r: int| 0 <= r < ROWS implies #[trigger] s@.grid[r] =~= Seq::new(
                COLS as nat,
                |c: int| 0u8,
            ) by {}
        }
        s
    }
}

impl PointsetSession {
    /// Deals a grid from the generator seeded by `seed` (zero is replaced),
    /// redealing until some group can be removed; the score starts at 0.
    pub fn initialize(&mut self, seed: u64)
        ensures
            final(self)@.grid == init_spec(start_state(seed), u64::MAX as nat),
            all_coloured(final(self)@.grid),
            final(self)@.score == 0,
            !final(self)@.is_over,
            final(self)@.initialized,
            score_fits(final(self)@),
    {
        let mut rng = seed;
        if rng == 0 {
            rng = 0xdeadbeef_cafebabe;
        }
        let mut tries: u64 = u64::MAX;
        let ghost r0 = rng;
        loop
            invariant_except_break
                init_spec(rng, tries as nat) == init_spec(r0, u64::MAX as nat),
            ensures
                gv(self.grid) == init_spec(r0, u64::MAX as nat),
                all_coloured(gv(self.grid)),
            decreases tries,
        {
            let ghost rb = rng;
            fill_grid(&mut self.grid, &mut rng);
            proof {
                lemma_draws_prefix(rb, 48, 48);
                assert forall|p: (int, int)| in_grid(p) implies 1 <= #[trigger] at(gv(self.grid), p)
                    <= 5 by {
                    let d = draws(rb, 48).0;
                    assert(gv(self.grid)[p.0] == d.subrange(p.0 * 8, p.0 * 8 + 8));
                    assert(d[p.0 * 8 + p.1] == gv(self.grid)[p.0][p.1]);
                }
            }
            if has_valid_group(&self.grid) {
                break;
            }
            if tries == 0 {
                break;
            }
            tries = tries - 1;
        }
        self.score = 0;
        self.is_over = false;
        self.initialized = true;
        proof {
            lemma_tile_count_bound(gv(self.grid));
            let t = tile_count(gv(self.grid));
            assert(t * t <= 48 * 48) by (nonlinear_arith)
                requires
                    t <= 48,
            ;
        }
    }

    /// Ends the game when the grid is empty or no group can be removed.
    pub fn check_game_over(&mut self)
        ensures
            final(self)@ == game_over_spec(old(self)@),
    {
        if grid_is_empty(&self.grid) || !has_valid_group(&self.grid) {
            self.is_over = true;
        }
    }

    /// A click at column `x`, row `y` (when both are given and inside the
    /// grid): a group of two or more tiles is removed and scores the square
    /// of its size; a smaller group is refused with "Grupo muito pequeno".
    pub fn click(&mut self, x: Option<u64>, y: Option<u64>) -> (err: Option<&'static str>)
        requires
            score_fits(old(self)@),
        ensures
            score_fits(final(self)@),
            (final(self)@, msg_view(err)) == click_at(old(self)@, x, y),
    {
        let (col, row) = match (x, y) {
            (Some(a), Some(b)) => (a as usize, b as usize),
            _ => {
                return None;
            },
        };
        if !(col < COLS && row < ROWS) {
            return None;
        }
        let ghost g0 = gv(self.grid);
        let ghost start = (row as int, col as int);
        let group = find_group(&self.grid, row, col);
        let ghost gs = cells(group@);
        proof {
            gs.unique_seq_to_set();
        }
        if group.len() >= MIN_GROUP {
            let ghost grp = group_of(g0, start);
            let mut i: usize = 0;
            proof {
                assert(gs.take(0).to_set() =~= Set::<(int, int)>::empty());
                lemma_grid_ext(gv(self.grid), cleared(g0, Set::empty()));
            }
            while i < group.len()
                invariant
                    i <= group@.len(),
                    gs == cells(group@),
                    gs.no_duplicates(),
                    gs.to_set() == grp,
                    grp == group_of(g0, start),
                    in_grid(start),
                    at(g0, start) != 0,
                    grid_shape(g0),
                    gv(self.grid) == cleared(g0, gs.take(i as int).to_set()),
                    tile_count(gv(self.grid)) + i == tile_count(g0),
                    self.score == old(self).score,
                    self.is_over == old(self).is_over,
                    self.initialized == old(self).initialized,
                    g0 == old(self)@.grid,
                    score_fits(old(self)@),
                decreases group@.len() - i,
            {
                let (r, c) = group[i];
                let ghost p = (r as int, c as int);
                let ghost gb = gv(self.grid);
                proof {
                    assert(gs[i as int] == p);
                    assert(gs.to_set().contains(p));
                    let path = choose|path: Seq<(int, int)>|
                        #![trigger one_colour_path(g0, path), path.last()]
                        one_colour_path(g0, path) && path[0] == start && path.last() == p;
                    assert(in_grid(path[path.len() - 1]));
                    assert(at(g0, p) == at(g0, start));
                    assert(!gs.take(i as int).to_set().contains(p)) by {
                        if gs.take(i as int).contains(p) {
                            let j = choose|j: int| 0 <= j < i && gs.take(i as int)[j] == p;
                            assert(gs[j] == gs[i as int]);
                        }
                    }
                    assert(gb[r as int][c as int] != 0);
                    lemma_clear_one(gb, r as int, c as int);
                }
                self.grid[r][c] = 0;
                proof {
                    let t0 = gs.take(i as int);
                    let t1 = gs.take(i + 1);
                    assert(t1 =~= t0.push(p));
                    assert(t1.to_set() =~= t0.to_set().insert(p)) by {
                        assert forall|q: (int, int)| t1.contains(q) <==> t0.to_set().insert(p).contains(q) by {
                            if t1.contains(q) && q != p {
                                let j = choose|j: int| 0 <= j < t1.len() && t1[j] == q;
                                assert(t0[j] == q);
                            }
                            if t0.contains(q) {
                                let j = choose|j: int| 0 <= j < t0.len() && t0[j] == q;
                                assert(t1[j] == q);
                            }
                            if q == p {
                                assert(t1[i as int] == p);
                            }
                        }
                    }
                    assert(gv(self.grid) =~= gb.update(r as int, gb[r as int].update(c as int, 0)));
                    lemma_grid_ext(gv(self.grid), cleared(g0, t1.to_set()));
                }
                i = i + 1;
            }
            let ghost k = group@.len();
            let ghost tc = tile_count(g0);
            proof {
                assert(gs.take(k as int) =~= gs);
                assert(grp.len() == k);
                let sc = self.score as int;
                assert(sc + k * k + (tc - k) * (tc - k) <= sc + tc * tc) by (nonlinear_arith)
                    requires
                        k <= tc,
                ;
                assert((tc - k) * (tc - k) >= 0) by (nonlinear_arith);
                lemma_tile_count_bound(g0);
                assert(k * k <= 48 * 48) by (nonlinear_arith)
                    requires
                        k <= 48,
                ;
            }
            let sz = group.len() as u32;
            self.score = self.score + sz * sz;
            apply_gravity(&mut self.grid);
            self.check_game_over();
            None
        } else {
            Some("Grupo muito pequeno")
        }
    }

    /// One request: the first one deals the grid (from `seed`); a "click" at
    /// column `x`, row `y` is played while the game is not over.
    pub fn process_action(&mut self, action: &str, x: Option<u64>, y: Option<u64>, seed: u64) -> (err:
        Option<&'static str>)
        requires
            old(self)@.initialized ==> score_fits(old(self)@),
        ensures
            score_fits(final(self)@),
            (final(self)@, msg_view(err)) == process_spec(old(self)@, action@, x, y, seed),
    {
        if !self.initialized {
            self.initialize(seed);
        }
        if str_eq(action, "click") && !self.is_over {
            return self.click(x, y);
        }
        None
    }
}

/// What a pointset request says, as `serde_json` reads it: its `action`
/// (empty when missing or not a string), and its `x` and `y` when they are
/// unsigned integers (all empty and absent for text that is not JSON).
pub uninterp spec fn pointset_request_of(input: Seq<char>) -> (Seq<char>, Option<u64>, Option<u64>);

/// `serde_json::from_str::<serde_json::Value>` of the request, then its
/// `action` string and its `x` and `y` numbers. The contract names the
/// result [`pointset_request_of`].
#[verifier::external_body]
fn parse_pointset_request(input: &str) -> (r: (String, Option<u64>, Option<u64>))
    ensures
        (r.0@, r.1, r.2) == pointset_request_of(input@),
{
    let v: Option<serde_json::Value> = serde_json::from_str(input).ok();
    let action = v.as_ref().and_then(|v| v.get("action")).and_then(|a| a.as_str()).unwrap_or("");
    let x = v.as_ref().and_then(|v| v.get("x")).and_then(|n| n.as_u64());
    let y = v.as_ref().and_then(|v| v.get("y")).and_then(|n| n.as_u64());
    (action.to_string(), x, y)
}

impl PointsetSession {
    /// One request as JSON text (`{"action": "click", "x": column, "y": row}`):
    /// read, then played as [`PointsetSession::process_action`] plays it.
    pub fn process(&mut self, input: &str, seed: u64) -> (err: Option<&'static str>)
        requires
            old(self)@.initialized ==> score_fits(old(self)@),
        ensures
            score_fits(final(self)@),
            (final(self)@, msg_view(err)) == process_spec(
                old(self)@,
                pointset_request_of(input@).0,
                pointset_request_of(input@).1,
                pointset_request_of(input@).2,
                seed,
            ),
    {
        let (action, x, y) = parse_pointset_request(input);
        self.process_action(action.as_str(), x, y, seed)
    }
}

} // verus!

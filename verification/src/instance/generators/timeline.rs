//! Timeline worlds: the time axis runs along X and each family of event
//! kinds gets a lane of its own along Y.
//!
//! A kind's family is its prefix up to the first `.` (`moon.full` → `moon`).
use vstd::prelude::*;

use crate::text::{before_char, before_char_exec, str_chars, str_eq, string_of};

verus! {

/// The family of a kind: what precedes its first `.`.
pub open spec fn family_of(kind: Seq<char>) -> Seq<char> {
    before_char(kind, '.')
}

/// The family of a kind.
pub fn family(kind: &str) -> (r: String)
    ensures
        r@ == family_of(kind@),
{
    let cs = str_chars(kind);
    let f = before_char_exec(cs.as_slice(), '.');
    string_of(f.as_slice())
}

/// The families of the kinds, each once, in the order they first appear;
/// a family's lane is its position here.
pub open spec fn lanes_of(kinds: Seq<Seq<char>>) -> Seq<Seq<char>>
    decreases kinds.len(),
{
    if kinds.len() == 0 {
        seq![]
    } else {
        let p = lanes_of(kinds.drop_last());
        let f = family_of(kinds.last());
        if p.contains(f) {
            p
        } else {
            p.push(f)
        }
    }
}

/// The lane of each family, numbered from 0 in the order the families first
/// appear among the kinds.
pub fn lane_rows(kinds: &[String]) -> (r: Vec<(String, u32)>)
    ensures
        r@.len() == lanes_of(kinds@.map_values(|k: String| k@)).len(),
        forall|i: int|
            0 <= i < r@.len() ==> (#[trigger] r@[i]).0@ == lanes_of(
                kinds@.map_values(|k: String| k@),
            )[i] && r@[i].1 == i as u32,
{
    let ghost ks = kinds@.map_values(|k: String| k@);
    let mut lanes: Vec<(String, u32)> = Vec::new();
    let n = kinds.len();
    let mut i: usize = 0;
    while i < n
        invariant
            ks == kinds@.map_values(|k: String| k@),
            n == ks.len(),
            i <= n,
            lanes@.len() == lanes_of(ks.take(i as int)).len(),
            forall|j: int|
                0 <= j < lanes@.len() ==> (#[trigger] lanes@[j]).0@ == lanes_of(ks.take(i as int))[j]
                    && lanes@[j].1 == j as u32,
        decreases n - i,
    {
        assert(ks.take(i + 1).drop_last() =~= ks.take(i as int));
        assert(ks.take(i + 1).last() == kinds@[i as int]@);
        let fam = family(kinds[i].as_str());
        let ghost p = lanes_of(ks.take(i as int));
        let m = lanes.len();
        let mut j: usize = 0;
        let mut found = false;
        while j < m
            invariant
                m == lanes@.len(),
                m == p.len(),
                forall|k: int| 0 <= k < m ==> (#[trigger] lanes@[k]).0@ == p[k],
                j <= m,
                found == (exists|k: int| 0 <= k < j && p[k] == fam@),
            decreases m - j,
        {
            if str_eq(lanes[j].0.as_str(), fam.as_str()) {
                found = true;
            }
            j = j + 1;
        }
        proof {
            assert(found == p.contains(fam@));
        }
        if !found {
            let next = m as u32;
            lanes.push((fam, next));
        }
        i = i + 1;
    }
    assert(ks.take(n as int) =~= ks);
    lanes
}

/// The lanes are one per family: no family has two.
pub proof fn lemma_lanes_distinct(kinds: Seq<Seq<char>>)
    ensures
        forall|i: int, j: int|
            0 <= i < j < lanes_of(kinds).len() ==> lanes_of(kinds)[i] != lanes_of(kinds)[j],
        forall|k: int| 0 <= k < kinds.len() ==> lanes_of(kinds).contains(family_of(kinds[k])),
    decreases kinds.len(),
{
    if kinds.len() > 0 {
        let t = kinds.drop_last();
        lemma_lanes_distinct(t);
        assert forall|k: int| 0 <= k < kinds.len() implies lanes_of(kinds).contains(
            family_of(kinds[k]),
        ) by {
            if k < t.len() {
                assert(kinds[k] == t[k]);
                let p = lanes_of(t);
                let w = choose|w: int| 0 <= w < p.len() && p[w] == family_of(t[k]);
                assert(lanes_of(kinds)[w] == p[w]);
            } else {
                let l = lanes_of(kinds);
                if !lanes_of(t).contains(family_of(kinds.last())) {
                    assert(l[l.len() - 1] == family_of(kinds[k]));
                }
            }
        }
    }
}

/// The default icon of a kind, by its family.
pub open spec fn icon_of_kind(kind: Seq<char>) -> Seq<char> {
    if family_of(kind) == "moon"@ {
        "🌙"@
    } else if family_of(kind) == "eclipse"@ {
        "🌘"@
    } else if family_of(kind) == "equinox"@ || family_of(kind) == "solstice"@ {
        "☀️"@
    } else if family_of(kind) == "entry"@ {
        "📓"@
    } else {
        "📌"@
    }
}

/// The default icon of a kind's family (the kind itself stays the canonical
/// datum).
pub fn icon_for(kind: &str) -> (r: &'static str)
    ensures
        r@ == icon_of_kind(kind@),
{
    let f = family(kind);
    let f = f.as_str();
    if str_eq(f, "moon") {
        "🌙"
    } else if str_eq(f, "eclipse") {
        "🌘"
    } else if str_eq(f, "equinox") || str_eq(f, "solstice") {
        "☀️"
    } else if str_eq(f, "entry") {
        "📓"
    } else {
        "📌"
    }
}


/// `a` comes before `b` in time: earlier second, or the same second and an
/// earlier nanosecond.
pub open spec fn time_lt(a: (i64, u32), b: (i64, u32)) -> bool {
    a.0 < b.0 || (a.0 == b.0 && a.1 < b.1)
}

/// Event `i` goes before event `j` in time order: earlier, or at the same
/// time and listed first.
pub open spec fn goes_before(times: Seq<(i64, u32)>, i: int, j: int) -> bool {
    time_lt(times[i], times[j]) || (times[i] == times[j] && i < j)
}

fn earlier(a: (i64, u32), b: (i64, u32)) -> (r: bool)
    ensures
        r == time_lt(a, b),
{
    a.0 < b.0 || (a.0 == b.0 && a.1 < b.1)
}

/// The events in time order, as indices into `times`: each index once, and
/// events at the same time kept in their listed order.
pub fn time_order(times: &[(i64, u32)]) -> (r: Vec<usize>)
    ensures
        r@.len() == times@.len(),
        forall|a: int| 0 <= a < r@.len() ==> #[trigger] r@[a] < times@.len(),
        forall|a: int, b: int|
            0 <= a < b < r@.len() ==> goes_before(times@, #[trigger] r@[a] as int, #[trigger] r@[b] as int),
{
    let n = times.len();
    let mut r: Vec<usize> = Vec::new();
    let mut i: usize = 0;
    while i < n
        invariant
            n == times@.len(),
            i <= n,
            r@.len() == i,
            forall|a: int| 0 <= a < r@.len() ==> #[trigger] r@[a] < i,
            forall|a: int, b: int|
                0 <= a < b < r@.len() ==> goes_before(times@, #[trigger] r@[a] as int, #[trigger] r@[b] as int),
        decreases n - i,
    {
        let t = times[i];
        let mut p: usize = 0;
        while p < r.len() && !earlier(t, times[r[p]])
            invariant
                n == times@.len(),
                i < n,
                t == times@[i as int],
                p <= r@.len(),
                forall|a: int| 0 <= a < r@.len() ==> #[trigger] r@[a] < i,
                forall|a: int| 0 <= a < p ==> !time_lt(t, times@[#[trigger] r@[a] as int]),
            decreases r@.len() - p,
        {
            p = p + 1;
        }
        proof {
            assert forall|a: int| p <= a < r@.len() implies time_lt(t, times@[#[trigger] r@[a] as int]) by {
                if a > p {
                    assert(goes_before(times@, r@[p as int] as int, r@[a] as int));
                }
            }
        }
        let ghost old_r = r@;
        r.insert(p, i);
        proof {
            assert forall|a: int, b: int|
                0 <= a < b < r@.len() implies goes_before(times@, #[trigger] r@[a] as int, #[trigger] r@[b] as int) by {
                if b < p {
                    assert(r@[a] == old_r[a] && r@[b] == old_r[b]);
                } else if b == p {
                    assert(r@[a] == old_r[a]);
                } else if a == p {
                    assert(r@[b] == old_r[b - 1]);
                } else if a < p {
                    assert(r@[a] == old_r[a] && r@[b] == old_r[b - 1]);
                } else {
                    assert(r@[a] == old_r[a - 1] && r@[b] == old_r[b - 1]);
                }
            }
        }
        i = i + 1;
    }
    r
}

/// The family of each kind.
pub open spec fn families(kinds: Seq<Seq<char>>) -> Seq<Seq<char>> {
    kinds.map_values(|k: Seq<char>| family_of(k))
}

/// The lane of family `f` among `lanes`.
pub open spec fn lane_of(lanes: Seq<Seq<char>>, f: Seq<char>) -> int {
    choose|k: int| 0 <= k < lanes.len() && lanes[k] == f
}

/// How many of the first `k` events share event `i`'s family and column.
pub open spec fn stacked_before(fams: Seq<Seq<char>>, cols: Seq<u32>, i: int, k: int) -> nat
    decreases k,
{
    if k <= 0 {
        0
    } else {
        stacked_before(fams, cols, i, k - 1) + if fams[k - 1] == fams[i] && cols[k - 1]
            == cols[i] {
            1nat
        } else {
            0nat
        }
    }
}

/// Rows per lane.
pub const LANE_HEIGHT: u32 = 3;

/// The height of a timeline with `lanes` lanes: a band of rows per lane, and
/// at least one band.
pub open spec fn timeline_height(lanes: int) -> int {
    if lanes * LANE_HEIGHT > LANE_HEIGHT {
        lanes * LANE_HEIGHT
    } else {
        LANE_HEIGHT as int
    }
}

/// The row of an event: the top of its lane's band, moved down by the
/// events already in its cell (at most to the band's last row), and kept on
/// the grid.
pub open spec fn event_row(lane: int, stack: int, height: int) -> int {
    let y = lane * LANE_HEIGHT + if stack < LANE_HEIGHT - 1 {
        stack
    } else {
        LANE_HEIGHT - 1
    };
    if y < height - 1 {
        y
    } else {
        height - 1
    }
}

proof fn lemma_lanes_len(kinds: Seq<Seq<char>>)
    ensures
        lanes_of(kinds).len() <= kinds.len(),
    decreases kinds.len(),
{
    if kinds.len() > 0 {
        lemma_lanes_len(kinds.drop_last());
    }
}

/// Where the events of a timeline go, given their kinds and columns in time
/// order: the grid's height, and each event's row (its lane's band, stacked
/// below the earlier events of its family in the same column).
pub fn place_events(kinds: &[String], cols: &[u32]) -> (r: (u32, Vec<u32>))
    requires
        kinds@.len() == cols@.len(),
        kinds@.len() * LANE_HEIGHT <= u32::MAX,
    ensures
        ({
            let ks = kinds@.map_values(|k: String| k@);
            let lanes = lanes_of(ks);
            &&& r.0 == timeline_height(lanes.len() as int)
            &&& r.1@.len() == kinds@.len()
            &&& forall|i: int|
                0 <= i < kinds@.len() ==> #[trigger] r.1@[i] == event_row(
                    lane_of(lanes, family_of(ks[i])),
                    stacked_before(families(ks), cols@, i, i) as int,
                    r.0 as int,
                )
        }),
{
    let ghost ks = kinds@.map_values(|k: String| k@);
    let ghost lanes_s = lanes_of(ks);
    let ghost fams_s = families(ks);
    let n = kinds.len();
    let lanes = lane_rows(kinds);
    proof {
        lemma_lanes_len(ks);
        lemma_lanes_distinct(ks);
    }
    let nl = lanes.len();
    let height: u32 = if nl * 3 > 3 {
        (nl * 3) as u32
    } else {
        3
    };
    let mut fams: Vec<String> = Vec::new();
    let mut i: usize = 0;
    while i < n
        invariant
            n == kinds@.len(),
            ks == kinds@.map_values(|k: String| k@),
            fams_s == families(ks),
            i <= n,
            fams@.len() == i,
            forall|j: int| 0 <= j < i ==> (#[trigger] fams@[j])@ == fams_s[j],
        decreases n - i,
    {
        fams.push(family(kinds[i].as_str()));
        i = i + 1;
    }
    let mut rows: Vec<u32> = Vec::new();
    let mut i: usize = 0;
    while i < n
        invariant
            n == kinds@.len(),
            n == cols@.len(),
            n * 3 <= u32::MAX,
            ks == kinds@.map_values(|k: String| k@),
            lanes_s == lanes_of(ks),
            fams_s == families(ks),
            nl == lanes_s.len(),
            nl <= n,
            lanes@.len() == nl,
            forall|k: int| 0 <= k < nl ==> (#[trigger] lanes@[k]).0@ == lanes_s[k],
            forall|a: int, b: int| 0 <= a < b < nl ==> lanes_s[a] != lanes_s[b],
            forall|k: int| 0 <= k < n ==> lanes_s.contains(family_of(#[trigger] ks[k])),
            fams@.len() == n,
            forall|j: int| 0 <= j < n ==> (#[trigger] fams@[j])@ == fams_s[j],
            height == timeline_height(nl as int),
            i <= n,
            rows@.len() == i,
            forall|j: int|
                0 <= j < i ==> #[trigger] rows@[j] == event_row(
                    lane_of(lanes_s, family_of(ks[j])),
                    stacked_before(fams_s, cols@, j, j) as int,
                    height as int,
                ),
        decreases n - i,
    {
        let ghost f = family_of(ks[i as int]);
        assert(fams@[i as int]@ == f);
        // The lane of the family: its one place among the lanes.
        let mut k: usize = 0;
        while k < nl && !str_eq(lanes[k].0.as_str(), fams[i].as_str())
            invariant
                nl == lanes@.len(),
                i < n,
                n == fams@.len(),
                fams@[i as int]@ == f,
                forall|q: int| 0 <= q < nl ==> (#[trigger] lanes@[q]).0@ == lanes_s[q],
                k <= nl,
                forall|q: int| 0 <= q < k ==> lanes_s[q] != f,
            decreases nl - k,
        {
            k = k + 1;
        }
        proof {
            assert(lanes_s.contains(f));
            if k == nl {
                let w = choose|w: int| 0 <= w < lanes_s.len() && lanes_s[w] == f;
                assert(false);
            }
            let c = lane_of(lanes_s, f);
            assert(0 <= c < lanes_s.len() && lanes_s[c] == f);
            if c != k {
                if c < k {
                    assert(lanes_s[c] != lanes_s[k as int]);
                } else {
                    assert(lanes_s[k as int] != lanes_s[c]);
                }
            }
        }
        // The events already in this family's cell.
        let mut c: u32 = 0;
        let mut j: usize = 0;
        while j < i
            invariant
                i < n,
                n == fams@.len(),
                n == cols@.len(),
                n * 3 <= u32::MAX,
                forall|q: int| 0 <= q < n ==> (#[trigger] fams@[q])@ == fams_s[q],
                j <= i,
                c == stacked_before(fams_s, cols@, i as int, j as int),
                c <= j,
            decreases i - j,
        {
            if str_eq(fams[j].as_str(), fams[i].as_str()) && cols[j] == cols[i] {
                c = c + 1;
            }
            j = j + 1;
        }
        let s: u32 = if c < 2 {
            c
        } else {
            2
        };
        let y0: u32 = (k as u32) * 3 + s;
        let y: u32 = if y0 < height - 1 {
            y0
        } else {
            height - 1
        };
        rows.push(y);
        i = i + 1;
    }
    (height, rows)
}

} // verus!

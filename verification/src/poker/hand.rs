//! Hand evaluation: the best five-card hand out of up to seven cards.
use vstd::prelude::*;

use super::cards::{all_valid, valid_card, Card};

verus! {

/// Hand categories, weakest first.
#[derive(Debug, Clone, Copy, PartialEq, Eq, PartialOrd, Ord, Structural)]
pub enum HandRank {
    HighCard,
    OnePair,
    TwoPair,
    ThreeOfAKind,
    Straight,
    Flush,
    FullHouse,
    FourOfAKind,
    StraightFlush,
}

/// Strength of a category, 1 (high card) to 9 (straight flush).
pub open spec fn rank_value(r: HandRank) -> int {
    match r {
        HandRank::HighCard => 1,
        HandRank::OnePair => 2,
        HandRank::TwoPair => 3,
        HandRank::ThreeOfAKind => 4,
        HandRank::Straight => 5,
        HandRank::Flush => 6,
        HandRank::FullHouse => 7,
        HandRank::FourOfAKind => 8,
        HandRank::StraightFlush => 9,
    }
}

fn rank_value_exec(r: HandRank) -> (v: u8)
    ensures
        v == rank_value(r),
{
    match r {
        HandRank::HighCard => 1,
        HandRank::OnePair => 2,
        HandRank::TwoPair => 3,
        HandRank::ThreeOfAKind => 4,
        HandRank::Straight => 5,
        HandRank::Flush => 6,
        HandRank::FullHouse => 7,
        HandRank::FourOfAKind => 8,
        HandRank::StraightFlush => 9,
    }
}

/// A category's name, as `{:?}` prints it.
pub open spec fn rank_name(r: HandRank) -> Seq<char> {
    match r {
        HandRank::HighCard => "HighCard"@,
        HandRank::OnePair => "OnePair"@,
        HandRank::TwoPair => "TwoPair"@,
        HandRank::ThreeOfAKind => "ThreeOfAKind"@,
        HandRank::Straight => "Straight"@,
        HandRank::Flush => "Flush"@,
        HandRank::FullHouse => "FullHouse"@,
        HandRank::FourOfAKind => "FourOfAKind"@,
        HandRank::StraightFlush => "StraightFlush"@,
    }
}

/// The category's name.
pub fn rank_name_str(r: HandRank) -> (s: &'static str)
    ensures
        s@ == rank_name(r),
{
    match r {
        HandRank::HighCard => "HighCard",
        HandRank::OnePair => "OnePair",
        HandRank::TwoPair => "TwoPair",
        HandRank::ThreeOfAKind => "ThreeOfAKind",
        HandRank::Straight => "Straight",
        HandRank::Flush => "Flush",
        HandRank::FullHouse => "FullHouse",
        HandRank::FourOfAKind => "FourOfAKind",
        HandRank::StraightFlush => "StraightFlush",
    }
}

/// A scored hand: its category, then tie-breaking ranks, most significant
/// first.
#[derive(Debug, Clone, PartialEq, Eq)]
pub struct ScoredHand {
    pub rank: HandRank,
    pub tiebreak: Vec<u8>,
}

/// Lexicographic "greater than" on rank lists (a longer list beats its own
/// prefix), the order of `Vec<u8>`.
pub open spec fn lex_gt(a: Seq<u8>, b: Seq<u8>) -> bool
    decreases a.len(),
{
    if a.len() == 0 {
        false
    } else if b.len() == 0 {
        true
    } else if a[0] != b[0] {
        a[0] > b[0]
    } else {
        lex_gt(a.drop_first(), b.drop_first())
    }
}

/// `a` beats `b`: higher category, or same category and higher tie-break.
pub open spec fn beats_spec(a: (HandRank, Seq<u8>), b: (HandRank, Seq<u8>)) -> bool {
    rank_value(a.0) > rank_value(b.0) || (rank_value(a.0) == rank_value(b.0) && lex_gt(a.1, b.1))
}

impl ScoredHand {
    pub open spec fn sv(&self) -> (HandRank, Seq<u8>) {
        (self.rank, self.tiebreak@)
    }
}

fn lex_gt_from(a: &[u8], b: &[u8], i: usize) -> (r: bool)
    requires
        i <= a@.len(),
        i <= b@.len(),
    ensures
        r == lex_gt(a@.subrange(i as int, a@.len() as int), b@.subrange(i as int, b@.len() as int)),
    decreases a@.len() - i,
{
    let ghost sa = a@.subrange(i as int, a@.len() as int);
    let ghost sb = b@.subrange(i as int, b@.len() as int);
    if i == a.len() {
        false
    } else if i == b.len() {
        true
    } else if a[i] != b[i] {
        a[i] > b[i]
    } else {
        assert(sa.drop_first() =~= a@.subrange(i + 1, a@.len() as int));
        assert(sb.drop_first() =~= b@.subrange(i + 1, b@.len() as int));
        lex_gt_from(a, b, i + 1)
    }
}

/// Whether `a` beats `b`.
pub fn beats(a: &ScoredHand, b: &ScoredHand) -> (r: bool)
    ensures
        r == beats_spec(a.sv(), b.sv()),
{
    let ra = rank_value_exec(a.rank);
    let rb = rank_value_exec(b.rank);
    if ra != rb {
        ra > rb
    } else {
        proof {
            assert(a.tiebreak@.subrange(0, a.tiebreak@.len() as int) =~= a.tiebreak@);
            assert(b.tiebreak@.subrange(0, b.tiebreak@.len() as int) =~= b.tiebreak@);
        }
        lex_gt_from(a.tiebreak.as_slice(), b.tiebreak.as_slice(), 0)
    }
}

// ── Sorting ranks ──────────────────────────────────────────────────────────

/// `x` inserted into a descending list before the first element not above it.
pub open spec fn insert_desc(x: u8, s: Seq<u8>) -> Seq<u8>
    decreases s.len(),
{
    if s.len() == 0 {
        seq![x]
    } else if x >= s[0] {
        seq![x] + s
    } else {
        seq![s[0]] + insert_desc(x, s.drop_first())
    }
}

/// The ranks sorted in descending order (insertion from the back).
pub open spec fn sort_desc(s: Seq<u8>) -> Seq<u8>
    decreases s.len(),
{
    if s.len() == 0 {
        Seq::empty()
    } else {
        insert_desc(s[0], sort_desc(s.drop_first()))
    }
}

proof fn lemma_insert_at(x: u8, s: Seq<u8>, p: int)
    requires
        0 <= p <= s.len(),
        forall|q: int| 0 <= q < p ==> s[q] > x,
        p < s.len() ==> s[p] <= x,
    ensures
        insert_desc(x, s) == s.insert(p, x),
    decreases p,
{
    if p == 0 {
        if s.len() == 0 {
            assert(s.insert(0, x) =~= seq![x]);
        } else {
            assert(s.insert(0, x) =~= seq![x] + s);
        }
    } else {
        lemma_insert_at(x, s.drop_first(), p - 1);
        assert(s.insert(p, x) =~= seq![s[0]] + s.drop_first().insert(p - 1, x));
    }
}

fn insert_desc_exec(v: &mut Vec<u8>, x: u8)
    ensures
        final(v)@ == insert_desc(x, old(v)@),
{
    let mut p: usize = 0;
    while p < v.len() && v[p] > x
        invariant
            p <= v@.len(),
            v@ == old(v)@,
            forall|q: int| 0 <= q < p ==> v@[q] > x,
        decreases v@.len() - p,
    {
        p = p + 1;
    }
    proof {
        lemma_insert_at(x, v@, p as int);
    }
    v.insert(p, x);
}

/// The ranks of `s`, highest first.
pub fn sort_ranks_desc(s: &[u8]) -> (r: Vec<u8>)
    ensures
        r@ == sort_desc(s@),
{
    let mut r: Vec<u8> = Vec::new();
    let mut i = s.len();
    assert(s@.subrange(i as int, s@.len() as int) =~= Seq::<u8>::empty());
    while i > 0
        invariant
            i <= s@.len(),
            r@ == sort_desc(s@.subrange(i as int, s@.len() as int)),
        decreases i,
    {
        i = i - 1;
        assert(s@.subrange(i as int, s@.len() as int).drop_first() =~= s@.subrange(
            i + 1,
            s@.len() as int,
        ));
        insert_desc_exec(&mut r, s[i]);
    }
    assert(s@.subrange(0, s@.len() as int) =~= s@);
    r
}

// ── Evaluating five cards ──────────────────────────────────────────────────

pub open spec fn ranks_of(cards: Seq<Card>) -> Seq<u8> {
    cards.map_values(|c: Card| c.rank)
}

/// How many times `x` occurs in `s`.
pub open spec fn count(s: Seq<u8>, x: u8) -> nat
    decreases s.len(),
{
    if s.len() == 0 {
        0
    } else {
        (if s[0] == x {
            1nat
        } else {
            0nat
        }) + count(s.drop_first(), x)
    }
}

/// All five suits are the same.
pub open spec fn is_flush(cards: Seq<Card>) -> bool {
    forall|i: int| 0 <= i < cards.len() - 1 ==> #[trigger] cards[i].suit == cards[i + 1].suit
}

/// The ace-low straight A-5-4-3-2, sorted.
pub open spec fn wheel() -> Seq<u8> {
    seq![14u8, 5u8, 4u8, 3u8, 2u8]
}

/// Descending ranks form a straight (each one above the next, or the wheel).
pub open spec fn is_straight(ranks: Seq<u8>) -> bool {
    ranks.len() == 5 && ((forall|i: int| 0 <= i < 4 ==> #[trigger] ranks[i] == ranks[i + 1] + 1)
        || ranks == wheel())
}

/// Groups of equal ranks with exactly `c` cards, for ranks `r` down to 2,
/// as `(count, rank)`.
pub open spec fn groups_of_count(ranks: Seq<u8>, c: u8, r: int) -> Seq<(u8, u8)>
    decreases r,
{
    if r < 2 {
        Seq::empty()
    } else {
        (if count(ranks, r as u8) == c {
            seq![(c, r as u8)]
        } else {
            Seq::empty()
        }) + groups_of_count(ranks, c, r - 1)
    }
}

/// Groups with `c` cards or fewer (but at least one), larger groups first
/// and higher ranks first among equal sizes: the `(count, rank)` pairs in
/// descending order.
pub open spec fn groups_from(ranks: Seq<u8>, c: int) -> Seq<(u8, u8)>
    decreases c,
{
    if c < 1 {
        Seq::empty()
    } else {
        groups_of_count(ranks, c as u8, 14) + groups_from(ranks, c - 1)
    }
}

pub open spec fn groups(ranks: Seq<u8>) -> Seq<(u8, u8)> {
    groups_from(ranks, 5)
}

pub open spec fn group_ranks(g: Seq<(u8, u8)>) -> Seq<u8> {
    g.map_values(|p: (u8, u8)| p.1)
}

/// Tie-break of a straight: its top card (5 for the wheel).
pub open spec fn straight_top(ranks: Seq<u8>) -> Seq<u8> {
    if ranks == wheel() {
        seq![5u8]
    } else {
        seq![ranks[0]]
    }
}

/// The score of exactly five cards.
pub open spec fn eval_five(cards: Seq<Card>) -> (HandRank, Seq<u8>) {
    let ranks = sort_desc(ranks_of(cards));
    let flush = is_flush(cards);
    let straight = is_straight(ranks);
    let g = groups(ranks);
    let c0 = if g.len() > 0 {
        g[0].0
    } else {
        0
    };
    let c1 = if g.len() > 1 {
        g[1].0
    } else {
        0
    };
    let gr = group_ranks(g);
    if straight && flush {
        (HandRank::StraightFlush, straight_top(ranks))
    } else if c0 == 4 {
        (HandRank::FourOfAKind, gr)
    } else if c0 == 3 && c1 == 2 {
        (HandRank::FullHouse, gr)
    } else if flush {
        (HandRank::Flush, ranks)
    } else if straight {
        (HandRank::Straight, straight_top(ranks))
    } else if c0 == 3 {
        (HandRank::ThreeOfAKind, gr)
    } else if c0 == 2 && c1 == 2 {
        (HandRank::TwoPair, gr)
    } else if c0 == 2 {
        (HandRank::OnePair, gr)
    } else {
        (HandRank::HighCard, ranks)
    }
}

fn count_exec(s: &[u8], x: u8) -> (r: u8)
    requires
        s@.len() <= 5,
    ensures
        r == count(s@, x),
{
    let mut k: usize = s.len();
    let mut n: u8 = 0;
    assert(s@.subrange(k as int, s@.len() as int) =~= Seq::<u8>::empty());
    while k > 0
        invariant
            k <= s@.len() <= 5,
            n == count(s@.subrange(k as int, s@.len() as int), x),
            n <= s@.len() - k,
        decreases k,
    {
        k = k - 1;
        assert(s@.subrange(k as int, s@.len() as int).drop_first() =~= s@.subrange(
            k + 1,
            s@.len() as int,
        ));
        if s[k] == x {
            n = n + 1;
        }
    }
    assert(s@.subrange(0, s@.len() as int) =~= s@);
    n
}

fn groups_exec(ranks: &[u8]) -> (g: Vec<(u8, u8)>)
    requires
        ranks@.len() <= 5,
    ensures
        g@ == groups(ranks@),
{
    let mut g: Vec<(u8, u8)> = Vec::new();
    let mut c: u8 = 5;
    while c >= 1
        invariant
            c <= 5,
            ranks@.len() <= 5,
            g@ + groups_from(ranks@, c as int) == groups(ranks@),
        decreases c,
    {
        let mut r: u8 = 14;
        let ghost g0 = g@;
        while r >= 2
            invariant
                2 <= c <= 5 || c == 1,
                r <= 14,
                ranks@.len() <= 5,
                g@ + groups_of_count(ranks@, c, r as int) == g0 + groups_of_count(ranks@, c, 14),
            decreases r,
        {
            let ghost before = g@;
            if count_exec(ranks, r) == c {
                g.push((c, r));
                assert(g@ =~= before + seq![(c, r)]);
            }
            assert(before + groups_of_count(ranks@, c, r as int) =~= g@ + groups_of_count(
                ranks@,
                c,
                r - 1,
            ));
            r = r - 1;
        }
        assert(groups_of_count(ranks@, c, r as int) =~= Seq::<(u8, u8)>::empty());
        assert(g@ =~= g0 + groups_of_count(ranks@, c, 14));
        assert(groups_from(ranks@, c as int) == groups_of_count(ranks@, c, 14) + groups_from(
            ranks@,
            c - 1,
        ));
        assert(g0 + groups_from(ranks@, c as int) =~= g@ + groups_from(ranks@, c - 1));
        c = c - 1;
    }
    assert(groups_from(ranks@, 0) =~= Seq::<(u8, u8)>::empty());
    assert(g@ =~= g@ + groups_from(ranks@, 0));
    g
}

fn is_straight_exec(r: &[u8]) -> (b: bool)
    ensures
        b == is_straight(r@),
{
    if r.len() != 5 {
        return false;
    }
    let consecutive = r[1] < 255 && r[0] == r[1] + 1 && r[2] < 255 && r[1] == r[2] + 1 && r[3]
        < 255 && r[2] == r[3] + 1 && r[4] < 255 && r[3] == r[4] + 1;
    proof {
        if consecutive {
            assert forall|i: int| 0 <= i < 4 implies #[trigger] r@[i] == r@[i + 1] + 1 by {
                if i == 0 {} else if i == 1 {} else if i == 2 {} else {}
            }
        } else {
            assert(!(forall|i: int| 0 <= i < 4 ==> #[trigger] r@[i] == r@[i + 1] + 1)) by {
                if r@[0] != r@[1] + 1 {
                    assert(r@[0] == r@[0int + 1] + 1 ==> false);
                } else if r@[1] != r@[2] + 1 {
                    assert(r@[1] == r@[1int + 1] + 1 ==> false);
                } else if r@[2] != r@[3] + 1 {
                    assert(r@[2] == r@[2int + 1] + 1 ==> false);
                } else {
                    assert(r@[3] == r@[3int + 1] + 1 ==> false);
                }
            }
        }
    }
    consecutive || is_wheel(r)
}

fn is_wheel(r: &[u8]) -> (b: bool)
    ensures
        b == (r@ == wheel()),
{
    let b = r.len() == 5 && r[0] == 14 && r[1] == 5 && r[2] == 4 && r[3] == 3 && r[4] == 2;
    proof {
        if b {
            assert(r@ =~= wheel());
        }
        if r@ == wheel() {
            assert(r@[0] == 14 && r@[1] == 5 && r@[2] == 4 && r@[3] == 3 && r@[4] == 2);
        }
    }
    b
}

fn straight_top_exec(ranks: &[u8]) -> (t: Vec<u8>)
    requires
        ranks@.len() == 5,
    ensures
        t@ == straight_top(ranks@),
{
    let mut t: Vec<u8> = Vec::new();
    if is_wheel(ranks) {
        t.push(5);
    } else {
        t.push(ranks[0]);
    }
    assert(t@ =~= straight_top(ranks@));
    t
}

/// Scores exactly five cards.
pub fn evaluate_five(cards: &[Card]) -> (h: ScoredHand)
    requires
        cards@.len() == 5,
        ranks_valid(cards@),
    ensures
        h.sv() == eval_five(cards@),
{
    let mut raw: Vec<u8> = Vec::new();
    let mut i: usize = 0;
    while i < 5
        invariant
            i <= 5,
            cards@.len() == 5,
            raw@ == ranks_of(cards@.subrange(0, i as int)),
        decreases 5 - i,
    {
        raw.push(cards[i].rank);
        assert(ranks_of(cards@.subrange(0, i + 1)) =~= ranks_of(cards@.subrange(0, i as int)).push(
            cards@[i as int].rank,
        ));
        i = i + 1;
    }
    assert(cards@.subrange(0, 5) =~= cards@);
    let ranks = sort_ranks_desc(raw.as_slice());
    proof {
        lemma_sort_len(ranks_of(cards@));
    }
    let flush = cards[0].suit == cards[1].suit && cards[1].suit == cards[2].suit && cards[2].suit
        == cards[3].suit && cards[3].suit == cards[4].suit;
    proof {
        if flush {
            assert forall|k: int| 0 <= k < cards@.len() - 1 implies #[trigger] cards@[k].suit
                == cards@[k + 1].suit by {
                if k == 0 {} else if k == 1 {} else if k == 2 {} else {}
            }
        } else {
            if cards@[0].suit != cards@[1].suit {
                assert(!(cards@[0].suit == cards@[0int + 1].suit));
            } else if cards@[1].suit != cards@[2].suit {
                assert(!(cards@[1].suit == cards@[1int + 1].suit));
            } else if cards@[2].suit != cards@[3].suit {
                assert(!(cards@[2].suit == cards@[2int + 1].suit));
            } else {
                assert(!(cards@[3].suit == cards@[3int + 1].suit));
            }
        }
    }
    let straight = is_straight_exec(ranks.as_slice());
    let g = groups_exec(ranks.as_slice());
    let c0 = if g.len() > 0 {
        g[0].0
    } else {
        0
    };
    let c1 = if g.len() > 1 {
        g[1].0
    } else {
        0
    };
    let mut gr: Vec<u8> = Vec::new();
    let mut k: usize = 0;
    while k < g.len()
        invariant
            k <= g@.len(),
            gr@ == group_ranks(g@.subrange(0, k as int)),
        decreases g@.len() - k,
    {
        gr.push(g[k].1);
        assert(group_ranks(g@.subrange(0, k + 1)) =~= group_ranks(g@.subrange(0, k as int)).push(
            g@[k as int].1,
        ));
        k = k + 1;
    }
    assert(g@.subrange(0, g@.len() as int) =~= g@);
    if straight && flush {
        ScoredHand { rank: HandRank::StraightFlush, tiebreak: straight_top_exec(ranks.as_slice()) }
    } else if c0 == 4 {
        ScoredHand { rank: HandRank::FourOfAKind, tiebreak: gr }
    } else if c0 == 3 && c1 == 2 {
        ScoredHand { rank: HandRank::FullHouse, tiebreak: gr }
    } else if flush {
        ScoredHand { rank: HandRank::Flush, tiebreak: ranks }
    } else if straight {
        ScoredHand { rank: HandRank::Straight, tiebreak: straight_top_exec(ranks.as_slice()) }
    } else if c0 == 3 {
        ScoredHand { rank: HandRank::ThreeOfAKind, tiebreak: gr }
    } else if c0 == 2 && c1 == 2 {
        ScoredHand { rank: HandRank::TwoPair, tiebreak: gr }
    } else if c0 == 2 {
        ScoredHand { rank: HandRank::OnePair, tiebreak: gr }
    } else {
        ScoredHand { rank: HandRank::HighCard, tiebreak: ranks }
    }
}

proof fn lemma_insert_len(x: u8, s: Seq<u8>)
    ensures
        insert_desc(x, s).len() == s.len() + 1,
    decreases s.len(),
{
    if s.len() > 0 && x < s[0] {
        lemma_insert_len(x, s.drop_first());
    }
}

pub proof fn lemma_sort_len(s: Seq<u8>)
    ensures
        sort_desc(s).len() == s.len(),
    decreases s.len(),
{
    if s.len() > 0 {
        lemma_sort_len(s.drop_first());
        lemma_insert_len(s[0], sort_desc(s.drop_first()));
    }
}


// ── Order on scores ────────────────────────────────────────────────────────

/// `lex_gt` is transitive.
pub proof fn lemma_lex_gt_transitive(a: Seq<u8>, b: Seq<u8>, c: Seq<u8>)
    requires
        lex_gt(a, b),
        lex_gt(b, c),
    ensures
        lex_gt(a, c),
    decreases a.len(),
{
    if c.len() > 0 && a[0] == b[0] && b[0] == c[0] {
        lemma_lex_gt_transitive(a.drop_first(), b.drop_first(), c.drop_first());
    }
}

/// `lex_gt` never holds both ways.
pub proof fn lemma_lex_gt_asymmetric(a: Seq<u8>, b: Seq<u8>)
    ensures
        !(lex_gt(a, b) && lex_gt(b, a)),
    decreases a.len(),
{
    if a.len() > 0 && b.len() > 0 && a[0] == b[0] {
        lemma_lex_gt_asymmetric(a.drop_first(), b.drop_first());
    }
}

/// Two different rank lists are ordered one way or the other.
pub proof fn lemma_lex_gt_total(a: Seq<u8>, b: Seq<u8>)
    requires
        a != b,
    ensures
        lex_gt(a, b) || lex_gt(b, a),
    decreases a.len(),
{
    if a.len() > 0 && b.len() > 0 && a[0] == b[0] {
        if a.drop_first() == b.drop_first() {
            assert(a =~= seq![a[0]] + a.drop_first());
            assert(b =~= seq![b[0]] + b.drop_first());
        }
        lemma_lex_gt_total(a.drop_first(), b.drop_first());
    } else if a.len() == 0 && b.len() == 0 {
        assert(a =~= b);
    }
}

/// Beating is a strict total order on scores: transitive, asymmetric, and
/// any two different scores are comparable.
pub proof fn lemma_beats_order(a: (HandRank, Seq<u8>), b: (HandRank, Seq<u8>), c: (
    HandRank,
    Seq<u8>,
))
    ensures
        beats_spec(a, b) && beats_spec(b, c) ==> beats_spec(a, c),
        !(beats_spec(a, b) && beats_spec(b, a)),
        a != b ==> beats_spec(a, b) || beats_spec(b, a),
{
    if beats_spec(a, b) && beats_spec(b, c) && rank_value(a.0) == rank_value(c.0) {
        lemma_lex_gt_transitive(a.1, b.1, c.1);
    }
    lemma_lex_gt_asymmetric(a.1, b.1);
    if a != b {
        if rank_value(a.0) == rank_value(b.0) {
            assert(a.0 == b.0);
            lemma_lex_gt_total(a.1, b.1);
        }
    }
}

// ── Combinations ───────────────────────────────────────────────────────────

/// The strictly increasing index lists of length `k` drawn from `start..n`,
/// in lexicographic order.
pub open spec fn combos_from(start: int, n: int, k: int) -> Seq<Seq<usize>>
    decreases k, n - start,
{
    if k <= 0 {
        seq![Seq::empty()]
    } else if start > n - k {
        Seq::empty()
    } else {
        combos_from(start + 1, n, k - 1).map_values(|c: Seq<usize>| seq![start as usize] + c)
            + combos_from(start + 1, n, k)
    }
}

/// The number of ways to choose `k` out of `m`.
pub open spec fn binom(m: int, k: int) -> int
    decreases m,
{
    if k <= 0 {
        1
    } else if m < k {
        0
    } else {
        binom(m - 1, k - 1) + binom(m - 1, k)
    }
}

/// At most `cap` items of `s`: its first `cap`.
pub open spec fn capped<T>(s: Seq<T>, cap: int) -> Seq<T> {
    if s.len() <= cap {
        s
    } else {
        s.take(cap)
    }
}

/// The most index lists that `combinations` hands out.
pub open spec fn combination_cap() -> int {
    501
}

/// What `combinations(n, k)` returns: the `k`-subsets of `0..n` in
/// lexicographic order, at most `combination_cap()` of them.
pub open spec fn combinations_spec(n: int, k: int) -> Seq<Seq<usize>> {
    capped(combos_from(0, n, k), combination_cap())
}

pub open spec fn deep(v: Seq<Vec<usize>>) -> Seq<Seq<usize>> {
    v.map_values(|x: Vec<usize>| x@)
}

/// A strictly increasing index list below `n`, starting at `start` or later.
pub open spec fn increasing_within(c: Seq<usize>, start: int, n: int) -> bool {
    &&& forall|i: int| 0 <= i < c.len() ==> start <= #[trigger] c[i] < n
    &&& forall|i: int, j: int| 0 <= i < j < c.len() ==> #[trigger] c[i] < #[trigger] c[j]
}

/// `combos_from` has `binom(n - start, k)` entries.
pub proof fn lemma_combos_len(start: int, n: int, k: int)
    requires
        start <= n,
    ensures
        combos_from(start, n, k).len() == binom(n - start, k),
    decreases k, n - start,
{
    if k <= 0 {
    } else if start > n - k {
        assert(n - start < k);
    } else {
        lemma_combos_len(start + 1, n, k - 1);
        lemma_combos_len(start + 1, n, k);
    }
}

/// Every entry of `combos_from` is an increasing list of length `k` in
/// `start..n`.
pub proof fn lemma_combos_sound(start: int, n: int, k: int, i: int)
    requires
        0 <= start,
        n <= usize::MAX,
        0 <= k,
        0 <= i < combos_from(start, n, k).len(),
    ensures
        combos_from(start, n, k)[i].len() == k,
        increasing_within(combos_from(start, n, k)[i], start, n),
    decreases k, n - start,
{
    if k == 0 {
    } else if start > n - k {
    } else {
        let left = combos_from(start + 1, n, k - 1);
        if i < left.len() {
            lemma_combos_sound(start + 1, n, k - 1, i);
            let c = seq![start as usize] + left[i];
            assert(combos_from(start, n, k)[i] == c);
            assert forall|a: int, b: int| 0 <= a < b < c.len() implies #[trigger] c[a] < #[trigger] c[b] by {
                if a > 0 {
                    assert(c[a] == left[i][a - 1]);
                }
                assert(c[b] == left[i][b - 1]);
            }
            assert forall|a: int| 0 <= a < c.len() implies start <= #[trigger] c[a] < n by {
                if a > 0 {
                    assert(c[a] == left[i][a - 1]);
                }
            }
        } else {
            lemma_combos_sound(start + 1, n, k, i - left.len());
        }
    }
}

/// Every increasing list of length `k` in `start..n` is an entry of
/// `combos_from`.
pub proof fn lemma_combos_complete(start: int, n: int, k: int, c: Seq<usize>)
    requires
        0 <= start,
        c.len() == k,
        increasing_within(c, start, n),
    ensures
        combos_from(start, n, k).contains(c),
    decreases k, n - start,
{
    if k == 0 {
        assert(c =~= Seq::<usize>::empty());
        assert(combos_from(start, n, k)[0] == c);
    } else {
        assert(start + k <= n) by {
            lemma_increasing_spread(c, start, n, k - 1);
        }
        let left = combos_from(start + 1, n, k - 1);
        if c[0] == start {
            let rest = c.drop_first();
            assert forall|a: int, b: int| 0 <= a < b < rest.len() implies #[trigger] rest[a]
                < #[trigger] rest[b] by {
                assert(c[a + 1] < c[b + 1]);
            }
            assert forall|a: int| 0 <= a < rest.len() implies start + 1 <= #[trigger] rest[a]
                < n by {
                assert(c[0] < c[a + 1]);
            }
            lemma_combos_complete(start + 1, n, k - 1, rest);
            let j = choose|j: int| 0 <= j < left.len() && left[j] == rest;
            assert(c =~= seq![start as usize] + rest);
            assert(combos_from(start, n, k)[j] == c);
        } else {
            assert forall|a: int| 0 <= a < c.len() implies start + 1 <= #[trigger] c[a] < n by {
                if a > 0 {
                    assert(c[0] < c[a]);
                }
            }
            lemma_combos_complete(start + 1, n, k, c);
            let right = combos_from(start + 1, n, k);
            let j = choose|j: int| 0 <= j < right.len() && right[j] == c;
            assert(combos_from(start, n, k)[left.len() + j] == c);
        }
    }
}

/// In an increasing list starting at or after `start`, entry `i` is at
/// least `start + i`.
proof fn lemma_increasing_spread(c: Seq<usize>, start: int, n: int, i: int)
    requires
        increasing_within(c, start, n),
        0 <= i < c.len(),
    ensures
        c[i] >= start + i,
    decreases i,
{
    if i > 0 {
        lemma_increasing_spread(c, start, n, i - 1);
        assert(c[i - 1] < c[i]);
    }
}

proof fn lemma_capped_push<T>(a: Seq<T>, x: T, cap: int)
    requires
        a.len() < cap,
    ensures
        capped(a.push(x), cap) == a.push(x),
{
}

/// Appends to `out` the `k`-subsets of `start..n`, each after `prefix`, in
/// lexicographic order, while `out` holds fewer than the cap.
fn combos_into(
    start: usize,
    n: usize,
    k: usize,
    prefix: &mut Vec<usize>,
    out: &mut Vec<Vec<usize>>,
)
    requires
        start <= n,
        deep(old(out)@).len() <= combination_cap(),
    ensures
        final(prefix)@ == old(prefix)@,
        deep(final(out)@) == capped(
            deep(old(out)@) + combos_from(start as int, n as int, k as int).map_values(
                |c: Seq<usize>| old(prefix)@ + c,
            ),
            combination_cap(),
        ),
    decreases k, n - start,
{
    let ghost p0 = prefix@;
    let ghost o0 = deep(out@);
    let ghost all = combos_from(start as int, n as int, k as int);
    if k == 0 {
        if out.len() < 501 {
            let c = prefix.clone();
            assert(c@ =~= p0);
            out.push(c);
            assert(deep(out@) =~= o0.push(p0));
            assert(all.map_values(|c: Seq<usize>| p0 + c) =~= seq![p0]);
            assert(o0 + seq![p0] =~= o0.push(p0));
        } else {
            assert(o0.len() == 501);
            assert((o0 + all.map_values(|c: Seq<usize>| p0 + c)).take(501) =~= o0);
        }
        return;
    }
    if n - start < k {
        assert(all.map_values(|c: Seq<usize>| p0 + c) =~= Seq::<Seq<usize>>::empty());
        assert(o0 + Seq::<Seq<usize>>::empty() =~= o0);
        return;
    }
    let ghost left = combos_from(start as int + 1, n as int, k as int - 1);
    let ghost right = combos_from(start as int + 1, n as int, k as int);
    let ghost p1 = p0.push(start);
    prefix.push(start);
    combos_into(start + 1, n, k - 1, prefix, out);
    let ghost o1 = deep(out@);
    let ghost lm = left.map_values(|c: Seq<usize>| p1 + c);
    assert(o1 == capped(o0 + lm, combination_cap()));
    prefix.pop();
    assert(prefix@ =~= p0);
    combos_into(start + 1, n, k, prefix, out);
    let ghost rm = right.map_values(|c: Seq<usize>| p0 + c);
    proof {
        assert(all == left.map_values(|c: Seq<usize>| seq![start as usize] + c) + right);
        let am = all.map_values(|c: Seq<usize>| p0 + c);
        assert(am =~= lm + rm) by {
            assert forall|i: int| 0 <= i < lm.len() implies am[i] == lm[i] by {
                assert(p0 + (seq![start as usize] + left[i]) =~= p1 + left[i]);
            }
        }
        lemma_capped_append(o0 + lm, rm, combination_cap());
        assert(o0 + am =~= (o0 + lm) + rm);
    }
}

proof fn lemma_capped_append<T>(a: Seq<T>, b: Seq<T>, cap: int)
    requires
        0 <= cap,
    ensures
        capped(capped(a, cap) + b, cap) == capped(a + b, cap),
{
    if a.len() > cap {
        assert(capped(a, cap) + b =~= a.take(cap) + b);
        assert((a.take(cap) + b).take(cap) =~= (a + b).take(cap));
    }
}

/// The `k`-subsets of `0..n`, as increasing index lists in lexicographic
/// order; at most 501 of them are produced.
pub fn combinations(n: usize, k: usize) -> (r: Vec<Vec<usize>>)
    requires
        k <= n,
    ensures
        deep(r@) == combinations_spec(n as int, k as int),
{
    let mut out: Vec<Vec<usize>> = Vec::new();
    let mut prefix: Vec<usize> = Vec::new();
    proof {
        assert(deep(out@) =~= Seq::<Seq<usize>>::empty());
    }
    combos_into(0, n, k, &mut prefix, &mut out);
    proof {
        let all = combos_from(0, n as int, k as int);
        assert(all.map_values(|c: Seq<usize>| Seq::<usize>::empty() + c) =~= all) by {
            assert forall|i: int| 0 <= i < all.len() implies Seq::<usize>::empty() + all[i]
                == all[i] by {
                assert(Seq::<usize>::empty() + all[i] =~= all[i]);
            }
        }
        assert(Seq::<Seq<usize>>::empty() + all =~= all);
    }
    out
}

// ── Best hand ──────────────────────────────────────────────────────────────

/// The cards of `cards` at the positions listed in `idx`.
pub open spec fn pick(cards: Seq<Card>, idx: Seq<usize>) -> Seq<Card> {
    idx.map_values(|i: usize| cards[i as int])
}

/// The best score among the five-card hands picked by `cs`, the first one
/// found among equals (no score is kept over one it does not beat).
pub open spec fn best_over(cards: Seq<Card>, cs: Seq<Seq<usize>>) -> (HandRank, Seq<u8>)
    decreases cs.len(),
{
    if cs.len() == 0 {
        (HandRank::HighCard, Seq::empty())
    } else if cs.len() == 1 {
        eval_five(pick(cards, cs[0]))
    } else {
        let b = best_over(cards, cs.drop_last());
        let e = eval_five(pick(cards, cs.last()));
        if beats_spec(e, b) {
            e
        } else {
            b
        }
    }
}

/// Whether every card has a rank of at most 14 (an ace); a deck's ranks
/// run from 2 to 14, and the ranks are counted in a table indexed up to 14.
pub open spec fn ranks_valid(cards: Seq<Card>) -> bool {
    forall|i: int| 0 <= i < cards.len() ==> #[trigger] cards[i].rank <= 14
}

/// The score of the best five-card hand out of `cards`; with fewer than
/// five cards, a high card made of their ranks, highest first.
pub open spec fn best_hand_spec(cards: Seq<Card>) -> (HandRank, Seq<u8>) {
    if cards.len() < 5 {
        (HandRank::HighCard, sort_desc(ranks_of(cards)))
    } else {
        best_over(cards, combinations_spec(cards.len() as int, 5))
    }
}

/// Scores the best five-card hand out of up to seven cards. Any number of
/// cards is accepted, but the enumeration of `combinations` stops after 501
/// subsets (a safety valve that up to eleven cards never reach), so with
/// twelve or more cards only the first 501 subsets are scored.
pub fn best_hand(cards: &[Card]) -> (h: ScoredHand)
    requires
        ranks_valid(cards@),
    ensures
        h.sv() == best_hand_spec(cards@),
{
    let n = cards.len();
    if n < 5 {
        let mut raw: Vec<u8> = Vec::new();
        let mut i: usize = 0;
        while i < n
            invariant
                i <= n == cards@.len(),
                raw@ == ranks_of(cards@.subrange(0, i as int)),
            decreases n - i,
        {
            raw.push(cards[i].rank);
            assert(ranks_of(cards@.subrange(0, i + 1)) =~= ranks_of(
                cards@.subrange(0, i as int),
            ).push(cards@[i as int].rank));
            i = i + 1;
        }
        assert(cards@.subrange(0, n as int) =~= cards@);
        let tiebreak = sort_ranks_desc(raw.as_slice());
        return ScoredHand { rank: HandRank::HighCard, tiebreak };
    }
    let combos = combinations(n, 5);
    let ghost cs = deep(combos@);
    proof {
        let c = seq![0usize, 1usize, 2usize, 3usize, 4usize];
        assert forall|a: int, b: int| 0 <= a < b < c.len() implies #[trigger] c[a] < #[trigger] c[b] by {
            assert(c[a] == a && c[b] == b);
        }
        assert forall|a: int| 0 <= a < c.len() implies 0 <= #[trigger] c[a] < n by {
            assert(c[a] == a);
        }
        lemma_combos_complete(0, n as int, 5, c);
        let all = combos_from(0, n as int, 5);
        assert(all.len() > 0);
        assert(cs.len() > 0);
        assert(combos@.len() == cs.len());
    }
    let mut best: Option<ScoredHand> = None;
    let mut t: usize = 0;
    while t < combos.len()
        invariant
            n == cards@.len() >= 5,
            ranks_valid(cards@),
            cs == deep(combos@),
            cs == combinations_spec(n as int, 5),
            t <= combos@.len(),
            t == 0 <==> best is None,
            best is Some ==> best->0.sv() == best_over(cards@, cs.take(t as int)),
        decreases combos@.len() - t,
    {
        proof {
            lemma_combination_entry(n as int, t as int);
        }
        let idx = &combos[t];
        let mut hand: Vec<Card> = Vec::new();
        let mut q: usize = 0;
        while q < idx.len()
            invariant
                q <= idx@.len() == 5,
                idx@ == cs[t as int],
                forall|a: int| 0 <= a < 5 ==> #[trigger] idx@[a] < n,
                n == cards@.len(),
                hand@ == pick(cards@, idx@.subrange(0, q as int)),
            decreases idx@.len() - q,
        {
            hand.push(cards[idx[q]]);
            assert(pick(cards@, idx@.subrange(0, q + 1)) =~= pick(
                cards@,
                idx@.subrange(0, q as int),
            ).push(cards@[idx@[q as int] as int]));
            q = q + 1;
        }
        assert(idx@.subrange(0, 5) =~= idx@);
        assert(ranks_valid(hand@)) by {
            assert forall|a: int| 0 <= a < 5 implies #[trigger] hand@[a].rank <= 14 by {
                assert(hand@[a] == cards@[idx@[a] as int]);
            }
        }
        let scored = evaluate_five(hand.as_slice());
        proof {
            assert(cs.take(t + 1).drop_last() =~= cs.take(t as int));
            assert(cs.take(t + 1).last() == cs[t as int]);
        }
        let replace = match &best {
            None => true,
            Some(b) => beats(&scored, b),
        };
        if replace {
            best = Some(scored);
        }
        t = t + 1;
    }
    assert(cs.take(cs.len() as int) =~= cs);
    match best {
        Some(b) => b,
        None => ScoredHand { rank: HandRank::HighCard, tiebreak: Vec::new() },
    }
}

/// Entry `t` of the enumerated subsets is an increasing list of five
/// positions below `n`.
proof fn lemma_combination_entry(n: int, t: int)
    requires
        5 <= n <= usize::MAX,
        0 <= t < combinations_spec(n, 5).len(),
    ensures
        combinations_spec(n, 5)[t].len() == 5,
        increasing_within(combinations_spec(n, 5)[t], 0, n),
{
    lemma_combos_sound(0, n, 5, t);
}

/// The best hand is the score of one of the enumerated five-card hands, and
/// none of them beats it.
pub proof fn lemma_best_over_is_max(cards: Seq<Card>, cs: Seq<Seq<usize>>)
    requires
        cs.len() > 0,
    ensures
        exists|j: int| 0 <= j < cs.len() && best_over(cards, cs) == eval_five(pick(cards, cs[j])),
        forall|j: int|
            0 <= j < cs.len() ==> !beats_spec(eval_five(pick(cards, #[trigger] cs[j])), best_over(cards, cs)),
    decreases cs.len(),
{
    if cs.len() == 1 {
        let e = eval_five(pick(cards, cs[0]));
        lemma_beats_order(e, e, e);
        assert(best_over(cards, cs) == eval_five(pick(cards, cs[0])));
    } else {
        let init = cs.drop_last();
        lemma_best_over_is_max(cards, init);
        let b = best_over(cards, init);
        let e = eval_five(pick(cards, cs.last()));
        let r = best_over(cards, cs);
        assert forall|j: int| 0 <= j < cs.len() implies !beats_spec(
            eval_five(pick(cards, #[trigger] cs[j])),
            r,
        ) by {
            let x = eval_five(pick(cards, cs[j]));
            if j < cs.len() - 1 {
                assert(init[j] == cs[j]);
                assert(!beats_spec(x, b));
                lemma_beats_order(x, e, b);
            } else {
                lemma_beats_order(e, e, b);
                lemma_beats_order(e, b, e);
            }
        }
        if beats_spec(e, b) {
            assert(r == eval_five(pick(cards, cs[cs.len() - 1])));
        } else {
            let j = choose|j: int| 0 <= j < init.len() && b == eval_five(pick(cards, init[j]));
            assert(cs[j] == init[j]);
        }
    }
}

/// With at most 501 five-card subsets (up to eleven cards), the best hand
/// is the score of some five of the cards, and no five of them score better.
pub proof fn lemma_best_hand_is_best(cards: Seq<Card>, c: Seq<usize>)
    requires
        5 <= cards.len() <= usize::MAX,
        binom(cards.len() as int, 5) <= combination_cap(),
        c.len() == 5,
        increasing_within(c, 0, cards.len() as int),
    ensures
        !beats_spec(eval_five(pick(cards, c)), best_hand_spec(cards)),
        exists|d: Seq<usize>|
            d.len() == 5 && increasing_within(d, 0, cards.len() as int) && best_hand_spec(cards)
                == eval_five(pick(cards, d)),
{
    let n = cards.len() as int;
    lemma_combos_len(0, n, 5);
    let cs = combinations_spec(n, 5);
    assert(cs == combos_from(0, n, 5));
    lemma_combos_complete(0, n, 5, c);
    lemma_best_over_is_max(cards, cs);
    let j = choose|j: int| 0 <= j < cs.len() && cs[j] == c;
    assert(!beats_spec(eval_five(pick(cards, cs[j])), best_over(cards, cs)));
    let k = choose|k: int| 0 <= k < cs.len() && best_over(cards, cs) == eval_five(pick(cards, cs[k]));
    lemma_combos_sound(0, n, 5, k);
}

} // verus!

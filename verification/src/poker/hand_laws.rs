//! What a five-card score means: the groups of equal ranks come first, the
//! largest group leading, and a higher pair beats a lower one.
use vstd::prelude::*;

use super::cards::Card;
use super::hand::{
    beats_spec, count, eval_five, group_ranks, groups, groups_from, groups_of_count, insert_desc,
    is_flush, is_straight, lemma_sort_len, lex_gt, rank_value, ranks_of, sort_desc, wheel,
    HandRank,
};

verus! {

/// Every card's rank is a deck rank, 2 to 14.
pub open spec fn deck_ranks(cards: Seq<Card>) -> bool {
    forall|i: int| 0 <= i < cards.len() ==> 2 <= #[trigger] cards[i].rank <= 14
}

/// No card occurs twice.
pub open spec fn distinct_cards(cards: Seq<Card>) -> bool {
    forall|i: int, j: int| 0 <= i < j < cards.len() ==> #[trigger] cards[i] != #[trigger] cards[j]
}

/// Five different cards of which exactly two share a rank, `p`: one pair.
pub open spec fn one_pair_of(cards: Seq<Card>, p: u8) -> bool {
    &&& cards.len() == 5
    &&& deck_ranks(cards)
    &&& distinct_cards(cards)
    &&& count(ranks_of(cards), p) == 2
    &&& forall|x: u8| x != p ==> count(ranks_of(cards), x) <= 1
}

/// The categories scored by their groups of equal ranks.
pub open spec fn grouped_category(c: HandRank) -> bool {
    c == HandRank::FourOfAKind || c == HandRank::FullHouse || c == HandRank::ThreeOfAKind || c
        == HandRank::TwoPair || c == HandRank::OnePair
}

proof fn lemma_count_insert(y: u8, s: Seq<u8>, x: u8)
    ensures
        count(insert_desc(y, s), x) == count(s, x) + if y == x {
            1nat
        } else {
            0nat
        },
    decreases s.len(),
{
    let one: nat = if y == x {
        1nat
    } else {
        0nat
    };
    if s.len() == 0 {
        let t = insert_desc(y, s);
        assert(t == seq![y]);
        assert(t.drop_first() =~= Seq::<u8>::empty());
        assert(count(t, x) == one + count(t.drop_first(), x));
    } else if y >= s[0] {
        let t = insert_desc(y, s);
        assert(t == seq![y] + s);
        assert(t.drop_first() =~= s);
        assert(count(t, x) == one + count(t.drop_first(), x));
    } else {
        lemma_count_insert(y, s.drop_first(), x);
        let t = insert_desc(y, s);
        assert(t == seq![s[0]] + insert_desc(y, s.drop_first()));
        assert(t.drop_first() =~= insert_desc(y, s.drop_first()));
        assert(t[0] == s[0]);
    }
}

/// Sorting keeps how often each rank occurs.
proof fn lemma_count_sort(s: Seq<u8>, x: u8)
    ensures
        count(sort_desc(s), x) == count(s, x),
    decreases s.len(),
{
    if s.len() > 0 {
        lemma_count_sort(s.drop_first(), x);
        lemma_count_insert(s[0], sort_desc(s.drop_first()), x);
    }
}

proof fn lemma_count_le_len(s: Seq<u8>, x: u8)
    ensures
        count(s, x) <= s.len(),
    decreases s.len(),
{
    if s.len() > 0 {
        lemma_count_le_len(s.drop_first(), x);
    }
}

proof fn lemma_count_absent(s: Seq<u8>, x: u8)
    requires
        forall|i: int| 0 <= i < s.len() ==> s[i] != x,
    ensures
        count(s, x) == 0,
    decreases s.len(),
{
    if s.len() > 0 {
        assert forall|i: int| 0 <= i < s.drop_first().len() implies s.drop_first()[i] != x by {
            assert(s.drop_first()[i] == s[i + 1]);
        }
        lemma_count_absent(s.drop_first(), x);
    }
}

proof fn lemma_count_distinct(s: Seq<u8>, x: u8)
    requires
        forall|i: int, j: int| 0 <= i < j < s.len() ==> s[i] != s[j],
    ensures
        count(s, x) <= 1,
    decreases s.len(),
{
    if s.len() > 0 {
        let t = s.drop_first();
        assert forall|i: int, j: int| 0 <= i < j < t.len() implies t[i] != t[j] by {
            assert(t[i] == s[i + 1] && t[j] == s[j + 1]);
        }
        lemma_count_distinct(t, x);
        if s[0] == x {
            assert forall|i: int| 0 <= i < t.len() implies t[i] != x by {
                assert(t[i] == s[i + 1]);
            }
            lemma_count_absent(t, x);
        }
    }
}

proof fn lemma_count_pos(s: Seq<u8>, x: u8)
    requires
        count(s, x) >= 1,
    ensures
        exists|i: int| 0 <= i < s.len() && s[i] == x,
    decreases s.len(),
{
    if s[0] != x {
        lemma_count_pos(s.drop_first(), x);
        let k = choose|k: int| 0 <= k < s.drop_first().len() && s.drop_first()[k] == x;
        assert(s[k + 1] == x);
    }
}

proof fn lemma_count_two(s: Seq<u8>, x: u8)
    requires
        count(s, x) >= 2,
    ensures
        exists|i: int, j: int| 0 <= i < j < s.len() && s[i] == x && s[j] == x,
    decreases s.len(),
{
    let t = s.drop_first();
    if s[0] == x {
        lemma_count_pos(t, x);
        let k = choose|k: int| 0 <= k < t.len() && t[k] == x;
        assert(s[k + 1] == x);
        assert(0 < k + 1 < s.len() && s[0] == x && s[k + 1] == x);
    } else {
        lemma_count_two(t, x);
        let (i, j) = choose|i: int, j: int| 0 <= i < j < t.len() && t[i] == x && t[j] == x;
        assert(s[i + 1] == x && s[j + 1] == x);
        assert(0 <= i + 1 < j + 1 < s.len() && s[i + 1] == x && s[j + 1] == x);
    }
}

/// The groups with exactly `c` cards among the ranks 2 to `k` are none when
/// no such rank occurs `c` times.
proof fn lemma_goc_empty(r: Seq<u8>, c: u8, k: int)
    requires
        k <= 255,
        forall|x: u8| 2 <= x <= k ==> count(r, x) != c,
    ensures
        groups_of_count(r, c, k).len() == 0,
    decreases k,
{
    if k >= 2 {
        assert(count(r, k as u8) != c);
        lemma_goc_empty(r, c, k - 1);
    }
}

/// Every group listed with `c` cards has count `c`, and a rank that occurs.
proof fn lemma_goc_entries(r: Seq<u8>, c: u8, k: int)
    requires
        k <= 255,
    ensures
        forall|i: int|
            0 <= i < groups_of_count(r, c, k).len() ==> (#[trigger] groups_of_count(r, c, k)[i]).0
                == c && count(r, groups_of_count(r, c, k)[i].1) == c,
    decreases k,
{
    if k >= 2 {
        lemma_goc_entries(r, c, k - 1);
        let g = groups_of_count(r, c, k);
        let rest = groups_of_count(r, c, k - 1);
        if count(r, k as u8) == c {
            assert(g =~= seq![(c, k as u8)] + rest);
            assert forall|i: int| 0 <= i < g.len() implies (#[trigger] g[i]).0 == c && count(r, g[i].1)
                == c by {
                if i > 0 {
                    assert(g[i] == rest[i - 1]);
                }
            }
        } else {
            assert(g =~= rest);
        }
    }
}

/// The first group with `c` cards among ranks 2 to `k` is the highest rank
/// that occurs `c` times.
proof fn lemma_goc_first(r: Seq<u8>, c: u8, k: int)
    requires
        k <= 255,
        groups_of_count(r, c, k).len() > 0,
    ensures
        ({
            let (n, q) = groups_of_count(r, c, k)[0];
            &&& n == c
            &&& 2 <= q <= k
            &&& count(r, q) == c
            &&& forall|x: u8| q < x <= k ==> count(r, x) != c
        }),
    decreases k,
{
    if k >= 2 {
        if count(r, k as u8) != c {
            assert(groups_of_count(r, c, k) =~= groups_of_count(r, c, k - 1));
            lemma_goc_first(r, c, k - 1);
        } else {
            assert(groups_of_count(r, c, k)[0] == (c, k as u8));
        }
    }
}

/// With exactly one rank `p` occurring `c` times, the groups of `c` cards
/// are that one group.
proof fn lemma_goc_single(r: Seq<u8>, c: u8, k: int, p: u8)
    requires
        2 <= p <= k <= 255,
        count(r, p) == c,
        forall|x: u8| x != p ==> count(r, x) != c,
    ensures
        groups_of_count(r, c, k) == seq![(c, p)],
    decreases k,
{
    if k > p {
        assert(count(r, k as u8) != c);
        assert(groups_of_count(r, c, k) =~= groups_of_count(r, c, k - 1));
        lemma_goc_single(r, c, k - 1, p);
    } else {
        lemma_goc_empty(r, c, k - 1);
        assert(groups_of_count(r, c, k) =~= seq![(c, p)]);
    }
}

/// The first of the groups with at most `c` cards is a largest one, and the
/// highest rank among the largest.
proof fn lemma_groups_from_first(r: Seq<u8>, c: int)
    requires
        1 <= c <= 5,
        groups_from(r, c).len() > 0,
        forall|x: u8| 2 <= x <= 14 ==> count(r, x) <= c,
    ensures
        ({
            let (m, q) = groups_from(r, c)[0];
            &&& 1 <= m <= c
            &&& 2 <= q <= 14
            &&& count(r, q) == m
            &&& forall|x: u8| 2 <= x <= 14 ==> count(r, x) <= m
            &&& forall|x: u8| q < x <= 14 ==> count(r, x) < m
        }),
    decreases c,
{
    let g = groups_of_count(r, c as u8, 14);
    if g.len() > 0 {
        lemma_goc_first(r, c as u8, 14);
        assert(groups_from(r, c)[0] == g[0]);
    } else {
        assert(groups_from(r, c) =~= groups_from(r, c - 1));
        assert forall|x: u8| 2 <= x <= 14 implies count(r, x) <= c - 1 by {
            if count(r, x) == c {
                assert(count(r, x) == c as u8);
                lemma_goc_nonempty(r, c as u8, 14, x);
            }
        }
        if c == 1 {
            assert(groups_from(r, 0).len() == 0);
        } else {
            lemma_groups_from_first(r, c - 1);
        }
    }
}

proof fn lemma_goc_nonempty(r: Seq<u8>, c: u8, k: int, x: u8)
    requires
        2 <= x <= k,
        count(r, x) == c,
    ensures
        groups_of_count(r, c, k).len() > 0,
    decreases k,
{
    if count(r, k as u8) != c {
        lemma_goc_nonempty(r, c, k - 1, x);
    }
}

/// Five ranks from 2 to 14: the groups of equal ranks, largest first, begin
/// with a largest group, the highest rank among the largest.
proof fn lemma_groups_first(r: Seq<u8>)
    requires
        r.len() == 5,
        forall|i: int| 0 <= i < r.len() ==> 2 <= #[trigger] r[i] <= 14,
    ensures
        groups(r).len() > 0,
        ({
            let (m, q) = groups(r)[0];
            &&& 2 <= q <= 14
            &&& count(r, q) == m
            &&& forall|x: u8| count(r, x) <= m
            &&& forall|x: u8| q < x ==> count(r, x) < m
        }),
{
    assert forall|x: u8| 2 <= x <= 14 implies count(r, x) <= 5 by {
        lemma_count_le_len(r, x);
    }
    let x0 = r[0];
    assert(count(r, x0) >= 1);
    lemma_count_le_len(r, x0);
    lemma_goc_nonempty(r, count(r, x0) as u8, 14, x0);
    assert(groups(r).len() > 0) by {
        lemma_groups_nonempty(r, 5, count(r, x0) as int, x0);
    }
    lemma_groups_from_first(r, 5);
    let (m, q) = groups(r)[0];
    assert forall|x: u8| !(2 <= x <= 14) implies count(r, x) == 0 by {
        lemma_count_absent(r, x);
    }
    assert(m >= 1);
}

proof fn lemma_groups_nonempty(r: Seq<u8>, c: int, n: int, x: u8)
    requires
        1 <= n <= c <= 5,
        2 <= x <= 14,
        count(r, x) == n,
    ensures
        groups_from(r, c).len() > 0,
    decreases c,
{
    if c == n {
        lemma_goc_nonempty(r, n as u8, 14, x);
    } else {
        lemma_groups_nonempty(r, c - 1, n, x);
    }
}

/// The sorted ranks of five cards are those cards' ranks, each as often.
proof fn lemma_sorted_ranks(cards: Seq<Card>)
    requires
        cards.len() == 5,
        deck_ranks(cards),
    ensures
        sort_desc(ranks_of(cards)).len() == 5,
        forall|x: u8| count(sort_desc(ranks_of(cards)), x) == count(ranks_of(cards), x),
        forall|i: int| 0 <= i < 5 ==> 2 <= #[trigger] sort_desc(ranks_of(cards))[i] <= 14,
{
    let s = ranks_of(cards);
    let r = sort_desc(s);
    lemma_sort_len(s);
    assert forall|x: u8| count(r, x) == count(s, x) by {
        lemma_count_sort(s, x);
    }
    assert forall|i: int| 0 <= i < 5 implies 2 <= #[trigger] r[i] <= 14 by {
        let x = r[i];
        lemma_count_absent_not(r, i);
        assert(count(s, x) >= 1);
        lemma_count_pos(s, x);
        let k = choose|k: int| 0 <= k < s.len() && s[k] == x;
        assert(s[k] == cards[k].rank);
    }
}

proof fn lemma_count_absent_not(s: Seq<u8>, i: int)
    requires
        0 <= i < s.len(),
    ensures
        count(s, s[i]) >= 1,
    decreases s.len(),
{
    if i > 0 {
        lemma_count_absent_not(s.drop_first(), i - 1);
        assert(s.drop_first()[i - 1] == s[i]);
    }
}

/// A hand scored by its groups of equal ranks (four of a kind, full house,
/// three of a kind, two pair, one pair) has as its first tie-break rank a
/// rank of its largest group: no rank occurs more often, and no higher rank
/// occurs as often. So for a pair, the pair's rank comes before any kicker.
pub proof fn lemma_tiebreak_leads_with_largest_group(cards: Seq<Card>)
    requires
        cards.len() == 5,
        deck_ranks(cards),
        grouped_category(eval_five(cards).0),
    ensures
        eval_five(cards).1.len() > 0,
        forall|x: u8| #[trigger] count(ranks_of(cards), x) <= count(ranks_of(cards), eval_five(cards).1[0]),
        forall|x: u8|
            x > eval_five(cards).1[0] ==> #[trigger] count(ranks_of(cards), x) < count(
                ranks_of(cards),
                eval_five(cards).1[0],
            ),
{
    lemma_sorted_ranks(cards);
    let r = sort_desc(ranks_of(cards));
    lemma_groups_first(r);
    let g = groups(r);
    assert(group_ranks(g)[0] == g[0].1);
}

/// Five different cards with a pair never form a flush or a straight.
proof fn lemma_pair_not_flush_or_straight(cards: Seq<Card>, p: u8)
    requires
        cards.len() == 5,
        distinct_cards(cards),
        count(ranks_of(cards), p) >= 2,
        deck_ranks(cards),
    ensures
        !is_flush(cards),
        !is_straight(sort_desc(ranks_of(cards))),
{
    let s = ranks_of(cards);
    lemma_count_two(s, p);
    let (i, j) = choose|i: int, j: int| 0 <= i < j < s.len() && s[i] == p && s[j] == p;
    if is_flush(cards) {
        assert forall|k: int| 0 <= k < 5 implies #[trigger] cards[k].suit == cards[0].suit by {
            assert(cards[0].suit == cards[0int + 1].suit);
            assert(cards[1].suit == cards[1int + 1].suit);
            assert(cards[2].suit == cards[2int + 1].suit);
            assert(cards[3].suit == cards[3int + 1].suit);
        }
        assert(cards[i].rank == cards[j].rank);
        assert(cards[i].suit == cards[j].suit);
        assert(cards[i] == cards[j]);
    }
    lemma_sorted_ranks(cards);
    let r = sort_desc(s);
    assert(count(r, p) >= 2);
    if is_straight(r) {
        if r == wheel() {
            assert(r[0] == 14 && r[1] == 5 && r[2] == 4 && r[3] == 3 && r[4] == 2);
        } else {
            assert(r[0] == r[0int + 1] + 1);
            assert(r[1] == r[1int + 1] + 1);
            assert(r[2] == r[2int + 1] + 1);
            assert(r[3] == r[3int + 1] + 1);
        }
        lemma_count_distinct(r, p);
    }
}

/// The score of five different cards with exactly one pair: one pair, led by
/// the pair's rank.
pub proof fn lemma_one_pair_score(cards: Seq<Card>, p: u8)
    requires
        one_pair_of(cards, p),
    ensures
        eval_five(cards).0 == HandRank::OnePair,
        eval_five(cards).1.len() == 4,
        eval_five(cards).1[0] == p,
{
    lemma_pair_not_flush_or_straight(cards, p);
    lemma_sorted_ranks(cards);
    let s = ranks_of(cards);
    let r = sort_desc(s);
    lemma_count_pos(s, p);
    let k = choose|k: int| 0 <= k < s.len() && s[k] == p;
    assert(s[k] == cards[k].rank);
    assert(2 <= p <= 14);
    assert forall|x: u8| count(r, x) != 5 && count(r, x) != 4 && count(r, x) != 3 by {
        if x != p {
            assert(count(s, x) <= 1);
        }
    }
    lemma_goc_empty(r, 5, 14);
    lemma_goc_empty(r, 4, 14);
    lemma_goc_empty(r, 3, 14);
    assert forall|x: u8| x != p implies count(r, x) != 2 && count(r, x) <= 1 by {
        assert(count(s, x) <= 1);
    }
    lemma_goc_single(r, 2, 14, p);
    lemma_goc_entries(r, 1, 14);
    let ones = groups_of_count(r, 1, 14);
    assert(groups_from(r, 0).len() == 0);
    assert(groups_from(r, 1) =~= ones);
    assert(groups_from(r, 2) =~= seq![(2u8, p)] + ones);
    assert(groups_from(r, 3) =~= seq![(2u8, p)] + ones);
    assert(groups_from(r, 4) =~= seq![(2u8, p)] + ones);
    assert(groups_from(r, 5) =~= seq![(2u8, p)] + ones);
    let g = groups(r);
    assert(g =~= seq![(2u8, p)] + ones);
    // the four other cards each have a rank of their own: three singles
    lemma_singles(r, p);
    assert(ones.len() == 3);
    assert(group_ranks(g)[0] == p);
}

/// Beside the pair, the other three ranks each occur once.
proof fn lemma_singles(r: Seq<u8>, p: u8)
    requires
        2 <= p <= 14,
        r.len() == 5,
        forall|i: int| 0 <= i < 5 ==> 2 <= #[trigger] r[i] <= 14,
        count(r, p) == 2,
        forall|x: u8| x != p ==> count(r, x) <= 1,
    ensures
        groups_of_count(r, 1, 14).len() == 3,
{
    lemma_ones_len(r, p, 14);
    lemma_count_ranges(r, p, 14);
}

/// How many ranks other than `p` up to `k` occur in `r`.
spec fn others_upto(r: Seq<u8>, p: u8, k: int) -> nat
    decreases k,
{
    if k < 2 {
        0
    } else {
        others_upto(r, p, k - 1) + if k != p && count(r, k as u8) == 1 {
            1nat
        } else {
            0nat
        }
    }
}

/// The total of `count(r, x)` over ranks 2 to `k`.
spec fn count_upto(r: Seq<u8>, k: int) -> nat
    decreases k,
{
    if k < 2 {
        0
    } else {
        count_upto(r, k - 1) + count(r, k as u8)
    }
}

proof fn lemma_ones_len(r: Seq<u8>, p: u8, k: int)
    requires
        k <= 14,
        count(r, p) == 2,
        forall|x: u8| x != p ==> count(r, x) <= 1,
    ensures
        groups_of_count(r, 1, k).len() == others_upto(r, p, k),
        count_upto(r, k) == others_upto(r, p, k) + if 2 <= p <= k {
            2nat
        } else {
            0nat
        },
    decreases k,
{
    if k >= 2 {
        lemma_ones_len(r, p, k - 1);
        if k as u8 != p {
            assert(count(r, k as u8) <= 1);
        }
    }
}

/// The counts over ranks 2 to 14 add up to the five cards.
proof fn lemma_count_ranges(r: Seq<u8>, p: u8, k: int)
    requires
        k == 14,
        r.len() == 5,
        forall|i: int| 0 <= i < 5 ==> 2 <= #[trigger] r[i] <= 14,
    ensures
        count_upto(r, k) == 5,
{
    lemma_count_upto_len(r, 14);
}

proof fn lemma_count_upto_empty(r: Seq<u8>, k: int)
    requires
        r.len() == 0,
    ensures
        count_upto(r, k) == 0,
    decreases k,
{
    if k >= 2 {
        lemma_count_upto_empty(r, k - 1);
    }
}

proof fn lemma_count_upto_len(r: Seq<u8>, k: int)
    requires
        k == 14,
        forall|i: int| 0 <= i < r.len() ==> 2 <= #[trigger] r[i] <= 14,
    ensures
        count_upto(r, k) == r.len(),
    decreases r.len(),
{
    if r.len() > 0 {
        let t = r.drop_first();
        assert forall|i: int| 0 <= i < t.len() implies 2 <= #[trigger] t[i] <= 14 by {
            assert(t[i] == r[i + 1]);
        }
        lemma_count_upto_len(t, 14);
        assert(2 <= r[0] <= 14);
        lemma_count_upto_step(r, 14);
    } else {
        lemma_count_upto_empty(r, k);
    }
}

proof fn lemma_count_upto_step(r: Seq<u8>, k: int)
    requires
        r.len() > 0,
        2 <= k <= 14,
        2 <= r[0] <= 14,
    ensures
        count_upto(r, k) == count_upto(r.drop_first(), k) + if r[0] <= k {
            1nat
        } else {
            0nat
        },
    decreases k,
{
    if k > 2 {
        lemma_count_upto_step(r, k - 1);
    } else {
        assert(count_upto(r, 1) == 0);
        assert(count_upto(r.drop_first(), 1) == 0);
    }
}

/// Of two one-pair hands of different cards, the higher pair wins, whatever
/// the kickers: the pair's rank is compared before any of them.
pub proof fn lemma_higher_pair_wins(a: Seq<Card>, pa: u8, b: Seq<Card>, pb: u8)
    requires
        one_pair_of(a, pa),
        one_pair_of(b, pb),
        pa > pb,
    ensures
        eval_five(a).0 == HandRank::OnePair,
        eval_five(b).0 == HandRank::OnePair,
        beats_spec(eval_five(a), eval_five(b)),
        !beats_spec(eval_five(b), eval_five(a)),
{
    lemma_one_pair_score(a, pa);
    lemma_one_pair_score(b, pb);
    let ta = eval_five(a).1;
    let tb = eval_five(b).1;
    assert(lex_gt(ta, tb));
    assert(!lex_gt(tb, ta));
    assert(rank_value(eval_five(a).0) == rank_value(eval_five(b).0));
}

proof fn lemma_count_sum2(s: Seq<u8>, x: u8, y: u8)
    requires
        x != y,
    ensures
        count(s, x) + count(s, y) <= s.len(),
    decreases s.len(),
{
    if s.len() > 0 {
        lemma_count_sum2(s.drop_first(), x, y);
    }
}

proof fn lemma_count_sum3(s: Seq<u8>, x: u8, y: u8, z: u8)
    requires
        x != y && y != z && x != z,
    ensures
        count(s, x) + count(s, y) + count(s, z) <= s.len(),
    decreases s.len(),
{
    if s.len() > 0 {
        lemma_count_sum3(s.drop_first(), x, y, z);
    }
}

proof fn lemma_goc_two(r: Seq<u8>, c: u8, k: int, x: u8, y: u8)
    requires
        x != y,
        2 <= x <= k,
        2 <= y <= k,
        k <= 255,
        count(r, x) == c,
        count(r, y) == c,
    ensures
        groups_of_count(r, c, k).len() >= 2,
    decreases k,
{
    if k == x {
        lemma_goc_nonempty(r, c, k - 1, y);
    } else if k == y {
        lemma_goc_nonempty(r, c, k - 1, x);
    } else {
        lemma_goc_two(r, c, k - 1, x, y);
    }
}

proof fn lemma_groups_split(r: Seq<u8>)
    ensures
        groups(r) == groups_of_count(r, 5, 14) + groups_of_count(r, 4, 14) + groups_of_count(r, 3, 14)
            + groups_of_count(r, 2, 14) + groups_of_count(r, 1, 14),
{
    let g1 = groups_of_count(r, 1, 14);
    let g2 = groups_of_count(r, 2, 14);
    let g3 = groups_of_count(r, 3, 14);
    let g4 = groups_of_count(r, 4, 14);
    let g5 = groups_of_count(r, 5, 14);
    assert(groups_from(r, 0).len() == 0);
    assert(groups_from(r, 1) =~= g1);
    assert(groups_from(r, 2) =~= g2 + g1);
    assert(groups_from(r, 3) =~= g3 + g2 + g1);
    assert(groups_from(r, 4) =~= g4 + g3 + g2 + g1);
    assert(groups_from(r, 5) =~= g5 + g4 + g3 + g2 + g1);
}

/// How often a rank occurs among the cards.
pub open spec fn mult(cards: Seq<Card>, x: u8) -> nat {
    count(ranks_of(cards), x)
}

/// Facts about five different cards that the category laws share.
proof fn lemma_five_setup(cards: Seq<Card>)
    requires
        cards.len() == 5,
        deck_ranks(cards),
    ensures
        sort_desc(ranks_of(cards)).len() == 5,
        forall|i: int| 0 <= i < 5 ==> 2 <= #[trigger] sort_desc(ranks_of(cards))[i] <= 14,
        forall|x: u8| count(sort_desc(ranks_of(cards)), x) == mult(cards, x),
        forall|x: u8| mult(cards, x) >= 1 ==> 2 <= x <= 14,
        groups(sort_desc(ranks_of(cards))) == groups_of_count(sort_desc(ranks_of(cards)), 5, 14)
            + groups_of_count(sort_desc(ranks_of(cards)), 4, 14) + groups_of_count(
            sort_desc(ranks_of(cards)),
            3,
            14,
        ) + groups_of_count(sort_desc(ranks_of(cards)), 2, 14) + groups_of_count(
            sort_desc(ranks_of(cards)),
            1,
            14,
        ),
{
    lemma_sorted_ranks(cards);
    let s = ranks_of(cards);
    lemma_groups_split(sort_desc(s));
    assert forall|x: u8| mult(cards, x) >= 1 implies 2 <= x <= 14 by {
        lemma_count_pos(s, x);
        let k = choose|k: int| 0 <= k < s.len() && s[k] == x;
        assert(s[k] == cards[k].rank);
    }
}

proof fn lemma_four(cards: Seq<Card>, x: u8)
    requires
        cards.len() == 5,
        deck_ranks(cards),
        distinct_cards(cards),
        mult(cards, x) == 4,
    ensures
        eval_five(cards).0 == HandRank::FourOfAKind,
{
    lemma_five_setup(cards);
    lemma_pair_not_flush_or_straight(cards, x);
    let r = sort_desc(ranks_of(cards));
    lemma_groups_first(r);
    let (m, q) = groups(r)[0];
    if q != x {
        lemma_count_sum2(r, q, x);
    }
}

proof fn lemma_full_house(cards: Seq<Card>, x: u8, y: u8)
    requires
        cards.len() == 5,
        deck_ranks(cards),
        distinct_cards(cards),
        mult(cards, x) == 3,
        mult(cards, y) == 2,
    ensures
        eval_five(cards).0 == HandRank::FullHouse,
{
    lemma_five_setup(cards);
    lemma_pair_not_flush_or_straight(cards, x);
    let r = sort_desc(ranks_of(cards));
    assert forall|z: u8| z != x implies count(r, z) != 3 && count(r, z) != 4 && count(r, z) != 5 by {
        lemma_count_sum2(r, x, z);
    }
    assert forall|z: u8| z != y implies count(r, z) != 2 by {
        if z != x {
            lemma_count_sum3(r, x, y, z);
        }
    }
    assert forall|z: u8| count(r, z) != 5 && count(r, z) != 4 by {
        if z != x {
            lemma_count_sum2(r, x, z);
        }
    }
    lemma_goc_empty(r, 5, 14);
    lemma_goc_empty(r, 4, 14);
    lemma_goc_single(r, 3, 14, x);
    lemma_goc_single(r, 2, 14, y);
    let g = groups(r);
    assert(g[0] == (3u8, x));
    assert(g[1] == (2u8, y));
}

proof fn lemma_three(cards: Seq<Card>, x: u8)
    requires
        cards.len() == 5,
        deck_ranks(cards),
        distinct_cards(cards),
        mult(cards, x) == 3,
        forall|z: u8| z != x ==> mult(cards, z) <= 1,
    ensures
        eval_five(cards).0 == HandRank::ThreeOfAKind,
{
    lemma_five_setup(cards);
    lemma_pair_not_flush_or_straight(cards, x);
    let r = sort_desc(ranks_of(cards));
    assert forall|z: u8| z != x implies count(r, z) <= 1 by {
        assert(mult(cards, z) <= 1);
    }
    lemma_goc_empty(r, 5, 14);
    lemma_goc_empty(r, 4, 14);
    lemma_goc_single(r, 3, 14, x);
    lemma_goc_empty(r, 2, 14);
    lemma_goc_entries(r, 1, 14);
    let g = groups(r);
    let g1 = groups_of_count(r, 1, 14);
    assert(g[0] == (3u8, x));
    if g.len() > 1 {
        assert(g[1] == g1[0]);
    }
}

proof fn lemma_two_pair(cards: Seq<Card>, x: u8, y: u8)
    requires
        cards.len() == 5,
        deck_ranks(cards),
        distinct_cards(cards),
        x != y,
        mult(cards, x) == 2,
        mult(cards, y) == 2,
        forall|z: u8| z != x && z != y ==> mult(cards, z) <= 1,
    ensures
        eval_five(cards).0 == HandRank::TwoPair,
{
    lemma_five_setup(cards);
    lemma_pair_not_flush_or_straight(cards, x);
    let r = sort_desc(ranks_of(cards));
    assert forall|z: u8| count(r, z) <= 2 by {
        if z != x && z != y {
            assert(mult(cards, z) <= 1);
        }
    }
    lemma_goc_empty(r, 5, 14);
    lemma_goc_empty(r, 4, 14);
    lemma_goc_empty(r, 3, 14);
    lemma_goc_two(r, 2, 14, x, y);
    lemma_goc_entries(r, 2, 14);
    let g = groups(r);
    let g2 = groups_of_count(r, 2, 14);
    assert(g[0] == g2[0]);
    assert(g[1] == g2[1]);
}

proof fn lemma_repeat_not_flush(cards: Seq<Card>, x: u8)
    requires
        cards.len() == 5,
        deck_ranks(cards),
        distinct_cards(cards),
        mult(cards, x) >= 2,
    ensures
        !is_flush(cards),
        eval_five(cards).0 != HandRank::Flush,
        eval_five(cards).0 != HandRank::Straight,
        eval_five(cards).0 != HandRank::StraightFlush,
{
    lemma_five_setup(cards);
    lemma_pair_not_flush_or_straight(cards, x);
}

/// The category of five different cards follows from how often their ranks
/// occur: four of a rank is four of a kind; three of one rank and two of
/// another, a full house; three of one rank and the others single, three
/// of a kind; two ranks twice each and the fifth card single, two pair; and
/// with a rank twice or more the hand is never a flush or a straight.
pub proof fn lemma_category_by_multiplicity(cards: Seq<Card>)
    requires
        cards.len() == 5,
        deck_ranks(cards),
        distinct_cards(cards),
    ensures
        (exists|x: u8| mult(cards, x) == 4) ==> eval_five(cards).0 == HandRank::FourOfAKind,
        (exists|x: u8, y: u8| mult(cards, x) == 3 && mult(cards, y) == 2) ==> eval_five(cards).0
            == HandRank::FullHouse,
        (exists|x: u8| mult(cards, x) == 3 && forall|z: u8| z != x ==> mult(cards, z) <= 1) ==> eval_five(
            cards,
        ).0 == HandRank::ThreeOfAKind,
        (exists|x: u8, y: u8|
            x != y && mult(cards, x) == 2 && mult(cards, y) == 2 && forall|z: u8|
                z != x && z != y ==> mult(cards, z) <= 1) ==> eval_five(cards).0 == HandRank::TwoPair,
        (exists|x: u8| mult(cards, x) >= 2) ==> !is_flush(cards) && eval_five(cards).0 != HandRank::Flush
            && eval_five(cards).0 != HandRank::Straight && eval_five(cards).0 != HandRank::StraightFlush,
{
    if exists|x: u8| mult(cards, x) == 4 {
        let x = choose|x: u8| mult(cards, x) == 4;
        lemma_four(cards, x);
    }
    if exists|x: u8, y: u8| mult(cards, x) == 3 && mult(cards, y) == 2 {
        let (x, y) = choose|x: u8, y: u8| mult(cards, x) == 3 && mult(cards, y) == 2;
        lemma_full_house(cards, x, y);
    }
    if exists|x: u8| mult(cards, x) == 3 && forall|z: u8| z != x ==> mult(cards, z) <= 1 {
        let x = choose|x: u8| mult(cards, x) == 3 && forall|z: u8| z != x ==> mult(cards, z) <= 1;
        lemma_three(cards, x);
    }
    if exists|x: u8, y: u8|
        x != y && mult(cards, x) == 2 && mult(cards, y) == 2 && forall|z: u8|
            z != x && z != y ==> mult(cards, z) <= 1 {
        let (x, y) = choose|x: u8, y: u8|
            x != y && mult(cards, x) == 2 && mult(cards, y) == 2 && forall|z: u8|
                z != x && z != y ==> mult(cards, z) <= 1;
        lemma_two_pair(cards, x, y);
    }
    if exists|x: u8| mult(cards, x) >= 2 {
        let x = choose|x: u8| mult(cards, x) >= 2;
        lemma_repeat_not_flush(cards, x);
    }
}

/// Highest first: no rank is above one before it.
pub open spec fn descending(t: Seq<u8>) -> bool {
    forall|i: int, j: int| 0 <= i < j < t.len() ==> #[trigger] t[i] >= #[trigger] t[j]
}

proof fn lemma_member_of_count(s: Seq<u8>, y: u8)
    requires
        count(s, y) >= 1,
    ensures
        s.contains(y),
{
    lemma_count_pos(s, y);
}

proof fn lemma_insert_descending(x: u8, s: Seq<u8>)
    requires
        descending(s),
    ensures
        descending(insert_desc(x, s)),
    decreases s.len(),
{
    if s.len() == 0 {
    } else if x >= s[0] {
        let t = seq![x] + s;
        assert forall|i: int, j: int| 0 <= i < j < t.len() implies #[trigger] t[i] >= #[trigger] t[j] by {
            if i == 0 {
                assert(t[j] == s[j - 1]);
                assert(s[0] >= s[j - 1]);
            } else {
                assert(t[i] == s[i - 1] && t[j] == s[j - 1]);
            }
        }
    } else {
        let rest = s.drop_first();
        assert forall|i: int, j: int| 0 <= i < j < rest.len() implies #[trigger] rest[i] >= #[trigger] rest[j] by {
            assert(rest[i] == s[i + 1] && rest[j] == s[j + 1]);
        }
        lemma_insert_descending(x, rest);
        let u = insert_desc(x, rest);
        let t = seq![s[0]] + u;
        assert forall|j: int| 0 <= j < u.len() implies s[0] >= #[trigger] u[j] by {
            lemma_count_absent_not(u, j);
            lemma_count_insert(x, rest, u[j]);
            if u[j] != x {
                lemma_count_pos(rest, u[j]);
                let k = choose|k: int| 0 <= k < rest.len() && rest[k] == u[j];
                assert(s[0] >= s[k + 1]);
            }
        }
        assert forall|i: int, j: int| 0 <= i < j < t.len() implies #[trigger] t[i] >= #[trigger] t[j] by {
            if i == 0 {
                assert(t[j] == u[j - 1]);
            } else {
                assert(t[i] == u[i - 1] && t[j] == u[j - 1]);
            }
        }
    }
}

proof fn lemma_sort_descending(s: Seq<u8>)
    ensures
        descending(sort_desc(s)),
    decreases s.len(),
{
    if s.len() > 0 {
        lemma_sort_descending(s.drop_first());
        lemma_insert_descending(s[0], sort_desc(s.drop_first()));
    }
}

/// A high card or a flush is broken by all five ranks, highest first: the
/// tie-break is the hand's ranks, each as often as in the hand, descending.
pub proof fn lemma_flat_tiebreak(cards: Seq<Card>)
    requires
        cards.len() == 5,
        deck_ranks(cards),
        eval_five(cards).0 == HandRank::HighCard || eval_five(cards).0 == HandRank::Flush,
    ensures
        eval_five(cards).1.len() == 5,
        descending(eval_five(cards).1),
        forall|x: u8| #[trigger] count(eval_five(cards).1, x) == count(ranks_of(cards), x),
{
    lemma_sorted_ranks(cards);
    lemma_sort_descending(ranks_of(cards));
}

/// A straight is broken by its top card: the highest rank of the hand, or
/// 5 for the ace-low straight (the one with both an ace and a two).
pub proof fn lemma_straight_tiebreak(cards: Seq<Card>)
    requires
        cards.len() == 5,
        deck_ranks(cards),
        eval_five(cards).0 == HandRank::Straight || eval_five(cards).0 == HandRank::StraightFlush,
    ensures
        eval_five(cards).1.len() == 1,
        count(ranks_of(cards), 14) >= 1 && count(ranks_of(cards), 2) >= 1 ==> eval_five(cards).1[0] == 5,
        !(count(ranks_of(cards), 14) >= 1 && count(ranks_of(cards), 2) >= 1) ==> {
            &&& count(ranks_of(cards), eval_five(cards).1[0]) >= 1
            &&& forall|x: u8| #[trigger] count(ranks_of(cards), x) >= 1 ==> x <= eval_five(cards).1[0]
        },
{
    lemma_sorted_ranks(cards);
    let s = ranks_of(cards);
    let r = sort_desc(s);
    lemma_sort_descending(s);
    lemma_count_absent_not(r, 0);
    assert forall|x: u8| #[trigger] count(s, x) >= 1 implies x <= r[0] by {
        lemma_count_pos(r, x);
        let k = choose|k: int| 0 <= k < r.len() && r[k] == x;
        if k > 0 {
            assert(r[0] >= r[k]);
        }
    }
    if r == wheel() {
        assert(r[0] == 14 && r[4] == 2);
        lemma_count_absent_not(r, 4);
    } else {
        assert(r[0] == r[0int + 1] + 1);
        assert(r[1] == r[1int + 1] + 1);
        assert(r[2] == r[2int + 1] + 1);
        assert(r[3] == r[3int + 1] + 1);
        if count(s, 14) >= 1 && count(s, 2) >= 1 {
            lemma_count_pos(r, 14);
            lemma_count_pos(r, 2);
            let a = choose|k: int| 0 <= k < r.len() && r[k] == 14;
            let b = choose|k: int| 0 <= k < r.len() && r[k] == 2;
            assert(r[0] == r[4] + 4);
            assert(false);
        }
    }
}

} // verus!

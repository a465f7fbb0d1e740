//! The vocabulary review queue (spaced repetition, Leitner style).
//!
//! A right answer doubles an item's interval, up to a ceiling; a wrong one
//! sets it back to zero, due again at once. The term's path in the lexicon is
//! the item's key: no path is queued twice. Times are milliseconds since the
//! Unix epoch.
use vstd::prelude::*;
use crate::text::str_eq;

verus! {

/// The longest interval, in days, between two reviews.
pub const MAX_INTERVAL_DAYS: u32 = 365;

/// One day in milliseconds.
pub const DAY_MS: i64 = 86_400_000;

/// A term scheduled for review.
#[derive(Debug, Clone, PartialEq)]
pub struct ReviewItem {
    /// The entry's path in the lexicon: the item's key.
    pub term_path: String,
    pub word: String,
    pub lang: String,
    pub gloss: Option<String>,
    pub added_at: i64,
    pub due_at: i64,
    /// Days until the next review; 0 means today.
    pub interval_days: u32,
    /// Right answers in a row.
    pub reps: u32,
    /// Wrong answers in all.
    pub lapses: u32,
}

/// The interval after a right answer.
pub open spec fn next_interval(d: u32) -> u32 {
    if d == 0 {
        1
    } else if 2 * d >= MAX_INTERVAL_DAYS {
        MAX_INTERVAL_DAYS
    } else {
        (2 * d) as u32
    }
}

impl ReviewItem {
    /// A new item, due at once.
    pub fn new(term_path: &str, word: &str, lang: &str, gloss: Option<String>, now: i64) -> (r: Self)
        ensures
            r.term_path@ == term_path@,
            r.word@ == word@,
            r.lang@ == lang@,
            r.gloss == gloss,
            r.added_at == now,
            r.due_at == now,
            r.interval_days == 0,
            r.reps == 0,
            r.lapses == 0,
    {
        ReviewItem {
            term_path: term_path.to_string(),
            word: word.to_string(),
            lang: lang.to_string(),
            gloss,
            added_at: now,
            due_at: now,
            interval_days: 0,
            reps: 0,
            lapses: 0,
        }
    }

    /// Records an answer given at `now` and schedules the next review: a right
    /// one doubles the interval (from 0 to 1, at most [`MAX_INTERVAL_DAYS`]),
    /// a wrong one resets it to 0, due at `now`.
    pub fn grade(&mut self, correct: bool, now: i64)
        requires
            correct ==> old(self).reps < u32::MAX,
            correct ==> now + next_interval(old(self).interval_days) * DAY_MS <= i64::MAX,
            !correct ==> old(self).lapses < u32::MAX,
        ensures
            final(self).term_path == old(self).term_path,
            final(self).word == old(self).word,
            final(self).lang == old(self).lang,
            final(self).gloss == old(self).gloss,
            final(self).added_at == old(self).added_at,
            final(self).interval_days <= MAX_INTERVAL_DAYS,
            correct ==> {
                &&& final(self).reps == old(self).reps + 1
                &&& final(self).lapses == old(self).lapses
                &&& final(self).interval_days == next_interval(old(self).interval_days)
                &&& final(self).due_at == now + final(self).interval_days * DAY_MS
            },
            !correct ==> {
                &&& final(self).reps == 0
                &&& final(self).lapses == old(self).lapses + 1
                &&& final(self).interval_days == 0
                &&& final(self).due_at == now
            },
    {
        if correct {
            self.reps = self.reps + 1;
            self.interval_days = if self.interval_days == 0 {
                1
            } else {
                if self.interval_days >= 183 {
                    MAX_INTERVAL_DAYS
                } else {
                    self.interval_days * 2
                }
            };
            let days = self.interval_days as i64;
            self.due_at = now + days * DAY_MS;
        } else {
            self.lapses = self.lapses + 1;
            self.reps = 0;
            self.interval_days = 0;
            self.due_at = now;
        }
    }

    /// Whether the item is due at `now`.
    pub fn is_due(&self, now: i64) -> (r: bool)
        ensures
            r == (self.due_at <= now),
    {
        self.due_at <= now
    }
}

/// No term path occurs twice.
pub open spec fn paths_unique(items: Seq<ReviewItem>) -> bool {
    forall|i: int, j: int|
        0 <= i < items.len() && 0 <= j < items.len() && i != j ==> #[trigger] items[i].term_path@
            != #[trigger] items[j].term_path@
}

/// Some item has the term path `p`.
pub open spec fn has_path(items: Seq<ReviewItem>, p: Seq<char>) -> bool {
    exists|i: int| 0 <= i < items.len() && #[trigger] items[i].term_path@ == p
}

/// Item `a` comes before item `b` among the due ones: earlier due time, the
/// earlier position on a tie.
pub open spec fn due_before(items: Seq<ReviewItem>, a: int, b: int) -> bool {
    items[a].due_at < items[b].due_at || (items[a].due_at == items[b].due_at && a < b)
}

/// `idx` lists exactly the positions of the items due at `now`, earliest due
/// first and in queue order on ties.
pub open spec fn due_order(items: Seq<ReviewItem>, now: i64, idx: Seq<usize>) -> bool {
    &&& forall|k: int| 0 <= k < idx.len() ==> #[trigger] idx[k] < items.len()
    &&& forall|k: int| 0 <= k < idx.len() ==> items[#[trigger] idx[k] as int].due_at <= now
    &&& forall|i: int|
        0 <= i < items.len() && #[trigger] items[i].due_at <= now ==> exists|k: int|
            0 <= k < idx.len() && #[trigger] idx[k] == i
    &&& forall|k: int, l: int|
        0 <= k < l < idx.len() ==> due_before(items, #[trigger] idx[k] as int, #[trigger] idx[l] as int)
}

/// A user's review queue.
#[derive(Debug, Clone, PartialEq)]
pub struct ReviewQueue {
    pub items: Vec<ReviewItem>,
}

impl ReviewQueue {
    /// The empty queue.
    pub fn new() -> (r: Self)
        ensures
            r.items@.len() == 0,
    {
        ReviewQueue { items: Vec::new() }
    }

    /// The position of the item with term path `p`, if there is one.
    pub fn index_of(&self, p: &str) -> (r: Option<usize>)
        ensures
            match r {
                Some(i) => i < self.items@.len() && self.items@[i as int].term_path@ == p@ && forall|j: int|
                    0 <= j < i ==> #[trigger] self.items@[j].term_path@ != p@,
                None => !has_path(self.items@, p@),
            },
    {
        let mut i: usize = 0;
        while i < self.items.len()
            invariant
                i <= self.items@.len(),
                forall|j: int| 0 <= j < i ==> #[trigger] self.items@[j].term_path@ != p@,
            decreases self.items@.len() - i,
        {
            if str_eq(self.items[i].term_path.as_str(), p) {
                return Some(i);
            }
            i = i + 1;
        }
        None
    }

    /// The first item with term path `p`, to change in place; the queue
    /// keeps whatever the item becomes.
    pub fn get_mut(&mut self, p: &str) -> (r: Option<&mut ReviewItem>)
        ensures
            match r {
                Some(e) => exists|i: int|
                    0 <= i < old(self).items@.len() && old(self).items@[i].term_path@ == p@ && (forall|j: int|
                        0 <= j < i ==> #[trigger] old(self).items@[j].term_path@ != p@) && *e == old(
                        self,
                    ).items@[i] && final(self).items@ == old(self).items@.update(i, *final(e)),
                None => !has_path(old(self).items@, p@) && *final(self) == *old(self),
            },
    {
        match self.index_of(p) {
            Some(i) => Some(&mut self.items[i]),
            None => None,
        }
    }

    /// Adds `item` unless its term path is queued already, in which case the
    /// queued item and its schedule stay as they are. `true` when added.
    pub fn upsert(&mut self, item: ReviewItem) -> (r: bool)
        ensures
            paths_unique(old(self).items@) ==> paths_unique(final(self).items@),
            r == !has_path(old(self).items@, item.term_path@),
            r ==> final(self).items@ == old(self).items@.push(item),
            !r ==> final(self).items@ == old(self).items@,
    {
        match self.index_of(item.term_path.as_str()) {
            Some(_) => false,
            None => {
                let ghost s = self.items@;
                self.items.push(item);
                proof {
                    let t = self.items@;
                    if paths_unique(s) {
                        assert forall|i: int, j: int|
                            0 <= i < t.len() && 0 <= j < t.len() && i != j implies #[trigger] t[i].term_path@
                            != #[trigger] t[j].term_path@ by {
                            if i < s.len() && j < s.len() {
                                assert(s[i].term_path@ != s[j].term_path@);
                            } else if i < s.len() {
                                assert(t[i] == s[i]);
                            } else {
                                assert(t[j] == s[j]);
                            }
                        }
                    }
                }
                true
            },
        }
    }

    /// The positions of the items due at `now`, earliest due first (queue
    /// order on ties).
    pub fn due_indices(&self, now: i64) -> (r: Vec<usize>)
        ensures
            due_order(self.items@, now, r@),
    {
        let items = &self.items;
        let mut r: Vec<usize> = Vec::new();
        let mut i: usize = 0;
        while i < items.len()
            invariant
                i <= items@.len(),
                forall|k: int| 0 <= k < r@.len() ==> #[trigger] r@[k] < i,
                forall|k: int| 0 <= k < r@.len() ==> items@[#[trigger] r@[k] as int].due_at <= now,
                forall|j: int|
                    0 <= j < i && #[trigger] items@[j].due_at <= now ==> exists|k: int|
                        0 <= k < r@.len() && #[trigger] r@[k] == j,
                forall|k: int, l: int|
                    0 <= k < l < r@.len() ==> due_before(items@, #[trigger] r@[k] as int, #[trigger] r@[l] as int),
            decreases items@.len() - i,
        {
            let d = items[i].due_at;
            if d <= now {
                let mut pos: usize = r.len();
                while pos > 0 && items[r[pos - 1]].due_at > d
                    invariant
                        pos <= r@.len(),
                        i < items@.len(),
                        d == items@[i as int].due_at,
                        forall|k: int| 0 <= k < r@.len() ==> #[trigger] r@[k] < i,
                        forall|k: int| pos <= k < r@.len() ==> items@[#[trigger] r@[k] as int].due_at > d,
                    decreases pos,
                {
                    pos = pos - 1;
                }
                let ghost old_r = r@;
                r.insert(pos, i);
                proof {
                    assert forall|k: int| 0 <= k < r@.len() implies #[trigger] r@[k] < i + 1 by {
                        if k < pos {
                            assert(r@[k] == old_r[k]);
                        } else if k > pos {
                            assert(r@[k] == old_r[k - 1]);
                        }
                    }
                    assert forall|k: int| 0 <= k < r@.len() implies items@[#[trigger] r@[k] as int].due_at
                        <= now by {
                        if k < pos {
                            assert(r@[k] == old_r[k]);
                        } else if k > pos {
                            assert(r@[k] == old_r[k - 1]);
                        }
                    }
                    assert forall|j: int|
                        0 <= j < i + 1 && #[trigger] items@[j].due_at <= now implies exists|k: int|
                            0 <= k < r@.len() && #[trigger] r@[k] == j by {
                        if j == i {
                            assert(r@[pos as int] == j);
                        } else {
                            let k0 = choose|k: int| 0 <= k < old_r.len() && #[trigger] old_r[k] == j;
                            if k0 < pos {
                                assert(r@[k0] == j);
                            } else {
                                assert(r@[k0 + 1] == j);
                            }
                        }
                    }
                    assert forall|k: int, l: int|
                        0 <= k < l < r@.len() implies due_before(items@, #[trigger] r@[k] as int, #[trigger] r@[l] as int) by {
                        if l < pos {
                            assert(r@[k] == old_r[k] && r@[l] == old_r[l]);
                        } else if k > pos {
                            assert(r@[k] == old_r[k - 1] && r@[l] == old_r[l - 1]);
                        } else if k == pos {
                            assert(r@[l] == old_r[l - 1]);
                            assert(items@[old_r[l - 1] as int].due_at > d);
                        } else if l == pos {
                            assert(r@[k] == old_r[k]);
                            if pos > 0 {
                                assert(due_before(items@, old_r[k] as int, old_r[pos - 1] as int)
                                    || k == pos - 1);
                                assert(items@[old_r[pos - 1] as int].due_at <= d);
                            }
                            assert(old_r[k] < i);
                        } else {
                            assert(r@[k] == old_r[k] && r@[l] == old_r[l - 1]);
                        }
                    }
                }
            }
            i = i + 1;
        }
        r
    }

    /// The items due at `now`, earliest due first (queue order on ties).
    pub fn due(&self, now: i64) -> (r: Vec<&ReviewItem>)
        ensures
            exists|idx: Seq<usize>|
                due_order(self.items@, now, idx) && idx.len() == r@.len() && forall|k: int|
                    0 <= k < r@.len() ==> *#[trigger] r@[k] == self.items@[idx[k] as int],
    {
        let idx = self.due_indices(now);
        let mut r: Vec<&ReviewItem> = Vec::new();
        let mut k: usize = 0;
        while k < idx.len()
            invariant
                k <= idx@.len(),
                r@.len() == k,
                due_order(self.items@, now, idx@),
                forall|j: int| 0 <= j < k ==> *#[trigger] r@[j] == self.items@[idx@[j] as int],
            decreases idx@.len() - k,
        {
            r.push(&self.items[idx[k]]);
            k = k + 1;
        }
        r
    }
}

/// Once graded, an item's interval never exceeds [`MAX_INTERVAL_DAYS`], and
/// a right answer never shortens an interval already below the ceiling.
pub proof fn lemma_interval_bounded(d: u32)
    ensures
        next_interval(d) <= MAX_INTERVAL_DAYS,
        d < MAX_INTERVAL_DAYS ==> next_interval(d) > d,
{
}

} // verus!

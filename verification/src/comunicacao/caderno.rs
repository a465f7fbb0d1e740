//! The per-user notebook: favourite verses, notes anchored on verses, and
//! reading progress, with a merge that folds a second notebook in without
//! losing anything.
//!
//! Each of the three maps is a list of `(key, value)` pairs with no key twice
//! (see [`crate::keyed`]); its model is a `Map`. Times are milliseconds since
//! the Unix epoch.
use vstd::prelude::*;
use vstd::string::*;
use crate::keyed::{find_key, keyed_map, lemma_keyed_push, put, take_key, unique_keys};
use crate::text::{is_ws, str_chars, trim, trim_chars};
use super::lexicon::{slug_of, slugify};

verus! {

/// A note on a verse: the anchor key, a title and a Markdown body.
#[derive(Debug, Clone, PartialEq, Eq)]
pub struct CadernoNote {
    /// The verse anchor; equal to the note's key in the notebook.
    pub key: String,
    /// The title (the key when the given title is blank).
    pub title: String,
    /// The Markdown body.
    pub markdown: String,
    /// Last change.
    pub updated_at: i64,
}

/// A note as values.
pub struct NoteV {
    pub key: Seq<char>,
    pub title: Seq<char>,
    pub markdown: Seq<char>,
    pub updated_at: i64,
}

impl View for CadernoNote {
    type V = NoteV;

    open spec fn view(&self) -> NoteV {
        NoteV {
            key: self.key@,
            title: self.title@,
            markdown: self.markdown@,
            updated_at: self.updated_at,
        }
    }
}

impl CadernoNote {
    /// A note equal to this one.
    pub fn duplicate(&self) -> (r: CadernoNote)
        ensures
            r@ == self@,
    {
        CadernoNote {
            key: self.key.clone(),
            title: self.title.clone(),
            markdown: self.markdown.clone(),
            updated_at: self.updated_at,
        }
    }
}

/// A user's notebook.
#[derive(Debug, Clone, PartialEq, Eq)]
pub struct Caderno {
    /// Favourite verses, by anchor, with when each became a favourite.
    pub fav: Vec<(String, i64)>,
    /// Notes, by anchor.
    pub notes: Vec<(String, CadernoNote)>,
    /// Reading progress: section anchor to the last verse read.
    pub progress: Vec<(String, String)>,
}

/// A notebook as maps.
pub struct CadernoV {
    pub fav: Map<Seq<char>, i64>,
    pub notes: Map<Seq<char>, NoteV>,
    pub progress: Map<Seq<char>, Seq<char>>,
}

impl View for Caderno {
    type V = CadernoV;

    open spec fn view(&self) -> CadernoV {
        CadernoV {
            fav: keyed_map(self.fav@),
            notes: keyed_map(self.notes@),
            progress: keyed_map(self.progress@),
        }
    }
}

/// The title a note gets: the key when the given title is blank.
pub open spec fn note_title(key: Seq<char>, title: Seq<char>) -> Seq<char> {
    if trim(title).len() == 0 {
        key
    } else {
        title
    }
}

/// Favourites after a merge: both sets of keys; where both have a key, the
/// earlier time.
pub open spec fn fav_merge(a: Map<Seq<char>, i64>, b: Map<Seq<char>, i64>) -> Map<Seq<char>, i64> {
    Map::new(
        |k: Seq<char>| a.dom().contains(k) || b.dom().contains(k),
        |k: Seq<char>|
            if a.dom().contains(k) && (!b.dom().contains(k) || a[k] <= b[k]) {
                a[k]
            } else {
                b[k]
            },
    )
}

/// Notes after a merge: both sets of keys; where both have a key, the one
/// changed later (the first on a tie).
pub open spec fn notes_merge(a: Map<Seq<char>, NoteV>, b: Map<Seq<char>, NoteV>) -> Map<
    Seq<char>,
    NoteV,
> {
    Map::new(
        |k: Seq<char>| a.dom().contains(k) || b.dom().contains(k),
        |k: Seq<char>|
            if a.dom().contains(k) && (!b.dom().contains(k) || a[k].updated_at >= b[k].updated_at) {
                a[k]
            } else {
                b[k]
            },
    )
}

/// The notebook that merging `b` into `a` gives; progress from `b` wins.
pub open spec fn caderno_merge(a: CadernoV, b: CadernoV) -> CadernoV {
    CadernoV {
        fav: fav_merge(a.fav, b.fav),
        notes: notes_merge(a.notes, b.notes),
        progress: a.progress.union_prefer_right(b.progress),
    }
}

proof fn lemma_fav_merge_step(a: Map<Seq<char>, i64>, m: Map<Seq<char>, i64>, k: Seq<char>, w: i64)
    requires
        !m.dom().contains(k),
    ensures
        fav_merge(a, m.insert(k, w)) == fav_merge(a, m).insert(
            k,
            if fav_merge(a, m).dom().contains(k) && fav_merge(a, m)[k] <= w {
                fav_merge(a, m)[k]
            } else {
                w
            },
        ),
{
    let l = fav_merge(a, m.insert(k, w));
    let r = fav_merge(a, m).insert(
        k,
        if fav_merge(a, m).dom().contains(k) && fav_merge(a, m)[k] <= w {
            fav_merge(a, m)[k]
        } else {
            w
        },
    );
    assert(l.dom() =~= r.dom());
    assert(l =~= r);
}

proof fn lemma_notes_merge_step(
    a: Map<Seq<char>, NoteV>,
    m: Map<Seq<char>, NoteV>,
    k: Seq<char>,
    n: NoteV,
)
    requires
        !m.dom().contains(k),
    ensures
        notes_merge(a, m.insert(k, n)) == notes_merge(a, m).insert(
            k,
            if notes_merge(a, m).dom().contains(k) && notes_merge(a, m)[k].updated_at
                >= n.updated_at {
                notes_merge(a, m)[k]
            } else {
                n
            },
        ),
{
    let l = notes_merge(a, m.insert(k, n));
    let r = notes_merge(a, m).insert(
        k,
        if notes_merge(a, m).dom().contains(k) && notes_merge(a, m)[k].updated_at
            >= n.updated_at {
            notes_merge(a, m)[k]
        } else {
            n
        },
    );
    assert(l.dom() =~= r.dom());
    assert(l =~= r);
}

/// The map of the first `i + 1` pairs is that of the first `i` with pair `i`
/// added.
proof fn lemma_take_step<V: View>(s: Seq<(String, V)>, i: int)
    requires
        unique_keys(s),
        0 <= i < s.len(),
    ensures
        unique_keys(s.take(i)),
        !crate::keyed::has_key(s.take(i), s[i].0@),
        keyed_map(s.take(i + 1)) == keyed_map(s.take(i)).insert(s[i].0@, s[i].1@),
{
    let t = s.take(i);
    assert forall|a: int, b: int|
        0 <= a < t.len() && 0 <= b < t.len() && a != b implies #[trigger] t[a].0@ != #[trigger] t[b].0@ by {
        assert(t[a] == s[a] && t[b] == s[b]);
    }
    if crate::keyed::has_key(t, s[i].0@) {
        let j = crate::keyed::key_index(t, s[i].0@);
        assert(t[j] == s[j]);
        assert(s[j].0@ != s[i].0@);
    }
    assert(s.take(i + 1) =~= t.push(s[i]));
    lemma_keyed_push(t, s[i]);
}

proof fn lemma_take_all<V: View>(s: Seq<(String, V)>)
    ensures
        keyed_map(s.take(s.len() as int)) == keyed_map(s),
{
    assert(s.take(s.len() as int) =~= s);
}

impl Caderno {
    /// No key occurs twice in any of the three maps.
    pub open spec fn wf(&self) -> bool {
        &&& unique_keys(self.fav@)
        &&& unique_keys(self.notes@)
        &&& unique_keys(self.progress@)
    }

    /// Marks `key` as a favourite at `when`; a key already marked keeps its
    /// first time. `true` when the key was not marked before.
    pub fn add_fav(&mut self, key: &str, when: i64) -> (r: bool)
        requires
            old(self).wf(),
        ensures
            final(self).wf(),
            r == !old(self)@.fav.dom().contains(key@),
            final(self)@.fav == (if r {
                old(self)@.fav.insert(key@, when)
            } else {
                old(self)@.fav
            }),
            final(self)@.notes == old(self)@.notes,
            final(self)@.progress == old(self)@.progress,
    {
        match find_key(&self.fav, key) {
            Some(i) => {
                proof {
                    crate::keyed::lemma_key_index(self.fav@, i as int);
                }
                false
            },
            None => {
                let k = key.to_string();
                proof {
                    lemma_keyed_push(self.fav@, (k, when));
                }
                self.fav.push((k, when));
                true
            },
        }
    }

    /// Unmarks `key`; `true` when it was marked.
    pub fn remove_fav(&mut self, key: &str) -> (r: bool)
        requires
            old(self).wf(),
        ensures
            final(self).wf(),
            r == old(self)@.fav.dom().contains(key@),
            final(self)@.fav == old(self)@.fav.remove(key@),
            final(self)@.notes == old(self)@.notes,
            final(self)@.progress == old(self)@.progress,
    {
        take_key(&mut self.fav, key)
    }

    /// Creates or replaces the note at `key`; a blank title becomes the key.
    /// `true` when the note is new, `false` when it replaced one.
    pub fn upsert_note(&mut self, key: &str, title: &str, markdown: &str, when: i64) -> (r: bool)
        requires
            old(self).wf(),
        ensures
            final(self).wf(),
            r == !old(self)@.notes.dom().contains(key@),
            final(self)@.notes == old(self)@.notes.insert(
                key@,
                NoteV {
                    key: key@,
                    title: note_title(key@, title@),
                    markdown: markdown@,
                    updated_at: when,
                },
            ),
            final(self)@.fav == old(self)@.fav,
            final(self)@.progress == old(self)@.progress,
    {
        let tc = str_chars(title);
        let trimmed = trim_chars(tc.as_slice());
        let t = if trimmed.len() == 0 {
            key.to_string()
        } else {
            title.to_string()
        };
        let existed = find_key(&self.notes, key).is_some();
        proof {
            if existed {
                let i = choose|i: int| 0 <= i < self.notes@.len() && self.notes@[i].0@ == key@;
                crate::keyed::lemma_key_index(self.notes@, i);
            }
        }
        let note = CadernoNote {
            key: key.to_string(),
            title: t,
            markdown: markdown.to_string(),
            updated_at: when,
        };
        put(&mut self.notes, key.to_string(), note);
        !existed
    }

    /// Deletes the note at `key`; `true` when there was one.
    pub fn remove_note(&mut self, key: &str) -> (r: bool)
        requires
            old(self).wf(),
        ensures
            final(self).wf(),
            r == old(self)@.notes.dom().contains(key@),
            final(self)@.notes == old(self)@.notes.remove(key@),
            final(self)@.fav == old(self)@.fav,
            final(self)@.progress == old(self)@.progress,
    {
        take_key(&mut self.notes, key)
    }

    /// Records `verse` as the last verse read under `key`.
    pub fn set_progress(&mut self, key: &str, verse: &str)
        requires
            old(self).wf(),
        ensures
            final(self).wf(),
            final(self)@.progress == old(self)@.progress.insert(key@, verse@),
            final(self)@.fav == old(self)@.fav,
            final(self)@.notes == old(self)@.notes,
    {
        put(&mut self.progress, key.to_string(), verse.to_string());
    }

    /// Folds `other` into this notebook without losing an entry: favourites
    /// keep the earlier time, the later-changed note wins, and `other`'s
    /// progress overwrites.
    pub fn merge_from(&mut self, other: Caderno)
        requires
            old(self).wf(),
            other.wf(),
        ensures
            final(self).wf(),
            final(self)@ == caderno_merge(old(self)@, other@),
    {
        let ghost a = self@;
        let mut i: usize = 0;
        proof {
            assert(other.fav@.take(0) =~= Seq::<(String, i64)>::empty());
            assert(fav_merge(a.fav, keyed_map(other.fav@.take(0))) =~= a.fav);
        }
        while i < other.fav.len()
            invariant
                unique_keys(self.fav@),
                unique_keys(other.fav@),
                i <= other.fav@.len(),
                keyed_map(self.fav@) == fav_merge(a.fav, keyed_map(other.fav@.take(i as int))),
                self@.notes == a.notes,
                self@.progress == a.progress,
                unique_keys(self.notes@),
                unique_keys(self.progress@),
            decreases other.fav@.len() - i,
        {
            let k = other.fav[i].0.clone();
            let w = other.fav[i].1;
            proof {
                lemma_take_step(other.fav@, i as int);
                lemma_fav_merge_step(a.fav, keyed_map(other.fav@.take(i as int)), k@, w);
            }
            match find_key(&self.fav, k.as_str()) {
                Some(j) => {
                    proof {
                        crate::keyed::lemma_keyed_map_at(self.fav@, j as int);
                    }
                    if w < self.fav[j].1 {
                        proof {
                            crate::keyed::lemma_keyed_set(self.fav@, j as int, (k, w));
                        }
                        self.fav.set(j, (k, w));
                    } else {
                        proof {
                            assert(keyed_map(self.fav@).insert(k@, self.fav@[j as int].1)
                                =~= keyed_map(self.fav@));
                        }
                    }
                },
                None => {
                    proof {
                        lemma_keyed_push(self.fav@, (k, w));
                    }
                    self.fav.push((k, w));
                },
            }
            i = i + 1;
        }
        proof {
            lemma_take_all(other.fav@);
        }
        let mut i: usize = 0;
        proof {
            assert(other.notes@.take(0) =~= Seq::<(String, CadernoNote)>::empty());
            assert(notes_merge(a.notes, keyed_map(other.notes@.take(0))) =~= a.notes);
        }
        while i < other.notes.len()
            invariant
                unique_keys(self.notes@),
                unique_keys(other.notes@),
                i <= other.notes@.len(),
                keyed_map(self.notes@) == notes_merge(
                    a.notes,
                    keyed_map(other.notes@.take(i as int)),
                ),
                self@.fav == fav_merge(a.fav, other@.fav),
                self@.progress == a.progress,
                unique_keys(self.fav@),
                unique_keys(self.progress@),
            decreases other.notes@.len() - i,
        {
            let k = other.notes[i].0.clone();
            let n = other.notes[i].1.duplicate();
            proof {
                lemma_take_step(other.notes@, i as int);
                lemma_notes_merge_step(a.notes, keyed_map(other.notes@.take(i as int)), k@, n@);
            }
            match find_key(&self.notes, k.as_str()) {
                Some(j) => {
                    proof {
                        crate::keyed::lemma_keyed_map_at(self.notes@, j as int);
                    }
                    if self.notes[j].1.updated_at >= n.updated_at {
                        proof {
                            assert(keyed_map(self.notes@).insert(k@, self.notes@[j as int].1@)
                                =~= keyed_map(self.notes@));
                        }
                    } else {
                        proof {
                            crate::keyed::lemma_keyed_set(self.notes@, j as int, (k, n));
                        }
                        self.notes.set(j, (k, n));
                    }
                },
                None => {
                    proof {
                        lemma_keyed_push(self.notes@, (k, n));
                    }
                    self.notes.push((k, n));
                },
            }
            i = i + 1;
        }
        proof {
            lemma_take_all(other.notes@);
        }
        let mut i: usize = 0;
        proof {
            assert(other.progress@.take(0) =~= Seq::<(String, String)>::empty());
            assert(a.progress.union_prefer_right(keyed_map(other.progress@.take(0))) =~= a.progress);
        }
        while i < other.progress.len()
            invariant
                unique_keys(self.progress@),
                unique_keys(other.progress@),
                i <= other.progress@.len(),
                keyed_map(self.progress@) == a.progress.union_prefer_right(
                    keyed_map(other.progress@.take(i as int)),
                ),
                self@.fav == fav_merge(a.fav, other@.fav),
                self@.notes == notes_merge(a.notes, other@.notes),
                unique_keys(self.fav@),
                unique_keys(self.notes@),
            decreases other.progress@.len() - i,
        {
            let k = other.progress[i].0.clone();
            let v = other.progress[i].1.clone();
            proof {
                lemma_take_step(other.progress@, i as int);
                let m = keyed_map(other.progress@.take(i as int));
                assert(a.progress.union_prefer_right(m.insert(k@, v@)) =~= a.progress.union_prefer_right(
                    m,
                ).insert(k@, v@));
            }
            put(&mut self.progress, k, v);
            i = i + 1;
        }
        proof {
            lemma_take_all(other.progress@);
        }
    }

    /// When `key` became a favourite, if it is one.
    pub fn fav_at(&self, key: &str) -> (r: Option<i64>)
        requires
            self.wf(),
        ensures
            r == (if self@.fav.dom().contains(key@) {
                Some(self@.fav[key@])
            } else {
                None::<i64>
            }),
    {
        match find_key(&self.fav, key) {
            Some(i) => {
                proof {
                    crate::keyed::lemma_keyed_map_at(self.fav@, i as int);
                }
                Some(self.fav[i].1)
            },
            None => None,
        }
    }

    /// The note at `key`, if there is one.
    pub fn note_at(&self, key: &str) -> (r: Option<&CadernoNote>)
        requires
            self.wf(),
        ensures
            match r {
                Some(n) => self@.notes.dom().contains(key@) && n@ == self@.notes[key@],
                None => !self@.notes.dom().contains(key@),
            },
    {
        match find_key(&self.notes, key) {
            Some(i) => {
                proof {
                    crate::keyed::lemma_keyed_map_at(self.notes@, i as int);
                }
                Some(&self.notes[i].1)
            },
            None => None,
        }
    }

    /// The last verse read under `key`, if any.
    pub fn progress_at(&self, key: &str) -> (r: Option<&str>)
        requires
            self.wf(),
        ensures
            match r {
                Some(v) => self@.progress.dom().contains(key@) && v@ == self@.progress[key@],
                None => !self@.progress.dom().contains(key@),
            },
    {
        match find_key(&self.progress, key) {
            Some(i) => {
                proof {
                    crate::keyed::lemma_keyed_map_at(self.progress@, i as int);
                }
                Some(self.progress[i].1.as_str())
            },
            None => None,
        }
    }
}

impl Default for Caderno {
    /// The empty notebook.
    fn default() -> (r: Caderno)
        ensures
            r.wf(),
            r@.fav == Map::<Seq<char>, i64>::empty(),
            r@.notes == Map::<Seq<char>, NoteV>::empty(),
            r@.progress == Map::<Seq<char>, Seq<char>>::empty(),
    {
        let r = Caderno { fav: Vec::new(), notes: Vec::new(), progress: Vec::new() };
        assert(keyed_map(r.fav@) =~= Map::<Seq<char>, i64>::empty());
        assert(keyed_map(r.notes@) =~= Map::<Seq<char>, NoteV>::empty());
        assert(keyed_map(r.progress@) =~= Map::<Seq<char>, Seq<char>>::empty());
        r
    }
}

/// Merging the same notebook a second time changes nothing.
pub proof fn lemma_merge_idempotent(a: CadernoV, b: CadernoV)
    ensures
        caderno_merge(caderno_merge(a, b), b) == caderno_merge(a, b),
{
    let m = caderno_merge(a, b);
    let mm = caderno_merge(m, b);
    assert(mm.fav.dom() =~= m.fav.dom());
    assert(mm.fav =~= m.fav);
    assert(mm.notes.dom() =~= m.notes.dom());
    assert(mm.notes =~= m.notes);
    assert(mm.progress =~= m.progress);
}

/// A merge loses no entry: every key of either notebook is in the result,
/// each favourite time is the earlier of the two, and no note is replaced by
/// one changed earlier.
pub proof fn lemma_merge_keeps_everything(a: CadernoV, b: CadernoV, k: Seq<char>)
    ensures
        a.fav.dom().contains(k) || b.fav.dom().contains(k) ==> caderno_merge(a, b).fav.dom().contains(k),
        a.notes.dom().contains(k) || b.notes.dom().contains(k) ==> caderno_merge(a, b).notes.dom().contains(k),
        a.progress.dom().contains(k) || b.progress.dom().contains(k) ==> caderno_merge(a, b).progress.dom().contains(k),
        a.fav.dom().contains(k) ==> caderno_merge(a, b).fav[k] <= a.fav[k],
        b.fav.dom().contains(k) ==> caderno_merge(a, b).fav[k] <= b.fav[k],
        a.notes.dom().contains(k) ==> caderno_merge(a, b).notes[k].updated_at >= a.notes[k].updated_at,
        b.notes.dom().contains(k) ==> caderno_merge(a, b).notes[k].updated_at >= b.notes[k].updated_at,
{
}

/// The notebook store: one JSON file per user under `_caderno/`, named by the
/// user's slug.
pub struct CadernoStore {
    root: String,
}

impl CadernoStore {
    /// A store rooted at `root`.
    pub fn new(root: &str) -> (r: Self)
        ensures
            r.root_view() == root@,
    {
        CadernoStore { root: root.to_string() }
    }

    pub closed spec fn root_view(&self) -> Seq<char> {
        self.root@
    }

    /// The store's root.
    pub fn root(&self) -> (r: &str)
        ensures
            r@ == self.root_view(),
    {
        self.root.as_str()
    }

    /// The path of `user`'s notebook under the root, component by component.
    pub fn caderno_path(user: &str) -> (r: Vec<String>)
        ensures
            r@.len() == 2,
            r@[0]@ == "_caderno"@,
            r@[1]@ == slug_of(user@) + ".json"@,
    {
        let mut file = slugify(user);
        file.append(".json");
        let mut r: Vec<String> = Vec::new();
        r.push("_caderno".to_string());
        r.push(file);
        r
    }
}

} // verus!

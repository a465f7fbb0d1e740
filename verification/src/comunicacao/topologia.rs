//! Identity of nodes in the cross-language topology of terms, and the enums
//! that describe its edges and references.
use vstd::prelude::*;
use vstd::string::{StrSliceExecFns, StringExecFns};

use crate::text::{str_chars, str_eq};
use super::lexicon::{slug_of, slugify};

verus! {

/// Stable identity of a node: `"{pack_id}:{term_slug}"`.
pub fn node_id(pack_id: &str, term: &str) -> (r: String)
    ensures
        r@ == pack_id@ + ":"@ + slug_of(term@),
{
    let mut r = String::from_str(pack_id);
    r.append(":");
    let slug = slugify(term);
    r.append(slug.as_str());
    r
}

/// Index of the first `c` at or after `from`.
pub open spec fn first_index_of(s: Seq<char>, c: char, from: int) -> Option<int>
    decreases s.len() - from,
{
    if from < 0 || from >= s.len() {
        None
    } else if s[from] == c {
        Some(from)
    } else {
        first_index_of(s, c, from + 1)
    }
}

/// The two sides of a node id around its first `:`, when both are non-empty.
pub open spec fn split_spec(id: Seq<char>) -> Option<(Seq<char>, Seq<char>)> {
    match first_index_of(id, ':', 0) {
        None => None,
        Some(i) => if i == 0 || i + 1 == id.len() {
            None
        } else {
            Some((id.subrange(0, i), id.subrange(i + 1, id.len() as int)))
        },
    }
}

fn first_colon(s: &[char], from: usize) -> (r: Option<usize>)
    requires
        from <= s@.len(),
    ensures
        match r {
            Some(i) => first_index_of(s@, ':', from as int) == Some(i as int) && i < s@.len(),
            None => first_index_of(s@, ':', from as int) is None,
        },
    decreases s@.len() - from,
{
    if from >= s.len() {
        None
    } else if s[from] == ':' {
        Some(from)
    } else {
        first_colon(s, from + 1)
    }
}

/// Splits a node id into `(pack_id, slug)` at the first `:`; `None` when
/// there is no `:` or a side is empty.
pub fn split_node_id(id: &str) -> (r: Option<(&str, &str)>)
    ensures
        match r {
            Some((a, b)) => split_spec(id@) == Some((a@, b@)),
            None => split_spec(id@) is None,
        },
{
    let cs = str_chars(id);
    match first_colon(cs.as_slice(), 0) {
        None => None,
        Some(i) => {
            if i == 0 || i == cs.len() - 1 {
                None
            } else {
                let n = id.unicode_len();
                Some((id.substring_char(0, i), id.substring_char(i + 1, n)))
            }
        },
    }
}

proof fn lemma_first_index_at(s: Seq<char>, c: char, from: int, k: int)
    requires
        0 <= from <= k < s.len(),
        s[k] == c,
        forall|j: int| from <= j < k ==> s[j] != c,
    ensures
        first_index_of(s, c, from) == Some(k),
    decreases k - from,
{
    if from < k {
        lemma_first_index_at(s, c, from + 1, k);
    }
}

/// A slug is never empty.
pub proof fn lemma_slug_nonempty(t: Seq<char>)
    ensures
        slug_of(t).len() > 0,
{
    reveal_strlit("termo");
    assert("termo"@.len() == 5);
}

/// Splitting a node id gives back its pack and the term's slug, for a
/// non-empty pack id without `:`.
pub proof fn lemma_split_node_id(pack: Seq<char>, term: Seq<char>)
    requires
        pack.len() > 0,
        forall|j: int| 0 <= j < pack.len() ==> pack[j] != ':',
    ensures
        split_spec(pack + ":"@ + slug_of(term)) == Some((pack, slug_of(term))),
{
    reveal_strlit(":");
    assert(":"@ =~= seq![':']);
    let id = pack + ":"@ + slug_of(term);
    lemma_slug_nonempty(term);
    assert forall|j: int| 0 <= j < pack.len() implies id[j] != ':' by {
        assert(id[j] == pack[j]);
    }
    assert(id[pack.len() as int] == ':');
    lemma_first_index_at(id, ':', 0, pack.len() as int);
    assert(id.subrange(0, pack.len() as int) =~= pack);
    assert(id.subrange(pack.len() as int + 1, id.len() as int) =~= slug_of(term));
}

/// Lexicographic order of character sequences (by code point), which is
/// the byte order of their UTF-8 encodings.
pub open spec fn seq_le(a: Seq<char>, b: Seq<char>) -> bool
    decreases a.len(),
{
    if a.len() == 0 {
        true
    } else if b.len() == 0 {
        false
    } else if a[0] < b[0] {
        true
    } else if a[0] > b[0] {
        false
    } else {
        seq_le(a.drop_first(), b.drop_first())
    }
}

pub(crate) fn le_from(a: &[char], b: &[char], i: usize) -> (r: bool)
    requires
        i <= a@.len(),
        i <= b@.len(),
    ensures
        r == seq_le(a@.subrange(i as int, a@.len() as int), b@.subrange(i as int, b@.len() as int)),
    decreases a@.len() - i,
{
    let ghost sa = a@.subrange(i as int, a@.len() as int);
    let ghost sb = b@.subrange(i as int, b@.len() as int);
    if i == a.len() {
        true
    } else if i == b.len() {
        false
    } else if a[i] < b[i] {
        true
    } else if a[i] > b[i] {
        false
    } else {
        assert(sa.drop_first() =~= a@.subrange(i + 1, a@.len() as int));
        assert(sb.drop_first() =~= b@.subrange(i + 1, b@.len() as int));
        le_from(a, b, i + 1)
    }
}

/// The canonical (ordered) pair of an undirected edge.
pub open spec fn canonical_spec(a: Seq<char>, b: Seq<char>) -> (Seq<char>, Seq<char>) {
    if seq_le(a, b) {
        (a, b)
    } else {
        (b, a)
    }
}

/// Orders `(a, b)` so that `(a, b)` and `(b, a)` give the same pair.
pub fn canonical_pair(a: &str, b: &str) -> (r: (String, String))
    ensures
        (r.0@, r.1@) == canonical_spec(a@, b@),
{
    let ca = str_chars(a);
    let cb = str_chars(b);
    proof {
        assert(ca@.subrange(0, ca@.len() as int) =~= ca@);
        assert(cb@.subrange(0, cb@.len() as int) =~= cb@);
    }
    if le_from(ca.as_slice(), cb.as_slice(), 0) {
        (String::from_str(a), String::from_str(b))
    } else {
        (String::from_str(b), String::from_str(a))
    }
}

pub(crate) proof fn lemma_seq_le_antisym(a: Seq<char>, b: Seq<char>)
    requires
        seq_le(a, b),
        seq_le(b, a),
    ensures
        a == b,
    decreases a.len(),
{
    if a.len() == 0 {
        assert(b.len() == 0);
        assert(a =~= b);
    } else {
        assert(b.len() > 0);
        assert(a[0] == b[0]);
        lemma_seq_le_antisym(a.drop_first(), b.drop_first());
        assert(a =~= seq![a[0]] + a.drop_first());
        assert(b =~= seq![b[0]] + b.drop_first());
    }
}

pub(crate) proof fn lemma_seq_le_total(a: Seq<char>, b: Seq<char>)
    ensures
        seq_le(a, b) || seq_le(b, a),
    decreases a.len(),
{
    if a.len() > 0 && b.len() > 0 && a[0] == b[0] {
        lemma_seq_le_total(a.drop_first(), b.drop_first());
    }
}

pub(crate) proof fn lemma_seq_le_trans(a: Seq<char>, b: Seq<char>, c: Seq<char>)
    requires
        seq_le(a, b),
        seq_le(b, c),
    ensures
        seq_le(a, c),
    decreases a.len(),
{
    if a.len() > 0 && b.len() > 0 && c.len() > 0 && a[0] == b[0] && b[0] == c[0] {
        lemma_seq_le_trans(a.drop_first(), b.drop_first(), c.drop_first());
    }
}

/// The pair of an undirected edge does not depend on the order of its ends.
pub proof fn lemma_canonical_pair_commutes(a: Seq<char>, b: Seq<char>)
    ensures
        canonical_spec(a, b) == canonical_spec(b, a),
{
    lemma_seq_le_total(a, b);
    if seq_le(a, b) && seq_le(b, a) {
        lemma_seq_le_antisym(a, b);
    }
}

/// Where an edge came from.
#[derive(Debug, Clone, Copy, PartialEq, Eq, Structural)]
pub enum EdgeSource {
    /// Materialised by co-visits.
    Explore,
    /// Promoted or named by a user.
    User,
    /// Suggested by similarity of meaning.
    Semantic,
}

pub open spec fn edge_source_name(s: EdgeSource) -> Seq<char> {
    match s {
        EdgeSource::Explore => "explore"@,
        EdgeSource::User => "user"@,
        EdgeSource::Semantic => "semantic"@,
    }
}

pub open spec fn edge_source_parse(s: Seq<char>) -> Option<EdgeSource> {
    if s == "explore"@ {
        Some(EdgeSource::Explore)
    } else if s == "user"@ {
        Some(EdgeSource::User)
    } else if s == "semantic"@ {
        Some(EdgeSource::Semantic)
    } else {
        None
    }
}

impl EdgeSource {
    pub fn as_str(self) -> (r: &'static str)
        ensures
            r@ == edge_source_name(self),
    {
        match self {
            EdgeSource::Explore => "explore",
            EdgeSource::User => "user",
            EdgeSource::Semantic => "semantic",
        }
    }

    pub fn parse(s: &str) -> (r: Option<Self>)
        ensures
            r == edge_source_parse(s@),
    {
        if str_eq(s, "explore") {
            Some(EdgeSource::Explore)
        } else if str_eq(s, "user") {
            Some(EdgeSource::User)
        } else if str_eq(s, "semantic") {
            Some(EdgeSource::Semantic)
        } else {
            None
        }
    }
}

/// Parsing a source's name gives the source back.
pub proof fn lemma_edge_source_round_trip(s: EdgeSource)
    ensures
        edge_source_parse(edge_source_name(s)) == Some(s),
{
    reveal_strlit("explore");
    reveal_strlit("user");
    reveal_strlit("semantic");
    assert("explore"@.len() == 7 && "user"@.len() == 4 && "semantic"@.len() == 8);
}

/// Kind of a reference attached to a node (always a link).
#[derive(Debug, Clone, Copy, PartialEq, Eq, Structural)]
pub enum RefKind {
    Sentence,
    Etymology,
    Audio,
    Link,
}

pub open spec fn ref_kind_name(k: RefKind) -> Seq<char> {
    match k {
        RefKind::Sentence => "sentence"@,
        RefKind::Etymology => "etymology"@,
        RefKind::Audio => "audio"@,
        RefKind::Link => "link"@,
    }
}

pub open spec fn ref_kind_parse(s: Seq<char>) -> Option<RefKind> {
    if s == "sentence"@ {
        Some(RefKind::Sentence)
    } else if s == "etymology"@ {
        Some(RefKind::Etymology)
    } else if s == "audio"@ {
        Some(RefKind::Audio)
    } else if s == "link"@ {
        Some(RefKind::Link)
    } else {
        None
    }
}

impl RefKind {
    pub fn as_str(self) -> (r: &'static str)
        ensures
            r@ == ref_kind_name(self),
    {
        match self {
            RefKind::Sentence => "sentence",
            RefKind::Etymology => "etymology",
            RefKind::Audio => "audio",
            RefKind::Link => "link",
        }
    }

    pub fn parse(s: &str) -> (r: Option<Self>)
        ensures
            r == ref_kind_parse(s@),
    {
        if str_eq(s, "sentence") {
            Some(RefKind::Sentence)
        } else if str_eq(s, "etymology") {
            Some(RefKind::Etymology)
        } else if str_eq(s, "audio") {
            Some(RefKind::Audio)
        } else if str_eq(s, "link") {
            Some(RefKind::Link)
        } else {
            None
        }
    }
}

/// Parsing a kind's name gives the kind back.
pub proof fn lemma_ref_kind_round_trip(k: RefKind)
    ensures
        ref_kind_parse(ref_kind_name(k)) == Some(k),
{
    reveal_strlit("sentence");
    reveal_strlit("etymology");
    reveal_strlit("audio");
    reveal_strlit("link");
    assert("sentence"@.len() == 8 && "etymology"@.len() == 9 && "audio"@.len() == 5
        && "link"@.len() == 4);
    assert("sentence"@[0] != "etymology"@[0]);
}

} // verus!

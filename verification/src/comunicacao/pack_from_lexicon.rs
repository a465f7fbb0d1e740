//! Reading the terms of a language plan of the `comunicacao` repository:
//! each term is a Markdown file with a YAML front matter (word,
//! pronunciation, parts, references) and a body whose first paragraph after
//! the heading is the gloss.
//!
//! Text is handled as sequences of characters; the patterns looked for are
//! ASCII, so character positions and byte positions select the same text.
use vstd::prelude::*;
use vstd::string::StringExecFns;

use crate::text::{
    find_from, find_from_exec, index_of_exec, index_of_from, lemma_find_from_ge,
    lemma_index_of_bounds, matches_at, matches_at_exec, opt_usize_v, slice_chars, str_chars,
    str_eq, string_of, trim, trim_chars,
};

use super::topologia::{le_from, lemma_seq_le_total, lemma_seq_le_trans, seq_le};
use super::lexicon::{slug_of, slugify};

verus! {

/// Whether the plan is one whose lexicon directory is known.
pub fn is_known_plano(plano: &str) -> (r: bool)
    ensures
        r == (plano@ == "yoruba"@ || plano@ == "guarani-mbya"@ || plano@ == "portuguese"@
            || plano@ == "spanish"@),
{
    str_eq(plano, "yoruba") || str_eq(plano, "guarani-mbya") || str_eq(plano, "portuguese")
        || str_eq(plano, "spanish")
}

/// The BCP 47 tag of a plan's language (`und` when unknown).
pub fn bcp47(plano: &str) -> (r: &'static str)
    ensures
        r@ == (if plano@ == "yoruba"@ {
            "yo"@
        } else if plano@ == "guarani-mbya"@ {
            "gn-mbya"@
        } else if plano@ == "portuguese"@ {
            "pt"@
        } else if plano@ == "spanish"@ {
            "es"@
        } else {
            "und"@
        }),
{
    if str_eq(plano, "yoruba") {
        "yo"
    } else if str_eq(plano, "guarani-mbya") {
        "gn-mbya"
    } else if str_eq(plano, "portuguese") {
        "pt"
    } else if str_eq(plano, "spanish") {
        "es"
    } else {
        "und"
    }
}

/// The title of a plan's pack.
pub fn plano_title(plano: &str) -> (r: String)
    ensures
        r@ == (if plano@ == "yoruba"@ {
            "Iorubá — léxico CO"@
        } else if plano@ == "guarani-mbya"@ {
            "Guaraní Mbyá — léxico CO"@
        } else if plano@ == "portuguese"@ {
            "Português — léxico CO"@
        } else if plano@ == "spanish"@ {
            "Espanhol — léxico CO"@
        } else {
            plano@ + " — léxico CO"@
        }),
{
    if str_eq(plano, "yoruba") {
        String::from_str("Iorubá — léxico CO")
    } else if str_eq(plano, "guarani-mbya") {
        String::from_str("Guaraní Mbyá — léxico CO")
    } else if str_eq(plano, "portuguese") {
        String::from_str("Português — léxico CO")
    } else if str_eq(plano, "spanish") {
        String::from_str("Espanhol — léxico CO")
    } else {
        let mut t = String::from_str(plano);
        t.append(" — léxico CO");
        t
    }
}

/// The visual theme of a plan's pack.
pub fn plano_theme(plano: &str) -> (r: &'static str)
    ensures
        r@ == (if plano@ == "yoruba"@ {
            "savana"@
        } else if plano@ == "guarani-mbya"@ {
            "floresta"@
        } else if plano@ == "portuguese"@ {
            "oceano"@
        } else {
            "neutro"@
        }),
{
    if str_eq(plano, "yoruba") {
        "savana"
    } else if str_eq(plano, "guarani-mbya") {
        "floresta"
    } else if str_eq(plano, "portuguese") {
        "oceano"
    } else {
        "neutro"
    }
}

// ── Prefixes, suffixes, quotes ────────────────────────────────────────────

/// `s` without the prefix `p`, when it starts with it.
pub open spec fn after_prefix(s: Seq<char>, p: Seq<char>) -> Option<Seq<char>> {
    if matches_at(s, p, 0) {
        Some(s.skip(p.len() as int))
    } else {
        None
    }
}

/// `s` without the suffix `p`, when it ends with it.
pub open spec fn before_suffix(s: Seq<char>, p: Seq<char>) -> Option<Seq<char>> {
    if matches_at(s, p, s.len() - p.len()) {
        Some(s.take(s.len() - p.len()))
    } else {
        None
    }
}

pub(crate) fn strip_prefix_chars(v: &[char], p: &str) -> (r: Option<Vec<char>>)
    ensures
        match r {
            Some(w) => after_prefix(v@, p@) == Some(w@),
            None => after_prefix(v@, p@) is None,
        },
{
    let pc = str_chars(p);
    if matches_at_exec(v, pc.as_slice(), 0) {
        let w = slice_chars(v, pc.len(), v.len());
        assert(w@ =~= v@.skip(p@.len() as int));
        Some(w)
    } else {
        None
    }
}

fn strip_suffix_chars(v: &[char], p: &str) -> (r: Option<Vec<char>>)
    ensures
        match r {
            Some(w) => before_suffix(v@, p@) == Some(w@),
            None => before_suffix(v@, p@) is None,
        },
{
    let pc = str_chars(p);
    if pc.len() > v.len() {
        assert(!matches_at(v@, p@, v@.len() - p@.len()));
        return None;
    }
    let at = v.len() - pc.len();
    if matches_at_exec(v, pc.as_slice(), at) {
        let w = slice_chars(v, 0, at);
        assert(w@ =~= v@.take(v@.len() - p@.len()));
        Some(w)
    } else {
        None
    }
}

/// At least two characters, the first and the last being `q`.
pub open spec fn quoted_by(t: Seq<char>, q: char) -> bool {
    t.len() >= 2 && t[0] == q && t[t.len() - 1] == q
}

/// What lies between the first and the last character.
pub open spec fn inner(t: Seq<char>) -> Seq<char> {
    t.subrange(1, t.len() - 1)
}

/// Every `''` replaced by `'`, scanning from the left.
pub open spec fn undouble(s: Seq<char>) -> Seq<char>
    decreases s.len(),
{
    if s.len() == 0 {
        seq![]
    } else if s.len() >= 2 && s[0] == '\'' && s[1] == '\'' {
        seq!['\''] + undouble(s.skip(2))
    } else {
        seq![s[0]] + undouble(s.skip(1))
    }
}

/// A YAML scalar as written in front matter: trimmed, and unquoted when it
/// is in single quotes (with `''` for a quote inside) or double quotes.
pub open spec fn yaml_scalar(s: Seq<char>) -> Seq<char> {
    let t = trim(s);
    if quoted_by(t, '\'') {
        undouble(inner(t))
    } else if quoted_by(t, '"') {
        inner(t)
    } else {
        t
    }
}

pub(crate) fn undouble_chars(v: &[char]) -> (r: Vec<char>)
    ensures
        r@ == undouble(v@),
{
    let n = v.len();
    let mut out: Vec<char> = Vec::new();
    let mut i: usize = 0;
    assert(out@ + undouble(v@.skip(0)) =~= undouble(v@)) by {
        assert(v@.skip(0) =~= v@);
    }
    while i < n
        invariant
            n == v@.len(),
            i <= n,
            out@ + undouble(v@.skip(i as int)) == undouble(v@),
        decreases n - i,
    {
        let ghost s = v@.skip(i as int);
        if i + 1 < n && v[i] == '\'' && v[i + 1] == '\'' {
            assert(s.skip(2) =~= v@.skip(i + 2));
            out.push('\'');
            i = i + 2;
            assert(out@ + undouble(v@.skip(i as int)) =~= undouble(v@));
        } else {
            assert(s.skip(1) =~= v@.skip(i + 1));
            out.push(v[i]);
            i = i + 1;
            assert(out@ + undouble(v@.skip(i as int)) =~= undouble(v@));
        }
    }
    assert(v@.skip(n as int) =~= seq![]);
    assert(out@ =~= out@ + undouble(v@.skip(n as int)));
    out
}

fn yaml_scalar_chars(v: &[char]) -> (r: Vec<char>)
    ensures
        r@ == yaml_scalar(v@),
{
    let t = trim_chars(v);
    let n = t.len();
    if n >= 2 && t[0] == '\'' && t[n - 1] == '\'' {
        let i = slice_chars(t.as_slice(), 1, n - 1);
        assert(i@ =~= inner(t@));
        undouble_chars(i.as_slice())
    } else if n >= 2 && t[0] == '"' && t[n - 1] == '"' {
        let i = slice_chars(t.as_slice(), 1, n - 1);
        assert(i@ =~= inner(t@));
        i
    } else {
        t
    }
}

/// A YAML scalar of the front matter, unquoted (see [`yaml_scalar`]).
pub fn strip_yaml_scalar(s: &str) -> (r: String)
    ensures
        r@ == yaml_scalar(s@),
{
    let cs = str_chars(s);
    let v = yaml_scalar_chars(cs.as_slice());
    string_of(v.as_slice())
}

// ── Wikilinks ─────────────────────────────────────────────────────────────

/// The text inside matching quotes, trimmed; the text itself otherwise.
pub open spec fn unquoted(r: Seq<char>) -> Seq<char> {
    if quoted_by(r, '\'') || quoted_by(r, '"') {
        trim(inner(r))
    } else {
        r
    }
}

/// The slug of a wikilink `[[terms/<slug>.md]]`, quoted or not; `None` when
/// the text is not such a link or the slug is empty.
pub open spec fn wikilink_slug_spec(raw: Seq<char>) -> Option<Seq<char>> {
    let b = unquoted(trim(raw));
    match after_prefix(b, "[["@) {
        None => None,
        Some(a) => match before_suffix(a, "]]"@) {
            None => None,
            Some(inn) => match after_prefix(inn, "terms/"@) {
                None => None,
                Some(c) => match before_suffix(c, ".md"@) {
                    None => None,
                    Some(slug) => if slug.len() == 0 {
                        None
                    } else {
                        Some(slug)
                    },
                },
            },
        },
    }
}

fn wikilink_slug_chars(raw: &[char]) -> (r: Option<Vec<char>>)
    ensures
        match r {
            Some(w) => wikilink_slug_spec(raw@) == Some(w@),
            None => wikilink_slug_spec(raw@) is None,
        },
{
    let t = trim_chars(raw);
    let n = t.len();
    let b = if n >= 2 && ((t[0] == '\'' && t[n - 1] == '\'') || (t[0] == '"' && t[n - 1] == '"')) {
        let i = slice_chars(t.as_slice(), 1, n - 1);
        assert(i@ =~= inner(t@));
        trim_chars(i.as_slice())
    } else {
        t
    };
    let a = match strip_prefix_chars(b.as_slice(), "[[") {
        None => {
            return None;
        },
        Some(a) => a,
    };
    let inn = match strip_suffix_chars(a.as_slice(), "]]") {
        None => {
            return None;
        },
        Some(x) => x,
    };
    let c = match strip_prefix_chars(inn.as_slice(), "terms/") {
        None => {
            return None;
        },
        Some(c) => c,
    };
    let slug = match strip_suffix_chars(c.as_slice(), ".md") {
        None => {
            return None;
        },
        Some(s) => s,
    };
    if slug.len() == 0 {
        None
    } else {
        Some(slug)
    }
}

/// The slug of a wikilink to a term (see [`wikilink_slug_spec`]).
pub fn wikilink_slug(raw: &str) -> (r: Option<String>)
    ensures
        match r {
            Some(s) => wikilink_slug_spec(raw@) == Some(s@),
            None => wikilink_slug_spec(raw@) is None,
        },
{
    let cs = str_chars(raw);
    match wikilink_slug_chars(cs.as_slice()) {
        Some(v) => Some(string_of(v.as_slice())),
        None => None,
    }
}

// ── Inline references ─────────────────────────────────────────────────────

/// The value after `key` up to `stop` (or the end), trimmed and unquoted;
/// empty when `key` does not occur.
pub open spec fn ref_field(body: Seq<char>, key: Seq<char>, stop: Seq<char>) -> Seq<char> {
    match find_from(body, key, 0) {
        None => seq![],
        Some(p) => {
            let v = body.skip(p + key.len());
            let end = match find_from(v, stop, 0) {
                Some(e) => e,
                None => v.len() as int,
            };
            yaml_scalar(trim(v.take(end)))
        },
    }
}

/// A reference written `{ url: '…', source: '…' }`, as (url, source);
/// `None` when it is not in braces or both are empty.
pub open spec fn inline_ref_spec(s: Seq<char>) -> Option<(Seq<char>, Seq<char>)> {
    match after_prefix(trim(s), "{"@) {
        None => None,
        Some(a) => match before_suffix(a, "}"@) {
            None => None,
            Some(b) => {
                let body = trim(b);
                let url = ref_field(body, "url: "@, ", source:"@);
                let source = ref_field(body, "source: "@, ", "@);
                if url.len() == 0 && source.len() == 0 {
                    None
                } else {
                    Some((url, source))
                }
            },
        },
    }
}

fn ref_field_chars(body: &[char], key: &str, stop: &str) -> (r: Vec<char>)
    ensures
        r@ == ref_field(body@, key@, stop@),
{
    let kc = str_chars(key);
    let sc = str_chars(stop);
    let ks = kc.as_slice();
    assert(ks@ == key@);
    match find_from_exec(body, ks, 0) {
        None => Vec::new(),
        Some(p) => {
            let kl = ks.len();
            let bl = body.len();
            assert(p + kl <= bl);
            let start = p + kl;
            let v = slice_chars(body, start, bl);
            assert(v@ =~= body@.skip(p + key@.len()));
            let end = match find_from_exec(v.as_slice(), sc.as_slice(), 0) {
                Some(e) => e,
                None => v.len(),
            };
            proof {
                lemma_find_from_ge(v@, stop@, 0);
            }
            let head = slice_chars(v.as_slice(), 0, end);
            assert(head@ =~= v@.take(end as int));
            let t = trim_chars(head.as_slice());
            yaml_scalar_chars(t.as_slice())
        },
    }
}

/// A reference `{ url: '…', source: '…' }` as (url, source)
/// (see [`inline_ref_spec`]).
pub fn parse_inline_ref(s: &str) -> (r: Option<(String, String)>)
    ensures
        match r {
            Some((u, src)) => inline_ref_spec(s@) == Some((u@, src@)),
            None => inline_ref_spec(s@) is None,
        },
{
    let cs = str_chars(s);
    let t = trim_chars(cs.as_slice());
    let a = match strip_prefix_chars(t.as_slice(), "{") {
        None => {
            return None;
        },
        Some(a) => a,
    };
    let b = match strip_suffix_chars(a.as_slice(), "}") {
        None => {
            return None;
        },
        Some(b) => b,
    };
    let body = trim_chars(b.as_slice());
    let url = ref_field_chars(body.as_slice(), "url: ", ", source:");
    let source = ref_field_chars(body.as_slice(), "source: ", ", ");
    if url.len() == 0 && source.len() == 0 {
        None
    } else {
        Some((string_of(url.as_slice()), string_of(source.as_slice())))
    }
}

// ── Lines and the gloss ───────────────────────────────────────────────────

/// The line without a final carriage return.
pub open spec fn without_cr(l: Seq<char>) -> Seq<char> {
    if l.len() > 0 && l[l.len() - 1] == '\r' {
        l.drop_last()
    } else {
        l
    }
}

/// The lines of `s` from position `pos` on, as `str::lines` gives them: split
/// at each `\n`, a `\r` before it dropped, no empty line after a final `\n`.
pub open spec fn lines_from(s: Seq<char>, pos: int) -> Seq<Seq<char>>
    decreases s.len() - pos,
{
    if pos < 0 || pos >= s.len() {
        seq![]
    } else {
        match index_of_from(s, '\n', pos) {
            None => seq![s.subrange(pos, s.len() as int)],
            Some(i) => if i < pos || i >= s.len() {
                seq![]
            } else {
                seq![without_cr(s.subrange(pos, i))] + lines_from(s, i + 1)
            },
        }
    }
}

/// The lines of `s`.
pub open spec fn lines_of(s: Seq<char>) -> Seq<Seq<char>> {
    lines_from(s, 0)
}

pub(crate) fn lines_chars(s: &[char]) -> (r: Vec<Vec<char>>)
    ensures
        r@.len() == lines_of(s@).len(),
        forall|i: int| 0 <= i < r@.len() ==> (#[trigger] r@[i])@ == lines_of(s@)[i],
{
    let n = s.len();
    let mut out: Vec<Vec<char>> = Vec::new();
    let ghost mut got: Seq<Seq<char>> = seq![];
    let mut pos: usize = 0;
    while pos < n
        invariant
            n == s@.len(),
            pos <= n,
            out@.len() == got.len(),
            forall|i: int| 0 <= i < out@.len() ==> (#[trigger] out@[i])@ == got[i],
            got + lines_from(s@, pos as int) == lines_of(s@),
        decreases n - pos,
    {
        proof {
            lemma_index_of_bounds(s@, '\n', pos as int);
        }
        match index_of_exec(s, '\n', pos) {
            None => {
                let l = slice_chars(s, pos, n);
                proof {
                    got = got.push(l@);
                    assert(lines_from(s@, n as int) =~= seq![]);
                    assert(got + lines_from(s@, n as int) =~= lines_of(s@));
                }
                out.push(l);
                pos = n;
            },
            Some(i) => {
                let mut l = slice_chars(s, pos, i);
                if l.len() > 0 && l[l.len() - 1] == '\r' {
                    l.pop();
                }
                assert(l@ == without_cr(s@.subrange(pos as int, i as int))) by {
                    if s@.subrange(pos as int, i as int).len() > 0 && s@.subrange(pos as int, i as int).last() == '\r' {
                        assert(l@ =~= s@.subrange(pos as int, i as int).drop_last());
                    }
                }
                proof {
                    got = got.push(l@);
                    assert(got + lines_from(s@, i + 1) =~= lines_of(s@));
                }
                out.push(l);
                pos = i + 1;
            },
        }
    }
    assert(lines_from(s@, pos as int) =~= seq![]);
    assert(got =~= lines_of(s@));
    out
}

/// `s` begins with a `#` (a Markdown heading).
pub open spec fn is_heading(l: Seq<char>) -> bool {
    l.len() > 0 && l[0] == '#'
}

/// The lines of the first paragraph after the first heading, trimmed,
/// scanning from line `k` with the heading seen (`past`) and `acc` gathered.
pub open spec fn gloss_lines(ls: Seq<Seq<char>>, k: int, past: bool, acc: Seq<Seq<char>>) -> Seq<Seq<char>>
    decreases ls.len() - k,
{
    if k < 0 || k >= ls.len() {
        acc
    } else {
        let l = ls[k];
        if is_heading(l) {
            if acc.len() > 0 {
                acc
            } else {
                gloss_lines(ls, k + 1, true, acc)
            }
        } else if !past {
            gloss_lines(ls, k + 1, past, acc)
        } else if trim(l).len() == 0 {
            if acc.len() > 0 {
                acc
            } else {
                gloss_lines(ls, k + 1, past, acc)
            }
        } else {
            gloss_lines(ls, k + 1, past, acc.push(trim(l)))
        }
    }
}

/// The pieces joined with single spaces.
pub open spec fn join_spaced(p: Seq<Seq<char>>) -> Seq<char>
    decreases p.len(),
{
    if p.len() == 0 {
        seq![]
    } else if p.len() == 1 {
        p[0]
    } else {
        join_spaced(p.drop_last()) + seq![' '] + p.last()
    }
}

/// The gloss of a term's body: its first paragraph after the heading, on
/// one line; none when there is none or it is the generated placeholder.
pub open spec fn gloss_spec(body: Seq<char>) -> Option<Seq<char>> {
    let acc = gloss_lines(lines_of(body), 0, false, seq![]);
    if acc.len() == 0 {
        None
    } else if matches_at(join_spaced(acc), "_(sem definição"@, 0) {
        None
    } else {
        Some(join_spaced(acc))
    }
}

fn body_gloss_chars(body: &[char]) -> (r: Option<Vec<char>>)
    ensures
        match r {
            Some(g) => gloss_spec(body@) == Some(g@),
            None => gloss_spec(body@) is None,
        },
{
    let ls = lines_chars(body);
    let ghost lv = lines_of(body@);
    let n = ls.len();
    let mut past = false;
    let mut acc: Vec<Vec<char>> = Vec::new();
    let ghost mut accv: Seq<Seq<char>> = seq![];
    let mut k: usize = 0;
    while k < n
        invariant_except_break
            gloss_lines(lv, k as int, past, accv) == gloss_lines(lv, 0, false, seq![]),
        invariant
            n == lv.len(),
            n == ls@.len(),
            lv == lines_of(body@),
            forall|i: int| 0 <= i < n ==> (#[trigger] ls@[i])@ == lv[i],
            k <= n,
            acc@.len() == accv.len(),
            forall|i: int| 0 <= i < acc@.len() ==> (#[trigger] acc@[i])@ == accv[i],
        ensures
            gloss_lines(lv, 0, false, seq![]) == accv,
        decreases n - k,
    {
        let l = &ls[k];
        if l.len() > 0 && l[0] == '#' {
            if acc.len() > 0 {
                break;
            }
            past = true;
            k = k + 1;
            continue;
        }
        if !past {
            k = k + 1;
            continue;
        }
        let t = trim_chars(l.as_slice());
        if t.len() == 0 {
            if acc.len() > 0 {
                break;
            }
        } else {
            proof {
                accv = accv.push(t@);
            }
            acc.push(t);
        }
        k = k + 1;
    }
    if acc.len() == 0 {
        return None;
    }
    let mut j: usize = 1;
    let mut s = slice_chars(acc[0].as_slice(), 0, acc[0].len());
    assert(s@ =~= accv[0]);
    assert(accv.take(1) =~= seq![accv[0]]);
    while j < acc.len()
        invariant
            acc@.len() == accv.len(),
            forall|i: int| 0 <= i < acc@.len() ==> (#[trigger] acc@[i])@ == accv[i],
            1 <= j <= acc@.len(),
            s@ == join_spaced(accv.take(j as int)),
        decreases acc@.len() - j,
    {
        assert(accv.take(j + 1).drop_last() =~= accv.take(j as int));
        s.push(' ');
        let piece = acc[j].as_slice();
        let mut q: usize = 0;
        let ghost base = s@;
        while q < piece.len()
            invariant
                piece@ == accv[j as int],
                q <= piece@.len(),
                s@ == base + piece@.take(q as int),
            decreases piece@.len() - q,
        {
            s.push(piece[q]);
            q = q + 1;
            assert(s@ =~= base + piece@.take(q as int));
        }
        assert(piece@.take(q as int) =~= piece@);
        j = j + 1;
    }
    assert(accv.take(acc@.len() as int) =~= accv);
    let marker = str_chars("_(sem definição");
    if matches_at_exec(s.as_slice(), marker.as_slice(), 0) {
        None
    } else {
        Some(s)
    }
}

/// The gloss of a term's Markdown body (see [`gloss_spec`]).
pub fn body_gloss(body: &str) -> (r: Option<String>)
    ensures
        match r {
            Some(g) => gloss_spec(body@) == Some(g@),
            None => gloss_spec(body@) is None,
        },
{
    let cs = str_chars(body);
    match body_gloss_chars(cs.as_slice()) {
        Some(v) => Some(string_of(v.as_slice())),
        None => None,
    }
}

// ── Term files ────────────────────────────────────────────────────────────

/// The list section of the front matter a `- ` item belongs to.
#[derive(Clone, Copy, PartialEq, Eq, Structural)]
pub enum Section {
    Other,
    Parts,
    Refs,
}

/// What the front matter has given so far.
pub struct FrontMatter {
    pub word: Option<Seq<char>>,
    pub ipa: Option<Seq<char>>,
    pub parts: Seq<Seq<char>>,
    pub refs: Seq<(Seq<char>, Seq<char>)>,
    pub sec: Section,
}

/// One line of front matter: `word:` and `pronunciation:` values (the last
/// one wins), the `parts:` and `references:` lists, whose `- ` items are
/// term wikilinks and inline references; another top-level key ends a list.
pub open spec fn fm_step(st: FrontMatter, line: Seq<char>) -> FrontMatter {
    match after_prefix(line, "word: "@) {
        Some(v) => FrontMatter { word: Some(yaml_scalar(v)), sec: Section::Other, ..st },
        None => match after_prefix(line, "pronunciation: "@) {
            Some(v) => FrontMatter { ipa: Some(yaml_scalar(v)), sec: Section::Other, ..st },
            None => if line == "parts:"@ {
                FrontMatter { sec: Section::Parts, ..st }
            } else if line == "references:"@ {
                FrontMatter { sec: Section::Refs, ..st }
            } else {
                match after_prefix(line, "- "@) {
                    Some(item) => match st.sec {
                        Section::Parts => match wikilink_slug_spec(item) {
                            Some(slug) => FrontMatter { parts: st.parts.push(slug), ..st },
                            None => st,
                        },
                        Section::Refs => match inline_ref_spec(item) {
                            Some(pair) => FrontMatter { refs: st.refs.push(pair), ..st },
                            None => st,
                        },
                        Section::Other => st,
                    },
                    None => if line.len() > 0 && line[0] != ' ' && line[0] != '\t' {
                        FrontMatter { sec: Section::Other, ..st }
                    } else {
                        st
                    },
                }
            },
        },
    }
}

/// The front matter read from line `k` on.
pub open spec fn fm_scan(ls: Seq<Seq<char>>, k: int, st: FrontMatter) -> FrontMatter
    decreases ls.len() - k,
{
    if k < 0 || k >= ls.len() {
        st
    } else {
        fm_scan(ls, k + 1, fm_step(st, ls[k]))
    }
}

/// A term as read from its file.
pub struct TermV {
    pub word: Seq<char>,
    pub ipa: Option<Seq<char>>,
    pub gloss: Option<Seq<char>>,
    pub parts: Seq<Seq<char>>,
    pub refs: Seq<(Seq<char>, Seq<char>)>,
}

/// A term file: `---` on the first line, the front matter up to a line
/// `---`, then the body; `None` without front matter or without `word:`.
pub open spec fn term_spec(content: Seq<char>) -> Option<TermV> {
    match after_prefix(content, "---\n"@) {
        None => None,
        Some(rest) => match find_from(rest, "\n---\n"@, 0) {
            None => None,
            Some(end) => {
                let fm = rest.take(end);
                let body = rest.skip(end + "\n---\n"@.len());
                let st = fm_scan(
                    lines_of(fm),
                    0,
                    FrontMatter {
                        word: None,
                        ipa: None,
                        parts: seq![],
                        refs: seq![],
                        sec: Section::Other,
                    },
                );
                match st.word {
                    None => None,
                    Some(w) => Some(
                        TermV {
                            word: w,
                            ipa: st.ipa,
                            gloss: gloss_spec(body),
                            parts: st.parts,
                            refs: st.refs,
                        },
                    ),
                }
            },
        },
    }
}

/// A term read from its Markdown file.
#[derive(Debug, Clone)]
pub struct ParsedTerm {
    pub word: String,
    pub ipa: Option<String>,
    pub gloss: Option<String>,
    /// Slugs of the terms it is composed of.
    pub parts: Vec<String>,
    /// (url, source) of its references.
    pub refs: Vec<(String, String)>,
}

pub open spec fn opt_chars(o: Option<Vec<char>>) -> Option<Seq<char>> {
    match o {
        Some(v) => Some(v@),
        None => None,
    }
}

pub open spec fn opt_string(o: Option<String>) -> Option<Seq<char>> {
    match o {
        Some(v) => Some(v@),
        None => None,
    }
}

/// Reads a term file (see [`term_spec`]).
pub fn parse_term_md(content: &str) -> (r: Option<ParsedTerm>)
    ensures
        match r {
            None => term_spec(content@) is None,
            Some(t) => term_spec(content@) matches Some(v) && t.word@ == v.word && opt_string(
                t.ipa,
            ) == v.ipa && opt_string(t.gloss) == v.gloss && t.parts@.len() == v.parts.len()
                && (forall|i: int| 0 <= i < v.parts.len() ==> (#[trigger] t.parts@[i])@ == v.parts[i])
                && t.refs@.len() == v.refs.len() && (forall|i: int|
                0 <= i < v.refs.len() ==> ((#[trigger] t.refs@[i]).0@, t.refs@[i].1@) == v.refs[i]),
        },
{
    let cs = str_chars(content);
    let rest = match strip_prefix_chars(cs.as_slice(), "---\n") {
        None => {
            return None;
        },
        Some(r) => r,
    };
    let sep = str_chars("\n---\n");
    let end = match find_from_exec(rest.as_slice(), sep.as_slice(), 0) {
        None => {
            return None;
        },
        Some(e) => e,
    };
    let fm = slice_chars(rest.as_slice(), 0, end);
    assert(fm@ =~= rest@.take(end as int));
    let sl = sep.len();
    let rl = rest.len();
    proof {
        lemma_find_from_ge(rest@, "\n---\n"@, 0);
    }
    assert(end + sl <= rl);
    let bstart = end + sl;
    let body = slice_chars(rest.as_slice(), bstart, rl);
    assert(body@ =~= rest@.skip(end + "\n---\n"@.len()));
    let ls = lines_chars(fm.as_slice());
    let ghost lv = lines_of(fm@);
    let mut word: Option<Vec<char>> = None;
    let mut ipa: Option<Vec<char>> = None;
    let mut parts: Vec<String> = Vec::new();
    let mut refs: Vec<(String, String)> = Vec::new();
    let mut sec = Section::Other;
    let ghost init = FrontMatter {
        word: None,
        ipa: None,
        parts: seq![],
        refs: seq![],
        sec: Section::Other,
    };
    let n = ls.len();
    let mut k: usize = 0;
    assert(parts@.map_values(|p: String| p@) =~= seq![]);
    assert(refs@.map_values(|p: (String, String)| (p.0@, p.1@)) =~= seq![]);
    while k < n
        invariant
            n == lv.len(),
            n == ls@.len(),
            forall|i: int| 0 <= i < n ==> (#[trigger] ls@[i])@ == lv[i],
            k <= n,
            fm_scan(
                lv,
                k as int,
                FrontMatter {
                    word: opt_chars(word),
                    ipa: opt_chars(ipa),
                    parts: parts@.map_values(|p: String| p@),
                    refs: refs@.map_values(|p: (String, String)| (p.0@, p.1@)),
                    sec: sec,
                },
            ) == fm_scan(lv, 0, init),
        decreases n - k,
    {
        let line = ls[k].as_slice();
        let ghost st = FrontMatter {
            word: opt_chars(word),
            ipa: opt_chars(ipa),
            parts: parts@.map_values(|p: String| p@),
            refs: refs@.map_values(|p: (String, String)| (p.0@, p.1@)),
            sec: sec,
        };
        let ghost want = fm_step(st, line@);
        if let Some(v) = strip_prefix_chars(line, "word: ") {
            word = Some(yaml_scalar_chars(v.as_slice()));
            sec = Section::Other;
        } else if let Some(v) = strip_prefix_chars(line, "pronunciation: ") {
            ipa = Some(yaml_scalar_chars(v.as_slice()));
            sec = Section::Other;
        } else if crate::text::chars_are(line, "parts:") {
            sec = Section::Parts;
        } else if crate::text::chars_are(line, "references:") {
            sec = Section::Refs;
        } else if let Some(item) = strip_prefix_chars(line, "- ") {
            match sec {
                Section::Parts => {
                    if let Some(slug) = wikilink_slug_chars(item.as_slice()) {
                        let ghost before = parts@;
                        parts.push(string_of(slug.as_slice()));
                        assert(parts@.map_values(|p: String| p@) =~= before.map_values(
                            |p: String| p@,
                        ).push(slug@));
                    }
                },
                Section::Refs => {
                    let istr = string_of(item.as_slice());
                    if let Some(pair) = parse_inline_ref(istr.as_str()) {
                        let ghost before = refs@;
                        let ghost pv = (pair.0@, pair.1@);
                        refs.push(pair);
                        assert(refs@.map_values(|p: (String, String)| (p.0@, p.1@))
                            =~= before.map_values(|p: (String, String)| (p.0@, p.1@)).push(pv));
                    }
                },
                Section::Other => {},
            }
        } else if line.len() > 0 && line[0] != ' ' && line[0] != '\t' {
            sec = Section::Other;
        }
        assert(FrontMatter {
            word: opt_chars(word),
            ipa: opt_chars(ipa),
            parts: parts@.map_values(|p: String| p@),
            refs: refs@.map_values(|p: (String, String)| (p.0@, p.1@)),
            sec: sec,
        } == want);
        k = k + 1;
    }
    let w = match word {
        None => {
            return None;
        },
        Some(w) => w,
    };
    let gloss = match body_gloss_chars(body.as_slice()) {
        Some(g) => Some(string_of(g.as_slice())),
        None => None,
    };
    Some(
        ParsedTerm {
            word: string_of(w.as_slice()),
            ipa: match ipa {
                Some(i) => Some(string_of(i.as_slice())),
                None => None,
            },
            gloss: gloss,
            parts: parts,
            refs: refs,
        },
    )
}


/// Word `i` goes before word `j` in a language pack: a smaller word, or the
/// same word found earlier.
pub open spec fn word_before(words: Seq<Seq<char>>, i: int, j: int) -> bool {
    (seq_le(words[i], words[j]) && words[i] != words[j]) || (words[i] == words[j] && i < j)
}

/// The terms a language pack keeps, as indices into `words`: in word order
/// (equal words in the order found), and only the first `limit` of them.
pub fn resident_order(words: &[String], limit: usize) -> (r: Vec<usize>)
    ensures
        ({
            let ws = words@.map_values(|w: String| w@);
            &&& r@.len() == if words@.len() < limit {
                words@.len() as int
            } else {
                limit as int
            }
            &&& forall|a: int| 0 <= a < r@.len() ==> #[trigger] r@[a] < words@.len()
            &&& forall|a: int, b: int|
                0 <= a < b < r@.len() ==> word_before(ws, #[trigger] r@[a] as int, #[trigger] r@[b] as int)
            &&& forall|a: int, k: int|
                0 <= a < r@.len() && 0 <= k < words@.len() && !r@.contains(k as usize)
                    ==> #[trigger] word_before(ws, r@[a] as int, k)
        }),
{
    let ghost ws = words@.map_values(|w: String| w@);
    let n = words.len();
    let mut cs: Vec<Vec<char>> = Vec::new();
    let mut i: usize = 0;
    while i < n
        invariant
            n == words@.len(),
            ws == words@.map_values(|w: String| w@),
            i <= n,
            cs@.len() == i,
            forall|k: int| 0 <= k < i ==> (#[trigger] cs@[k])@ == ws[k],
        decreases n - i,
    {
        cs.push(str_chars(words[i].as_str()));
        i = i + 1;
    }
    let mut r: Vec<usize> = Vec::new();
    let mut i: usize = 0;
    while i < n
        invariant
            n == words@.len(),
            ws == words@.map_values(|w: String| w@),
            cs@.len() == n,
            forall|k: int| 0 <= k < n ==> (#[trigger] cs@[k])@ == ws[k],
            i <= n,
            r@.len() == i,
            forall|a: int| 0 <= a < r@.len() ==> #[trigger] r@[a] < i,
            forall|a: int, b: int|
                0 <= a < b < r@.len() ==> word_before(ws, #[trigger] r@[a] as int, #[trigger] r@[b] as int),
            forall|k: int| 0 <= k < i ==> #[trigger] r@.contains(k as usize),
        decreases n - i,
    {
        let mut p: usize = 0;
        while p < r.len() && le_whole(cs[r[p]].as_slice(), cs[i].as_slice())
            invariant
                n == cs@.len(),
                i < n,
                p <= r@.len(),
                forall|a: int| 0 <= a < r@.len() ==> #[trigger] r@[a] < i,
                ws.len() == n,
                forall|k: int| 0 <= k < n ==> (#[trigger] cs@[k])@ == ws[k],
                forall|a: int| 0 <= a < p ==> seq_le(ws[#[trigger] r@[a] as int], ws[i as int]),
            decreases r@.len() - p,
        {
            p = p + 1;
        }
        proof {
            let wi = ws[i as int];
            assert forall|a: int| p <= a < r@.len() implies seq_le(wi, ws[#[trigger] r@[a] as int])
                && wi != ws[r@[a] as int] by {
                let wp = ws[r@[p as int] as int];
                let wa = ws[r@[a] as int];
                assert(!seq_le(wp, wi));
                lemma_seq_le_total(wp, wi);
                if a > p {
                    assert(word_before(ws, r@[p as int] as int, r@[a] as int));
                    if wp != wa {
                        lemma_seq_le_trans(wi, wp, wa);
                    }
                    if wi == wa {
                        lemma_seq_le_refl(wp);
                        if wp != wa {
                            assert(seq_le(wp, wi));
                        }
                    }
                }
            }
        }
        let ghost old_r = r@;
        r.insert(p, i);
        proof {
            assert forall|a: int, b: int|
                0 <= a < b < r@.len() implies word_before(ws, #[trigger] r@[a] as int, #[trigger] r@[b] as int) by {
                if b < p {
                    assert(r@[a] == old_r[a] && r@[b] == old_r[b]);
                } else if b == p {
                    assert(r@[a] == old_r[a]);
                    assert(seq_le(ws[old_r[a] as int], ws[i as int]));
                } else if a == p {
                    assert(r@[b] == old_r[b - 1]);
                } else if a < p {
                    assert(r@[a] == old_r[a] && r@[b] == old_r[b - 1]);
                } else {
                    assert(r@[a] == old_r[a - 1] && r@[b] == old_r[b - 1]);
                }
            }
            assert forall|k: int| 0 <= k < i + 1 implies #[trigger] r@.contains(k as usize) by {
                if k == i {
                    assert(r@[p as int] == i);
                } else {
                    assert(old_r.contains(k as usize));
                    let a = choose|a: int| 0 <= a < old_r.len() && old_r[a] == k as usize;
                    if a < p {
                        assert(r@[a] == k as usize);
                    } else {
                        assert(r@[a + 1] == k as usize);
                    }
                }
            }
        }
        i = i + 1;
    }
    let ghost full = r@;
    if limit < r.len() {
        r.truncate(limit);
    }
    proof {
        assert forall|a: int, k: int|
            0 <= a < r@.len() && 0 <= k < words@.len() && !r@.contains(k as usize)
                implies #[trigger] word_before(ws, r@[a] as int, k) by {
            assert(full.contains(k as usize));
            let b = choose|b: int| 0 <= b < full.len() && full[b] == k as usize;
            assert(r@[a] == full[a]);
            if b < r@.len() {
                assert(r@[b] == k as usize);
            }
            assert(word_before(ws, full[a] as int, full[b] as int));
        }
    }
    r
}

proof fn lemma_seq_le_refl(a: Seq<char>)
    ensures
        seq_le(a, a),
    decreases a.len(),
{
    if a.len() > 0 {
        lemma_seq_le_refl(a.drop_first());
    }
}

/// `a` is at most `b` in word order.
fn le_whole(a: &[char], b: &[char]) -> (r: bool)
    ensures
        r == seq_le(a@, b@),
{
    proof {
        assert(a@.subrange(0, a@.len() as int) =~= a@);
        assert(b@.subrange(0, b@.len() as int) =~= b@);
    }
    le_from(a, b, 0)
}

/// The last of `words` whose slug is `slug`: where a part named by its slug
/// points.
pub fn last_with_slug(words: &[String], slug: &str) -> (r: Option<usize>)
    ensures
        match r {
            Some(i) => i < words@.len() && slug_of(words@[i as int]@) == slug@ && forall|j: int|
                i < j < words@.len() ==> slug_of(#[trigger] words@[j]@) != slug@,
            None => forall|j: int| 0 <= j < words@.len() ==> slug_of(#[trigger] words@[j]@) != slug@,
        },
{
    let mut k: usize = words.len();
    while k > 0
        invariant
            k <= words@.len(),
            forall|j: int| k <= j < words@.len() ==> slug_of(#[trigger] words@[j]@) != slug@,
        decreases k,
    {
        let w = slugify(words[k - 1].as_str());
        if str_eq(w.as_str(), slug) {
            return Some(k - 1);
        }
        k = k - 1;
    }
    None
}

} // verus!

//! Markdown notes linked by wikilinks: `[[target]]` and `[[target|label]]`
//! in a note's body, resolved to note slugs; and where the notes and the
//! per-user drafts of an instance live.
use vstd::prelude::*;

use vstd::string::{StrSliceExecFns, StringExecFns};

use chrono::{DateTime, TimeZone, Utc};

use crate::comunicacao::lexicon::{lemma_slug_of_no_break, slug_of, slugify};
use crate::comunicacao::pack_from_lexicon::{
    after_prefix, inner, lines_chars, lines_from, lines_of, without_cr, quoted_by, strip_prefix_chars, undouble,
    undouble_chars,
};
use crate::keyed::{find_key, has_key, unique_keys};
use crate::text::{alnum_of, is_alphanumeric, 
    find_from, find_from_exec, index_of_exec, index_of_from, lemma_find_from_ge,
    lemma_index_of_at, lemma_index_of_bounds, lemma_index_of_none, matches_at, slice_chars, str_chars, string_of, trim, trim_chars,
};

verus! {

/// Failures of the note stores.
#[derive(Debug)]
pub enum NoteError {
    NotFound(String),
    InvalidSlug,
    /// An I/O failure, described by its message.
    Io(String),
}

/// An outgoing wikilink.
#[derive(Debug, Clone, PartialEq)]
pub struct NoteLink {
    /// The target, resolved to a note slug.
    pub target: String,
    /// The alias of `[[target|label]]`, if any.
    pub label: Option<String>,
}

/// An incoming link: which note points here.
#[derive(Debug, Clone, PartialEq)]
pub struct Backlink {
    /// The slug of the linking note.
    pub source: String,
    pub label: Option<String>,
}

/// `part` appended to the `/`-separated path `base`: an absolute `part`
/// replaces `base`, and a separator is added only when `base` lacks one.
pub open spec fn path_join(base: Seq<char>, part: Seq<char>) -> Seq<char> {
    if part.len() > 0 && part[0] == '/' {
        part
    } else if base.len() == 0 {
        part
    } else if base.last() == '/' {
        base + part
    } else {
        base + seq!['/'] + part
    }
}

/// Executable form of [`path_join`].
pub fn join_path(base: &str, part: &str) -> (r: String)
    ensures
        r@ == path_join(base@, part@),
{
    proof {
        reveal_strlit("/");
    }
    let b = str_chars(base);
    let p = str_chars(part);
    if p.len() > 0 && p[0] == '/' {
        return String::from_str(part);
    }
    if b.len() == 0 {
        return String::from_str(part);
    }
    let mut r = String::from_str(base);
    if b[b.len() - 1] != '/' {
        r.append("/");
    }
    r.append(part);
    r
}

/// The notes of one instance, in `<store root>/<instance id>/notes/`.
pub struct NoteStore {
    dir: String,
}

impl NoteStore {
    pub closed spec fn dir_view(&self) -> Seq<char> {
        self.dir@
    }

    /// The store under `<store_root>/<instance_id>/notes`.
    pub fn for_instance(store_root: &str, instance_id: &str) -> (s: Self)
        ensures
            s.dir_view() == path_join(path_join(store_root@, instance_id@), "notes"@),
    {
        let d = join_path(store_root, instance_id);
        NoteStore { dir: join_path(d.as_str(), "notes") }
    }

    /// The directory of the notes.
    pub fn dir(&self) -> (r: &str)
        ensures
            r@ == self.dir_view(),
    {
        self.dir.as_str()
    }
}

/// A user's drafts for one instance, in
/// `<store root>/<instance id>/drafts/<user slug>/`.
pub struct DraftStore {
    dir: String,
}

/// The folder name of a user's drafts: the user's slug, `anon` if empty.
pub open spec fn user_folder(user: Seq<char>) -> Seq<char> {
    if slug_of(user).len() == 0 {
        "anon"@
    } else {
        slug_of(user)
    }
}

impl DraftStore {
    pub closed spec fn dir_view(&self) -> Seq<char> {
        self.dir@
    }

    /// The store under `<store_root>/<instance_id>/drafts/<user slug>`.
    pub fn for_user(store_root: &str, instance_id: &str, user: &str) -> (s: Self)
        ensures
            s.dir_view() == path_join(
                path_join(path_join(store_root@, instance_id@), "drafts"@),
                user_folder(user@),
            ),
    {
        let s = slugify(user);
        let user_slug = if s.as_str().unicode_len() == 0 {
            String::from_str("anon")
        } else {
            s
        };
        let d = join_path(store_root, instance_id);
        let d = join_path(d.as_str(), "drafts");
        DraftStore { dir: join_path(d.as_str(), user_slug.as_str()) }
    }

    /// The directory of the drafts.
    pub fn dir(&self) -> (r: &str)
        ensures
            r@ == self.dir_view(),
    {
        self.dir.as_str()
    }
}

// ── Wikilinks ──────────────────────────────────────────────────────────────

/// The target and label of the inside of `[[...]]`: split at the first `|`,
/// both trimmed; an empty label is no label.
pub open spec fn link_parts(inner: Seq<char>) -> (Seq<char>, Option<Seq<char>>) {
    match index_of_from(inner, '|', 0) {
        Some(p) => {
            let l = trim(inner.skip(p + 1));
            (trim(inner.take(p)), if l.len() == 0 {
                None
            } else {
                Some(l)
            })
        },
        None => (trim(inner), None),
    }
}

/// The wikilinks of a text, in order: each `[[` up to the next `]]`, kept
/// when its target is not blank; an unclosed `[[` ends the scan.
pub open spec fn wikilinks(s: Seq<char>) -> Seq<(Seq<char>, Option<Seq<char>>)>
    decreases s.len(),
{
    match find_from(s, "[["@, 0) {
        None => Seq::empty(),
        Some(i) => {
            let rest = s.skip(i + 2);
            match find_from(rest, "]]"@, 0) {
                None => Seq::empty(),
                Some(j) => {
                    let (target, label) = link_parts(rest.take(j));
                    proof {
                        lemma_find_from_ge(s, "[["@, 0);
                        lemma_find_from_ge(rest, "]]"@, 0);
                        reveal_strlit("[[");
                        reveal_strlit("]]");
                    }
                    (if target.len() > 0 {
                        seq![(target, label)]
                    } else {
                        Seq::empty()
                    }) + wikilinks(rest.skip(j + 2))
                },
            }
        },
    }
}

/// The links as values.
pub open spec fn links_view(v: Seq<(String, Option<String>)>) -> Seq<(Seq<char>, Option<Seq<char>>)> {
    v.map_values(
        |l: (String, Option<String>)|
            (
                l.0@,
                match l.1 {
                    Some(x) => Some(x@),
                    None => None,
                },
            ),
    )
}

fn parts_of(inner: &[char]) -> (r: (String, Option<String>))
    ensures
        (r.0@, match r.1 {
            Some(x) => Some(x@),
            None => None,
        }) == link_parts(inner@),
{
    match index_of_exec(inner, '|', 0) {
        Some(p) => {
            proof {
                lemma_index_of_bounds(inner@, '|', 0);
            }
            let n = inner.len();
            let after = slice_chars(inner, p + 1, n);
            let l = trim_chars(after.as_slice());
            let before = slice_chars(inner, 0, p);
            let t = trim_chars(before.as_slice());
            proof {
                assert(after@ =~= inner@.skip(p + 1));
                assert(before@ =~= inner@.take(p as int));
            }
            let label = if l.len() == 0 {
                None
            } else {
                Some(string_of(l.as_slice()))
            };
            (string_of(t.as_slice()), label)
        },
        None => {
            let t = trim_chars(inner);
            (string_of(t.as_slice()), None)
        },
    }
}

fn wikilinks_of(s: &[char], open: &[char], close: &[char], out: &mut Vec<(String, Option<String>)>)
    requires
        open@ == "[["@,
        close@ == "]]"@,
    ensures
        links_view(final(out)@) == links_view(old(out)@) + wikilinks(s@),
    decreases s@.len(),
{
    proof {
        reveal_strlit("[[");
        reveal_strlit("]]");
    }
    match find_from_exec(s, open, 0) {
        None => {
            assert(links_view(out@) + Seq::empty() =~= links_view(out@));
        },
        Some(i) => {
            let n = s.len();
            let rest = slice_chars(s, i + 2, n);
            assert(rest@ =~= s@.skip(i + 2));
            match find_from_exec(rest.as_slice(), close, 0) {
                None => {
                    assert(links_view(out@) + Seq::empty() =~= links_view(out@));
                },
                Some(j) => {
                    let inner = slice_chars(rest.as_slice(), 0, j);
                    assert(inner@ =~= rest@.take(j as int));
                    let (target, label) = parts_of(inner.as_slice());
                    let ghost before = links_view(out@);
                    if target.as_str().unicode_len() > 0 {
                        out.push((target, label));
                        assert(links_view(out@) =~= before.push(link_parts(inner@)));
                    }
                    let tail = slice_chars(rest.as_slice(), j + 2, rest.len());
                    assert(tail@ =~= rest@.skip(j + 2));
                    let ghost mid = links_view(out@);
                    wikilinks_of(tail.as_slice(), open, close, out);
                    proof {
                        let (t, l) = link_parts(rest@.take(j as int));
                        let head = if t.len() > 0 {
                            seq![(t, l)]
                        } else {
                            Seq::empty()
                        };
                        assert(mid =~= before + head);
                        assert(wikilinks(s@) == head + wikilinks(tail@));
                        assert(links_view(out@) =~= before + wikilinks(s@));
                    }
                },
            }
        },
    }
}

/// The wikilinks `[[target]]` and `[[target|label]]` of a text, in order,
/// with trimmed targets and labels; blank targets are skipped, an empty
/// label is none, and an unclosed `[[` ends the scan.
pub fn extract_wikilinks(text: &str) -> (r: Vec<(String, Option<String>)>)
    ensures
        links_view(r@) == wikilinks(text@),
{
    let cs = str_chars(text);
    let open = str_chars("[[");
    let close = str_chars("]]");
    let mut out: Vec<(String, Option<String>)> = Vec::new();
    wikilinks_of(cs.as_slice(), open.as_slice(), close.as_slice(), &mut out);
    assert(links_view(out@) =~= Seq::empty() + wikilinks(text@));
    out
}

/// Links resolved to note slugs: each target slugified, empty slugs
/// dropped.
pub open spec fn resolved(ls: Seq<(Seq<char>, Option<Seq<char>>)>) -> Seq<(Seq<char>, Option<Seq<char>>)>
    decreases ls.len(),
{
    if ls.len() == 0 {
        Seq::empty()
    } else {
        let (t, l) = ls.last();
        resolved(ls.drop_last()) + if slug_of(t).len() > 0 {
            seq![(slug_of(t), l)]
        } else {
            Seq::empty()
        }
    }
}

/// A note link as values.
pub open spec fn note_link_view(l: NoteLink) -> (Seq<char>, Option<Seq<char>>) {
    (
        l.target@,
        match l.label {
            Some(x) => Some(x@),
            None => None,
        },
    )
}

/// The outgoing links of a note's body: its wikilinks with targets resolved
/// to slugs (`[[Minha Nota]]`, `[[minha-nota]]` and `[[notes/minha-nota.md]]`
/// resolve alike).
pub fn links_from_body(body: &str) -> (r: Vec<NoteLink>)
    ensures
        r@.map_values(|l: NoteLink| note_link_view(l)) == resolved(wikilinks(body@)),
{
    let raw = extract_wikilinks(body);
    let ghost ls = links_view(raw@);
    let mut out: Vec<NoteLink> = Vec::new();
    let mut i: usize = 0;
    while i < raw.len()
        invariant
            i <= raw@.len(),
            ls == links_view(raw@),
            out@.map_values(|l: NoteLink| note_link_view(l)) == resolved(ls.take(i as int)),
        decreases raw@.len() - i,
    {
        let ghost before = out@.map_values(|l: NoteLink| note_link_view(l));
        let target = slugify(raw[i].0.as_str());
        let label = match &raw[i].1 {
            Some(x) => Some(x.clone()),
            None => None,
        };
        proof {
            assert(ls.take(i + 1).drop_last() =~= ls.take(i as int));
            assert(ls.take(i + 1).last() == ls[i as int]);
        }
        if target.as_str().unicode_len() > 0 {
            out.push(NoteLink { target, label });
            assert(out@.map_values(|l: NoteLink| note_link_view(l)) =~= before.push(
                note_link_view(out@.last()),
            ));
        }
        i = i + 1;
    }
    assert(ls.take(ls.len() as int) =~= ls);
    out
}

// ── Notes as Markdown files ─────────────────────────────────────────────────

/// A note: its slug, title, Markdown body, creation and last change (in
/// milliseconds since the Unix epoch) and outgoing links.
#[derive(Debug, Clone, PartialEq)]
pub struct Note {
    pub slug: String,
    pub title: String,
    /// The body, verbatim, without the front matter.
    pub body: String,
    pub created: i64,
    pub updated: i64,
    /// The outgoing wikilinks, in body order, targets resolved to slugs.
    pub links: Vec<NoteLink>,
}

/// A user's draft of a note: the raw Markdown, kept apart from the notes.
#[derive(Debug, Clone, PartialEq)]
pub struct Draft {
    pub slug: String,
    pub markdown: String,
    pub updated: i64,
}

/// The RFC 3339 text of a time in milliseconds since the epoch, as
/// `DateTime<Utc>::to_rfc3339` writes it.
pub uninterp spec fn rfc3339_text(ms: i64) -> Seq<char>;

/// The time that an RFC 3339 text stands for, in milliseconds since the
/// epoch, as `DateTime::parse_from_rfc3339` reads it; `None` if it is not one.
pub uninterp spec fn rfc3339_millis(s: Seq<char>) -> Option<i64>;

/// Times that a `DateTime<Utc>` can hold (years within ±250,000).
pub open spec fn datetime_ms(ms: i64) -> bool {
    -7_900_000_000_000_000 <= ms <= 7_900_000_000_000_000
}

/// Whether `ms` is a time that [`datetime_ms`] admits.
pub fn datetime_ms_ok(ms: i64) -> (r: bool)
    ensures
        r == datetime_ms(ms),
{
    -7_900_000_000_000_000 <= ms && ms <= 7_900_000_000_000_000
}

/// `Utc.timestamp_millis_opt(ms)` then `DateTime::to_rfc3339` of `chrono`.
/// The contract names the text [`rfc3339_text`] and says it is on one line
/// (the date, `T`, the time and the offset, without a line break);
/// `chrono` panics outside its range of dates, which `requires` leaves out.
#[verifier::external_body]
fn rfc3339_of(ms: i64) -> (r: String)
    requires
        datetime_ms(ms),
    ensures
        r@ == rfc3339_text(ms),
        forall|i: int| 0 <= i < r@.len() ==> r@[i] != '\n',
{
    Utc.timestamp_millis_opt(ms).unwrap().to_rfc3339()
}

/// `DateTime::parse_from_rfc3339` of `chrono`, then `timestamp_millis`. The
/// contract names the result [`rfc3339_millis`].
#[verifier::external_body]
fn parse_rfc3339(s: &str) -> (r: Option<i64>)
    ensures
        r == rfc3339_millis(s@),
{
    match DateTime::parse_from_rfc3339(s) {
        Ok(d) => Some(d.timestamp_millis()),
        Err(_) => None,
    }
}

/// The slug that a note name gives: its slug when it has an alphanumeric
/// character, `None` otherwise (nothing in it could name a file safely).
pub open spec fn note_slug_of(raw: Seq<char>) -> Option<Seq<char>> {
    if exists|i: int| 0 <= i < raw.len() && alnum_of(#[trigger] raw[i]) {
        Some(slug_of(raw))
    } else {
        None
    }
}

/// The note slug of `raw` (see [`note_slug_of`]): `../../etc/passwd` gives
/// `etc-passwd`, `...` gives `None`.
pub fn note_slug(raw: &str) -> (r: Option<String>)
    ensures
        match r {
            Some(x) => note_slug_of(raw@) == Some(x@),
            None => note_slug_of(raw@) is None,
        },
{
    let cs = str_chars(raw);
    let mut i: usize = 0;
    while i < cs.len()
        invariant
            cs@ == raw@,
            i <= cs@.len(),
            forall|j: int| 0 <= j < i ==> !alnum_of(#[trigger] cs@[j]),
        decreases cs@.len() - i,
    {
        if is_alphanumeric(cs[i]) {
            return Some(slugify(raw));
        }
        i = i + 1;
    }
    None
}

/// `s` with every `'` doubled, as single-quoted YAML writes it.
pub open spec fn doubled(s: Seq<char>) -> Seq<char>
    decreases s.len(),
{
    if s.len() == 0 {
        seq![]
    } else {
        doubled(s.drop_last()) + if s.last() == '\'' {
            seq!['\'', '\'']
        } else {
            seq![s.last()]
        }
    }
}

/// `s` as a single-quoted YAML scalar.
pub open spec fn yaml_quote(s: Seq<char>) -> Seq<char> {
    seq!['\''] + doubled(s) + seq!['\'']
}

/// Writes `s` as a single-quoted YAML scalar (see [`yaml_quote`]).
pub fn quote_yaml(s: &str) -> (r: String)
    ensures
        r@ == yaml_quote(s@),
{
    let cs = str_chars(s);
    let mut out: Vec<char> = Vec::new();
    out.push('\'');
    let mut i: usize = 0;
    proof {
        assert(cs@.take(0) =~= Seq::<char>::empty());
    }
    while i < cs.len()
        invariant
            cs@ == s@,
            i <= cs@.len(),
            out@ == seq!['\''] + doubled(cs@.take(i as int)),
        decreases cs@.len() - i,
    {
        proof {
            assert(cs@.take(i + 1).drop_last() =~= cs@.take(i as int));
        }
        if cs[i] == '\'' {
            out.push('\'');
            out.push('\'');
        } else {
            out.push(cs[i]);
        }
        proof {
            assert(out@ =~= seq!['\''] + doubled(cs@.take(i + 1)));
        }
        i = i + 1;
    }
    out.push('\'');
    proof {
        assert(cs@.take(cs@.len() as int) =~= s@);
    }
    string_of(out.as_slice())
}

/// The `links:` lines of the front matter, one wikilink per line.
pub open spec fn link_lines(ls: Seq<(Seq<char>, Option<Seq<char>>)>) -> Seq<char>
    decreases ls.len(),
{
    if ls.len() == 0 {
        seq![]
    } else {
        link_lines(ls.drop_last()) + "- "@ + yaml_quote("[["@ + ls.last().0 + ".md]]"@) + "\n"@
    }
}

/// The Markdown file of a note: front matter with its type, slug, title,
/// times and outgoing links, then the body verbatim, ending in a newline.
pub open spec fn note_markdown(
    slug: Seq<char>,
    title: Seq<char>,
    body: Seq<char>,
    created: Seq<char>,
    updated: Seq<char>,
    links: Seq<(Seq<char>, Option<Seq<char>>)>,
) -> Seq<char> {
    "---\n"@ + "type: nota\n"@ + "slug: "@ + yaml_quote(slug) + "\n"@ + "title: "@ + yaml_quote(title)
        + "\n"@ + "created: "@ + yaml_quote(created) + "\n"@ + "updated: "@ + yaml_quote(updated)
        + "\n"@ + (if links.len() == 0 {
        seq![]
    } else {
        "links:\n"@ + link_lines(links)
    }) + "contributed_via: yggdrasil-instance\n"@ + "---\n\n"@ + body + (if body.len() > 0
        && body.last() == '\n' {
        seq![]
    } else {
        seq!['\n']
    })
}

/// Writes the Markdown file of a note (see [`note_markdown`]), its times in
/// RFC 3339.
pub fn render_note_markdown(slug: &str, title: &str, body: &str, created: i64, updated: i64) -> (r:
    String)
    requires
        datetime_ms(created),
        datetime_ms(updated),
    ensures
        r@ == note_markdown(
            slug@,
            title@,
            body@,
            rfc3339_text(created),
            rfc3339_text(updated),
            resolved(wikilinks(body@)),
        ),
        one_line(slug@) && one_line(title@) ==> ({
            let fm = frontmatter_split(r@).0;
            let b = frontmatter_split(r@).1;
            &&& fm_value(lines_of(fm), "title: "@, 0) == Some(title@)
            &&& fm_value(lines_of(fm), "created: "@, 0) == Some(rfc3339_text(created))
            &&& fm_value(lines_of(fm), "updated: "@, 0) == Some(rfc3339_text(updated))
            &&& b == body@ + final_break(body@)
            &&& resolved(wikilinks(b)) == resolved(wikilinks(body@))
        }),
{
    let mut s = String::new();
    s.append("---\n");
    s.append("type: nota\n");
    s.append("slug: ");
    s.append(quote_yaml(slug).as_str());
    s.append("\n");
    s.append("title: ");
    s.append(quote_yaml(title).as_str());
    s.append("\n");
    s.append("created: ");
    let ct = rfc3339_of(created);
    s.append(quote_yaml(ct.as_str()).as_str());
    s.append("\n");
    s.append("updated: ");
    let ut = rfc3339_of(updated);
    s.append(quote_yaml(ut.as_str()).as_str());
    s.append("\n");
    let ghost head = s@;
    let links = links_from_body(body);
    let ghost lv = links@.map_values(|l: NoteLink| note_link_view(l));
    if links.len() > 0 {
        s.append("links:\n");
        let ghost head2 = s@;
        let mut i: usize = 0;
        proof {
            assert(lv.take(0) =~= Seq::<(Seq<char>, Option<Seq<char>>)>::empty());
            assert(s@ =~= head2 + link_lines(lv.take(0)));
        }
        while i < links.len()
            invariant
                i <= links@.len(),
                lv == links@.map_values(|l: NoteLink| note_link_view(l)),
                s@ == head2 + link_lines(lv.take(i as int)),
            decreases links@.len() - i,
        {
            let mut w = String::new();
            w.append("[[");
            w.append(links[i].target.as_str());
            w.append(".md]]");
            s.append("- ");
            s.append(quote_yaml(w.as_str()).as_str());
            s.append("\n");
            proof {
                assert(lv.take(i + 1).drop_last() =~= lv.take(i as int));
                assert(lv.take(i + 1).last().0 == links@[i as int].target@);
                assert(s@ =~= head2 + link_lines(lv.take(i + 1)));
            }
            i = i + 1;
        }
        proof {
            assert(lv.take(links@.len() as int) =~= lv);
            assert(s@ =~= head + ("links:\n"@ + link_lines(lv)));
        }
    } else {
        proof {
            assert(s@ =~= head + Seq::<char>::empty());
        }
    }
    s.append("contributed_via: yggdrasil-instance\n");
    s.append("---\n\n");
    s.append(body);
    let n = body.unicode_len();
    if n == 0 || body.get_char(n - 1) != '\n' {
        s.append("\n");
        proof {
            reveal_strlit("\n");
            assert("\n"@ =~= seq!['\n']);
        }
    }
    proof {
        assert(s@ =~= note_markdown(
            slug@,
            title@,
            body@,
            rfc3339_text(created),
            rfc3339_text(updated),
            resolved(wikilinks(body@)),
        ));
        if one_line(slug@) && one_line(title@) {
            lemma_note_round_trip(
                slug@,
                title@,
                body@,
                rfc3339_text(created),
                rfc3339_text(updated),
            );
        }
    }
    s
}

// ── Reading back what was written ─────────────────────────────────────────

/// Text on one line: no line break in it.
pub open spec fn one_line(s: Seq<char>) -> bool {
    forall|i: int| 0 <= i < s.len() ==> s[i] != '\n'
}

/// Lines, each followed by a line break.
pub open spec fn lines_text(ls: Seq<Seq<char>>) -> Seq<char>
    decreases ls.len(),
{
    if ls.len() == 0 {
        seq![]
    } else {
        ls[0] + seq!['\n'] + lines_text(ls.drop_first())
    }
}

proof fn lemma_lines_text_push(ls: Seq<Seq<char>>, l: Seq<char>)
    ensures
        lines_text(ls.push(l)) == lines_text(ls) + l + seq!['\n'],
    decreases ls.len(),
{
    if ls.len() == 0 {
        assert(ls.push(l).drop_first() =~= Seq::<Seq<char>>::empty());
        assert(ls.push(l)[0] == l);
        assert(lines_text(ls.push(l).drop_first()) == Seq::<char>::empty());
        assert(lines_text(ls.push(l)) =~= l + seq!['\n']);
    } else {
        assert(ls.push(l).drop_first() =~= ls.drop_first().push(l));
        lemma_lines_text_push(ls.drop_first(), l);
        assert(lines_text(ls.push(l)) =~= lines_text(ls) + l + seq!['\n']);
    }
}

proof fn lemma_lines_text_append(a: Seq<Seq<char>>, b: Seq<Seq<char>>)
    ensures
        lines_text(a + b) == lines_text(a) + lines_text(b),
    decreases a.len(),
{
    if a.len() == 0 {
        assert(a + b =~= b);
        assert(lines_text(a) + lines_text(b) =~= lines_text(b));
    } else {
        assert((a + b).drop_first() =~= a.drop_first() + b);
        lemma_lines_text_append(a.drop_first(), b);
        assert(lines_text(a + b) =~= lines_text(a) + lines_text(b));
    }
}

/// The line that lists a link in the front matter.
pub open spec fn link_line(target: Seq<char>) -> Seq<char> {
    "- "@ + yaml_quote("[["@ + target + ".md]]"@)
}

pub open spec fn link_line_seq(ls: Seq<(Seq<char>, Option<Seq<char>>)>) -> Seq<Seq<char>> {
    Seq::new(ls.len(), |i: int| link_line(ls[i].0))
}

proof fn lemma_link_lines(ls: Seq<(Seq<char>, Option<Seq<char>>)>)
    ensures
        link_lines(ls) == lines_text(link_line_seq(ls)),
    decreases ls.len(),
{
    reveal_strlit("\n");
    if ls.len() == 0 {
        assert(link_line_seq(ls) =~= Seq::<Seq<char>>::empty());
    } else {
        lemma_link_lines(ls.drop_last());
        assert(link_line_seq(ls) =~= link_line_seq(ls.drop_last()).push(link_line(ls.last().0)));
        lemma_lines_text_push(link_line_seq(ls.drop_last()), link_line(ls.last().0));
        assert(link_lines(ls) =~= lines_text(link_line_seq(ls)));
    }
}

/// The first lines of a note's front matter: type, slug, title and times.
pub open spec fn fm_head(slug: Seq<char>, title: Seq<char>, created: Seq<char>, updated: Seq<char>) -> Seq<
    Seq<char>,
> {
    seq![
        "type: nota"@,
        "slug: "@ + yaml_quote(slug),
        "title: "@ + yaml_quote(title),
        "created: "@ + yaml_quote(created),
        "updated: "@ + yaml_quote(updated),
    ]
}

/// The `links:` lines of the front matter, none without links.
pub open spec fn fm_links(links: Seq<(Seq<char>, Option<Seq<char>>)>) -> Seq<Seq<char>> {
    if links.len() == 0 {
        seq![]
    } else {
        seq!["links:"@] + link_line_seq(links)
    }
}

/// The lines of a note's front matter.
pub open spec fn fm_lines(
    slug: Seq<char>,
    title: Seq<char>,
    created: Seq<char>,
    updated: Seq<char>,
    links: Seq<(Seq<char>, Option<Seq<char>>)>,
) -> Seq<Seq<char>> {
    fm_head(slug, title, created, updated) + fm_links(links) + seq![
        "contributed_via: yggdrasil-instance"@,
    ]
}

/// The line break a note file ends its body with, when the body lacks one.
pub open spec fn final_break(body: Seq<char>) -> Seq<char> {
    if body.len() > 0 && body.last() == '\n' {
        seq![]
    } else {
        seq!['\n']
    }
}

proof fn lemma_head_text(slug: Seq<char>, title: Seq<char>, created: Seq<char>, updated: Seq<char>)
    ensures
        lines_text(fm_head(slug, title, created, updated)) == "type: nota\n"@ + "slug: "@ + yaml_quote(
            slug,
        ) + "\n"@ + "title: "@ + yaml_quote(title) + "\n"@ + "created: "@ + yaml_quote(created)
            + "\n"@ + "updated: "@ + yaml_quote(updated) + "\n"@,
{
    reveal_strlit("type: nota\n");
    reveal_strlit("type: nota");
    reveal_strlit("\n");
    let h = fm_head(slug, title, created, updated);
    let h1 = h.drop_first();
    let h2 = h1.drop_first();
    let h3 = h2.drop_first();
    let h4 = h3.drop_first();
    let h5 = h4.drop_first();
    assert(h5 =~= Seq::<Seq<char>>::empty());
    assert(h4[0] == h[4]);
    assert(lines_text(h5) == Seq::<char>::empty());
    assert(lines_text(h4) == h4[0] + seq!['\n'] + lines_text(h5));
    assert(lines_text(h4) =~= h[4] + seq!['\n']);
    assert(lines_text(h3) == h[3] + seq!['\n'] + lines_text(h4));
    assert(lines_text(h2) == h[2] + seq!['\n'] + lines_text(h3));
    assert(lines_text(h1) == h[1] + seq!['\n'] + lines_text(h2));
    assert(lines_text(h) == h[0] + seq!['\n'] + lines_text(h1));
    assert(lines_text(h) =~= "type: nota\n"@ + "slug: "@ + yaml_quote(slug) + "\n"@ + "title: "@
        + yaml_quote(title) + "\n"@ + "created: "@ + yaml_quote(created) + "\n"@ + "updated: "@
        + yaml_quote(updated) + "\n"@);
}

proof fn lemma_links_text(links: Seq<(Seq<char>, Option<Seq<char>>)>)
    ensures
        lines_text(fm_links(links)) == (if links.len() == 0 {
            seq![]
        } else {
            "links:\n"@ + link_lines(links)
        }),
        lines_text(seq!["contributed_via: yggdrasil-instance"@])
            == "contributed_via: yggdrasil-instance\n"@,
{
    reveal_strlit("links:\n");
    reveal_strlit("links:");
    reveal_strlit("contributed_via: yggdrasil-instance\n");
    reveal_strlit("contributed_via: yggdrasil-instance");
    let last: Seq<Seq<char>> = seq!["contributed_via: yggdrasil-instance"@];
    assert(last.drop_first() =~= Seq::<Seq<char>>::empty());
    assert(lines_text(last.drop_first()) == Seq::<char>::empty());
    assert(lines_text(last) == last[0] + seq!['\n'] + lines_text(last.drop_first()));
    assert(lines_text(last) =~= "contributed_via: yggdrasil-instance\n"@);
    if links.len() > 0 {
        lemma_link_lines(links);
        let m = fm_links(links);
        assert(m.drop_first() =~= link_line_seq(links));
        assert(lines_text(m) =~= "links:\n"@ + link_lines(links));
    } else {
        assert(lines_text(fm_links(links)) =~= Seq::<char>::empty());
    }
}

proof fn lemma_note_shape(
    slug: Seq<char>,
    title: Seq<char>,
    body: Seq<char>,
    created: Seq<char>,
    updated: Seq<char>,
    links: Seq<(Seq<char>, Option<Seq<char>>)>,
)
    ensures
        note_markdown(slug, title, body, created, updated, links) == "---\n"@ + lines_text(
            fm_lines(slug, title, created, updated, links),
        ) + "---\n\n"@ + body + final_break(body),
{
    let h = fm_head(slug, title, created, updated);
    let m = fm_links(links);
    let last: Seq<Seq<char>> = seq!["contributed_via: yggdrasil-instance"@];
    lemma_lines_text_append(h + m, last);
    lemma_lines_text_append(h, m);
    lemma_head_text(slug, title, created, updated);
    lemma_links_text(links);
    assert(note_markdown(slug, title, body, created, updated, links) =~= "---\n"@ + lines_text(
        fm_lines(slug, title, created, updated, links),
    ) + "---\n\n"@ + body + final_break(body));
}

/// A front-matter line that reads back: at least two characters, on one
/// line, not starting with `--`, not ending with a carriage return.
pub open spec fn good_line(l: Seq<char>) -> bool {
    &&& l.len() >= 2
    &&& one_line(l)
    &&& !(l[0] == '-' && l[1] == '-')
    &&& l.last() != '\r'
}

proof fn lemma_doubled_one_line(s: Seq<char>)
    requires
        one_line(s),
    ensures
        one_line(doubled(s)),
    decreases s.len(),
{
    if s.len() > 0 {
        assert(one_line(s.drop_last()));
        lemma_doubled_one_line(s.drop_last());
        let d = doubled(s.drop_last());
        let e = if s.last() == '\'' {
            seq!['\'', '\'']
        } else {
            seq![s.last()]
        };
        assert forall|i: int| 0 <= i < (d + e).len() implies (d + e)[i] != '\n' by {
            if i >= d.len() {
                assert((d + e)[i] == e[i - d.len()]);
            }
        }
    }
}

proof fn lemma_doubled_front(s: Seq<char>)
    requires
        s.len() > 0,
    ensures
        doubled(s) == (if s[0] == '\'' {
            seq!['\'', '\'']
        } else {
            seq![s[0]]
        }) + doubled(s.drop_first()),
    decreases s.len(),
{
    if s.len() == 1 {
        assert(s.drop_last() =~= Seq::<char>::empty());
        assert(s.drop_first() =~= Seq::<char>::empty());
        assert(doubled(s.drop_first()) == Seq::<char>::empty());
        assert(doubled(s.drop_last()) == Seq::<char>::empty());
        assert(s.last() == s[0]);
    } else {
        lemma_doubled_front(s.drop_last());
        assert(s.drop_last().drop_first() =~= s.drop_first().drop_last());
        assert(s.drop_last()[0] == s[0]);
        assert(s.drop_first().last() == s.last());
        assert(s.drop_first().len() > 0);
        assert(doubled(s) =~= (if s[0] == '\'' {
            seq!['\'', '\'']
        } else {
            seq![s[0]]
        }) + doubled(s.drop_first()));
    }
}

proof fn lemma_undouble_doubled(s: Seq<char>)
    ensures
        undouble(doubled(s)) == s,
    decreases s.len(),
{
    if s.len() == 0 {
        assert(doubled(s) == Seq::<char>::empty());
    } else {
        lemma_doubled_front(s);
        lemma_undouble_doubled(s.drop_first());
        let d = doubled(s);
        let r = doubled(s.drop_first());
        if s[0] == '\'' {
            assert(d.skip(2) =~= r);
        } else {
            assert(d.skip(1) =~= r);
        }
        assert(undouble(d) =~= s);
    }
}

/// A quoted value reads back: trimming leaves it, and unquoting gives the
/// text back.
proof fn lemma_unquote_quote(s: Seq<char>)
    ensures
        fm_unquote(trim(yaml_quote(s))) == s,
{
    let q = yaml_quote(s);
    assert(q[0] == '\'');
    assert(q[q.len() - 1] == '\'');
    assert(!crate::text::is_ws('\''));
    assert(trim(q) =~= q);
    assert(inner(q) =~= doubled(s));
    lemma_undouble_doubled(s);
}

proof fn lemma_quote_one_line(s: Seq<char>)
    requires
        one_line(s),
    ensures
        one_line(yaml_quote(s)),
        yaml_quote(s).len() >= 2,
        yaml_quote(s)[0] == '\'',
        yaml_quote(s).last() == '\'',
{
    lemma_doubled_one_line(s);
    let q = yaml_quote(s);
    let d = doubled(s);
    assert forall|i: int| 0 <= i < q.len() implies q[i] != '\n' by {
        if 1 <= i < q.len() - 1 {
            assert(q[i] == d[i - 1]);
        }
    }
}

proof fn lemma_prefixed_good(p: Seq<char>, s: Seq<char>)
    requires
        one_line(s),
        one_line(p),
        p.len() >= 2,
        !(p[0] == '-' && p[1] == '-'),
    ensures
        good_line(p + yaml_quote(s)),
{
    lemma_quote_one_line(s);
    let l = p + yaml_quote(s);
    assert forall|i: int| 0 <= i < l.len() implies l[i] != '\n' by {
        if i >= p.len() {
            assert(l[i] == yaml_quote(s)[i - p.len()]);
        }
    }
    assert(l.last() == yaml_quote(s).last());
}

/// Every line of a note's front matter reads back, for a slug, a title and
/// times on one line.
proof fn lemma_fm_lines_good(
    slug: Seq<char>,
    title: Seq<char>,
    created: Seq<char>,
    updated: Seq<char>,
    body: Seq<char>,
)
    requires
        one_line(slug),
        one_line(title),
        one_line(created),
        one_line(updated),
    ensures
        forall|i: int|
            0 <= i < fm_lines(slug, title, created, updated, resolved(wikilinks(body))).len()
                ==> good_line(
                #[trigger] fm_lines(slug, title, created, updated, resolved(wikilinks(body)))[i],
            ),
{
    reveal_strlit("type: nota");
    reveal_strlit("slug: ");
    reveal_strlit("title: ");
    reveal_strlit("created: ");
    reveal_strlit("updated: ");
    reveal_strlit("links:");
    reveal_strlit("contributed_via: yggdrasil-instance");
    reveal_strlit("- ");
    reveal_strlit("[[");
    reveal_strlit(".md]]");
    let links = resolved(wikilinks(body));
    lemma_resolved_one_line(wikilinks(body));
    let ls = fm_lines(slug, title, created, updated, links);
    let h = fm_head(slug, title, created, updated);
    let m = fm_links(links);
    lemma_prefixed_good("slug: "@, slug);
    lemma_prefixed_good("title: "@, title);
    lemma_prefixed_good("created: "@, created);
    lemma_prefixed_good("updated: "@, updated);
    assert forall|i: int| 0 <= i < ls.len() implies good_line(#[trigger] ls[i]) by {
        if i < h.len() {
            assert(ls[i] == h[i]);
        } else if i < h.len() + m.len() {
            assert(ls[i] == m[i - h.len()]);
            if i > h.len() {
                let k = i - h.len() - 1;
                let t = links[k].0;
                assert(m[i - h.len()] == link_line(t));
                let inside = "[["@ + t + ".md]]"@;
                assert(one_line(inside)) by {
                    assert forall|j: int| 0 <= j < inside.len() implies inside[j] != '\n' by {
                        if 2 <= j < 2 + t.len() {
                            assert(inside[j] == t[j - 2]);
                        }
                    }
                }
                lemma_prefixed_good("- "@, inside);
            }
        } else {
            assert(ls[i] == "contributed_via: yggdrasil-instance"@);
        }
    }
}

proof fn lemma_resolved_one_line(ls: Seq<(Seq<char>, Option<Seq<char>>)>)
    ensures
        forall|k: int| 0 <= k < resolved(ls).len() ==> one_line(#[trigger] resolved(ls)[k].0),
    decreases ls.len(),
{
    if ls.len() > 0 {
        lemma_resolved_one_line(ls.drop_last());
        let (t, l) = ls.last();
        lemma_slug_of_no_break(t);
        let p = resolved(ls.drop_last());
        assert forall|k: int| 0 <= k < resolved(ls).len() implies one_line(#[trigger] resolved(ls)[k].0) by {
            if k < p.len() {
                assert(resolved(ls)[k] == p[k]);
            } else {
                assert(resolved(ls)[k] == (slug_of(t), l));
            }
        }
    }
}

/// Within lines that read back, a line break is never followed by `--`,
/// but for the last one.
proof fn lemma_no_early_rule(ls: Seq<Seq<char>>, tail: Seq<char>)
    requires
        tail.len() >= 2,
        forall|i: int| 0 <= i < ls.len() ==> good_line(#[trigger] ls[i]),
    ensures
        forall|k: int|
            0 <= k < lines_text(ls).len() - 1 && #[trigger] (lines_text(ls) + tail)[k] == '\n' ==> !(
            (lines_text(ls) + tail)[k + 1] == '-' && (lines_text(ls) + tail)[k + 2] == '-'),
    decreases ls.len(),
{
    if ls.len() > 0 {
        let l = ls[0];
        let rs = ls.drop_first();
        assert forall|i: int| 0 <= i < rs.len() implies good_line(#[trigger] rs[i]) by {
            assert(rs[i] == ls[i + 1]);
        }
        lemma_no_early_rule(rs, tail);
        let r = lines_text(rs);
        let t = lines_text(ls) + tail;
        assert(good_line(l));
        assert(t =~= l + seq!['\n'] + (r + tail));
        assert forall|k: int| 0 <= k < lines_text(ls).len() - 1 && #[trigger] t[k] == '\n' implies !(
        t[k + 1] == '-' && t[k + 2] == '-') by {
            if k < l.len() {
                assert(t[k] == l[k]);
            } else if k == l.len() {
                assert(rs.len() > 0);
                let n = rs[0];
                assert(good_line(n));
                assert(r =~= n + seq!['\n'] + lines_text(rs.drop_first()));
                assert(t[k + 1] == n[0]);
                assert(t[k + 2] == n[1]);
            } else {
                let k2 = k - l.len() - 1;
                assert(t[k] == (r + tail)[k2]);
                assert(t[k + 1] == (r + tail)[k2 + 1]);
                assert(t[k + 2] == (r + tail)[k2 + 2]);
            }
        }
    }
}

/// `pat` first occurs at `m` when it occurs there and nowhere before.
proof fn lemma_find_first(s: Seq<char>, pat: Seq<char>, from: int, m: int)
    requires
        0 <= from <= m,
        matches_at(s, pat, m),
        forall|k: int| from <= k < m ==> !matches_at(s, pat, k),
    ensures
        find_from(s, pat, from) == Some(m),
    decreases m - from,
{
    if from < m {
        lemma_find_first(s, pat, from + 1, m);
    }
}

/// The lines of text written line by line, its last line break dropped,
/// are those lines.
proof fn lemma_lines_back(p: Seq<char>, ls: Seq<Seq<char>>)
    requires
        ls.len() >= 1,
        forall|i: int| 0 <= i < ls.len() ==> good_line(#[trigger] ls[i]),
    ensures
        lines_from(p + lines_text(ls).drop_last(), p.len() as int) == ls,
    decreases ls.len(),
{
    let l = ls[0];
    let rs = ls.drop_first();
    assert(good_line(l));
    let s = p + lines_text(ls).drop_last();
    let pl = p.len() as int;
    if ls.len() == 1 {
        assert(rs =~= Seq::<Seq<char>>::empty());
        assert(lines_text(rs) == Seq::<char>::empty());
        assert(s =~= p + l);
        assert forall|j: int| pl <= j < s.len() implies s[j] != '\n' by {
            assert(s[j] == l[j - pl]);
        }
        lemma_index_of_none(s, '\n', pl);
        assert(s.subrange(pl, s.len() as int) =~= l);
        assert(ls =~= seq![l]);
    } else {
        assert forall|i: int| 0 <= i < rs.len() implies good_line(#[trigger] rs[i]) by {
            assert(rs[i] == ls[i + 1]);
        }
        assert(good_line(rs[0]));
        assert(lines_text(rs) == rs[0] + seq!['\n'] + lines_text(rs.drop_first()));
        let p2 = p + l + seq!['\n'];
        assert(s =~= p2 + lines_text(rs).drop_last());
        assert(s[pl + l.len()] == '\n');
        assert forall|j: int| pl <= j < pl + l.len() implies s[j] != '\n' by {
            assert(s[j] == l[j - pl]);
        }
        lemma_index_of_at(s, '\n', pl, pl + l.len());
        assert(s.subrange(pl, pl + l.len()) =~= l);
        assert(without_cr(l) == l);
        lemma_lines_back(p2, rs);
        assert(ls =~= seq![l] + rs);
    }
}

/// Matching a pattern that does not end with a line break is not changed
/// by a line break after the text.
proof fn lemma_find_before_break(s: Seq<char>, pat: Seq<char>, k: int)
    requires
        pat.len() >= 1,
        pat.last() != '\n',
        0 <= k,
    ensures
        find_from(s + seq!['\n'], pat, k) == find_from(s, pat, k),
    decreases s.len() + 2 - k,
{
    let t = s + seq!['\n'];
    if k <= t.len() {
        if k + pat.len() <= s.len() {
            assert(t.subrange(k, k + pat.len()) =~= s.subrange(k, k + pat.len()));
        } else if matches_at(t, pat, k) {
            assert(t.subrange(k, k + pat.len())[pat.len() - 1] == t[k + pat.len() - 1]);
        }
        lemma_find_before_break(s, pat, k + 1);
    }
}

/// A line break after a text adds no wikilink.
proof fn lemma_wikilinks_break(s: Seq<char>)
    ensures
        wikilinks(s + seq!['\n']) == wikilinks(s),
    decreases s.len(),
{
    reveal_strlit("[[");
    reveal_strlit("]]");
    let t = s + seq!['\n'];
    lemma_find_before_break(s, "[["@, 0);
    lemma_find_from_ge(s, "[["@, 0);
    match find_from(s, "[["@, 0) {
        None => {},
        Some(i) => {
            let rest = s.skip(i + 2);
            assert(t.skip(i + 2) =~= rest + seq!['\n']);
            lemma_find_before_break(rest, "]]"@, 0);
            lemma_find_from_ge(rest, "]]"@, 0);
            match find_from(rest, "]]"@, 0) {
                None => {},
                Some(j) => {
                    assert((rest + seq!['\n']).take(j) =~= rest.take(j));
                    assert((rest + seq!['\n']).skip(j + 2) =~= rest.skip(j + 2) + seq!['\n']);
                    lemma_wikilinks_break(rest.skip(j + 2));
                },
            }
        },
    }
}

/// The front matter and the body of a note file: `---\n<front matter>\n---\n`
/// then one blank line; without that frame, no front matter and the whole
/// text as body.
pub open spec fn frontmatter_split(raw: Seq<char>) -> (Seq<char>, Seq<char>) {
    match after_prefix(raw, "---\n"@) {
        None => (seq![], raw),
        Some(rest) => match find_from(rest, "\n---\n"@, 0) {
            None => (seq![], raw),
            Some(pos) => {
                let after = rest.skip(pos + 5);
                (
                    rest.take(pos),
                    if after.len() > 0 && after[0] == '\n' {
                        after.skip(1)
                    } else {
                        after
                    },
                )
            },
        },
    }
}

/// Splits a note file into front matter and body (see [`frontmatter_split`]).
pub fn split_frontmatter(raw: &str) -> (r: (String, String))
    ensures
        (r.0@, r.1@) == frontmatter_split(raw@),
{
    proof {
        reveal_strlit("\n---\n");
        assert("\n---\n"@.len() == 5);
    }
    let cs = str_chars(raw);
    match strip_prefix_chars(cs.as_slice(), "---\n") {
        None => (String::new(), raw.to_string()),
        Some(rest) => {
            let pat = str_chars("\n---\n");
            assert(pat@.len() == 5);
            match find_from_exec(rest.as_slice(), pat.as_slice(), 0) {
                None => (String::new(), raw.to_string()),
                Some(pos) => {
                    let fm = slice_chars(rest.as_slice(), 0, pos);
                    let rl = rest.len();
                    assert(pos + 5 <= rl);
                    let start = pos + 5;
                    let after = slice_chars(rest.as_slice(), start, rest.len());
                    let body = if after.len() > 0 && after[0] == '\n' {
                        slice_chars(after.as_slice(), 1, after.len())
                    } else {
                        after
                    };
                    proof {
                        assert(fm@ =~= rest@.take(pos as int));
                        assert(after@ =~= rest@.skip(pos + 5));
                        if after@.len() > 0 && after@[0] == '\n' {
                            assert(body@ =~= after@.skip(1));
                        }
                    }
                    (string_of(fm.as_slice()), string_of(body.as_slice()))
                },
            }
        },
    }
}

proof fn lemma_not_prefixed(l: Seq<char>, p: Seq<char>, k: int)
    requires
        0 <= k < p.len(),
        k < l.len(),
        l[k] != p[k],
    ensures
        after_prefix(l, p) is None,
{
    if matches_at(l, p, 0) {
        assert(l.subrange(0, p.len() as int)[k] == l[k]);
    }
}

proof fn lemma_prefixed_value(p: Seq<char>, v: Seq<char>)
    ensures
        after_prefix(p + yaml_quote(v), p) == Some(yaml_quote(v)),
{
    let l = p + yaml_quote(v);
    assert(l.subrange(0, p.len() as int) =~= p);
    assert(l.skip(p.len() as int) =~= yaml_quote(v));
}

/// A written note file splits into its front-matter lines, less their last
/// line break, and the body with a final line break.
proof fn lemma_split_written(
    slug: Seq<char>,
    title: Seq<char>,
    body: Seq<char>,
    created: Seq<char>,
    updated: Seq<char>,
)
    requires
        one_line(slug),
        one_line(title),
        one_line(created),
        one_line(updated),
    ensures
        frontmatter_split(note_markdown(slug, title, body, created, updated, resolved(wikilinks(body))))
            == (
            lines_text(fm_lines(slug, title, created, updated, resolved(wikilinks(body)))).drop_last(),
            body + final_break(body),
        ),
{
    let links = resolved(wikilinks(body));
    let ls = fm_lines(slug, title, created, updated, links);
    lemma_note_shape(slug, title, body, created, updated, links);
    lemma_fm_lines_good(slug, title, created, updated, body);
    reveal_strlit("---\n");
    reveal_strlit("---\n\n");
    reveal_strlit("\n---\n");
    let x = lines_text(ls);
    let tail = "---\n\n"@ + body + final_break(body);
    let raw = note_markdown(slug, title, body, created, updated, links);
    assert(raw =~= "---\n"@ + (x + tail));
    let rest = x + tail;
    assert(raw.subrange(0, 4) =~= "---\n"@);
    assert(raw.skip(4) =~= rest);
    assert(after_prefix(raw, "---\n"@) == Some(rest));
    assert(ls =~= ls.drop_last().push(ls.last()));
    lemma_lines_text_push(ls.drop_last(), ls.last());
    assert(good_line(ls.last()));
    let m = x.len() - 1;
    assert(x[m] == '\n');
    let pat = "\n---\n"@;
    assert(rest.subrange(m, m + 5) =~= pat);
    lemma_no_early_rule(ls, tail);
    assert forall|k: int| 0 <= k < m implies !matches_at(rest, pat, k) by {
        if matches_at(rest, pat, k) {
            let w = rest.subrange(k, k + 5);
            assert(w[0] == rest[k] && w[1] == rest[k + 1] && w[2] == rest[k + 2]);
            assert(rest[k] == '\n');
        }
    }
    lemma_find_first(rest, pat, 0, m);
    let after = rest.skip(m + 5);
    assert(after =~= seq!['\n'] + body + final_break(body));
    assert(after.skip(1) =~= body + final_break(body));
    assert(rest.take(m) =~= x.drop_last());
}

/// The title and the times read back from the front-matter lines.
proof fn lemma_values_written(
    slug: Seq<char>,
    title: Seq<char>,
    created: Seq<char>,
    updated: Seq<char>,
    links: Seq<(Seq<char>, Option<Seq<char>>)>,
)
    requires
        one_line(slug),
        one_line(title),
        one_line(created),
        one_line(updated),
    ensures
        fm_value(fm_lines(slug, title, created, updated, links), "title: "@, 0) == Some(title),
        fm_value(fm_lines(slug, title, created, updated, links), "created: "@, 0) == Some(created),
        fm_value(fm_lines(slug, title, created, updated, links), "updated: "@, 0) == Some(updated),
{
    let ls = fm_lines(slug, title, created, updated, links);
    reveal_strlit("type: nota");
    reveal_strlit("slug: ");
    reveal_strlit("title: ");
    reveal_strlit("created: ");
    reveal_strlit("updated: ");
    let h = fm_head(slug, title, created, updated);
    assert(ls[0] == h[0] && ls[1] == h[1] && ls[2] == h[2] && ls[3] == h[3] && ls[4] == h[4]);
    lemma_quote_one_line(slug);
    lemma_quote_one_line(title);
    lemma_quote_one_line(created);
    lemma_quote_one_line(updated);
    assert(ls[1][0] == 's');
    assert(ls[2][0] == 't' && ls[2][1] == 'i');
    assert(ls[3][0] == 'c');
    lemma_not_prefixed(ls[0], "title: "@, 1);
    lemma_not_prefixed(ls[1], "title: "@, 0);
    lemma_not_prefixed(ls[0], "created: "@, 0);
    lemma_not_prefixed(ls[1], "created: "@, 0);
    lemma_not_prefixed(ls[2], "created: "@, 0);
    lemma_not_prefixed(ls[0], "updated: "@, 0);
    lemma_not_prefixed(ls[1], "updated: "@, 0);
    lemma_not_prefixed(ls[2], "updated: "@, 0);
    lemma_not_prefixed(ls[3], "updated: "@, 0);
    lemma_prefixed_value("title: "@, title);
    lemma_prefixed_value("created: "@, created);
    lemma_prefixed_value("updated: "@, updated);
    lemma_unquote_quote(title);
    lemma_unquote_quote(created);
    lemma_unquote_quote(updated);
    reveal_with_fuel(fm_value, 6);
}

/// Reading back a note file that [`note_markdown`] wrote gives the title
/// and the times it was written with, the body with a final line break, and
/// the body's links; for a slug, a title and times on one line each.
pub proof fn lemma_note_round_trip(
    slug: Seq<char>,
    title: Seq<char>,
    body: Seq<char>,
    created: Seq<char>,
    updated: Seq<char>,
)
    requires
        one_line(slug),
        one_line(title),
        one_line(created),
        one_line(updated),
    ensures
        ({
            let raw = note_markdown(slug, title, body, created, updated, resolved(wikilinks(body)));
            let fm = frontmatter_split(raw).0;
            let b = frontmatter_split(raw).1;
            &&& fm_value(lines_of(fm), "title: "@, 0) == Some(title)
            &&& fm_value(lines_of(fm), "created: "@, 0) == Some(created)
            &&& fm_value(lines_of(fm), "updated: "@, 0) == Some(updated)
            &&& b == body + final_break(body)
            &&& resolved(wikilinks(b)) == resolved(wikilinks(body))
        }),
{
    let links = resolved(wikilinks(body));
    let ls = fm_lines(slug, title, created, updated, links);
    lemma_split_written(slug, title, body, created, updated);
    lemma_fm_lines_good(slug, title, created, updated, body);
    let fm = lines_text(ls).drop_last();
    assert(Seq::<char>::empty() + fm =~= fm);
    lemma_lines_back(Seq::<char>::empty(), ls);
    assert(lines_of(fm) == ls);
    lemma_values_written(slug, title, created, updated, links);
    if final_break(body).len() > 0 {
        lemma_wikilinks_break(body);
    } else {
        assert(body + final_break(body) =~= body);
    }
}

/// A front-matter value unquoted: trimmed, and when in single quotes, the
/// inside with `''` read as `'`.
pub open spec fn fm_unquote(s: Seq<char>) -> Seq<char> {
    let t = trim(s);
    if quoted_by(t, '\'') {
        undouble(inner(t))
    } else {
        t
    }
}

/// The value on the first of `lines` from position `i` that starts with
/// `prefix`, trimmed and unquoted.
pub open spec fn fm_value(lines: Seq<Seq<char>>, prefix: Seq<char>, i: int) -> Option<Seq<char>>
    decreases lines.len() - i,
{
    if i < 0 || i >= lines.len() {
        None
    } else {
        match after_prefix(lines[i], prefix) {
            Some(v) => Some(fm_unquote(trim(v))),
            None => fm_value(lines, prefix, i + 1),
        }
    }
}

/// The value of `prefix` (`key: `) in the front matter `fm`.
pub fn fm_get(fm: &str, prefix: &str) -> (r: Option<String>)
    ensures
        match r {
            Some(x) => fm_value(lines_of(fm@), prefix@, 0) == Some(x@),
            None => fm_value(lines_of(fm@), prefix@, 0) is None,
        },
{
    let cs = str_chars(fm);
    let ls = lines_chars(cs.as_slice());
    let ghost lv = lines_of(fm@);
    let mut i: usize = 0;
    while i < ls.len()
        invariant
            cs@ == fm@,
            lv == lines_of(fm@),
            ls@.len() == lv.len(),
            forall|k: int| 0 <= k < ls@.len() ==> (#[trigger] ls@[k])@ == lv[k],
            i <= ls@.len(),
            fm_value(lv, prefix@, 0) == fm_value(lv, prefix@, i as int),
        decreases ls@.len() - i,
    {
        assert(ls@[i as int]@ == lv[i as int]);
        match strip_prefix_chars(ls[i].as_slice(), prefix) {
            Some(v) => {
                let t = trim_chars(v.as_slice());
                let t2 = trim_chars(t.as_slice());
                let n = t2.len();
                let out = if n >= 2 && t2[0] == '\'' && t2[n - 1] == '\'' {
                    let inn = slice_chars(t2.as_slice(), 1, n - 1);
                    assert(inn@ =~= inner(t2@));
                    undouble_chars(inn.as_slice())
                } else {
                    t2
                };
                return Some(string_of(out.as_slice()));
            },
            None => {},
        }
        i = i + 1;
    }
    None
}

/// Reads a note file: title and times from the front matter (the slug, and
/// `now`, when missing or unreadable; the last change defaults to the
/// creation), the body verbatim, and its links.
pub fn parse_note(slug: &str, raw: &str, now: i64) -> (r: Note)
    ensures
        r.slug@ == slug@,
        (r.body@, r.links@.map_values(|l: NoteLink| note_link_view(l))) == ({
            let b = frontmatter_split(raw@).1;
            (b, resolved(wikilinks(b)))
        }),
        r.title@ == match fm_value(lines_of(frontmatter_split(raw@).0), "title: "@, 0) {
            Some(t) => t,
            None => slug@,
        },
        r.created == match fm_value(lines_of(frontmatter_split(raw@).0), "created: "@, 0) {
            Some(t) => match rfc3339_millis(t) {
                Some(ms) => ms,
                None => now,
            },
            None => now,
        },
        r.updated == match fm_value(lines_of(frontmatter_split(raw@).0), "updated: "@, 0) {
            Some(t) => match rfc3339_millis(t) {
                Some(ms) => ms,
                None => r.created,
            },
            None => r.created,
        },
{
    let (fm, body) = split_frontmatter(raw);
    let title = match fm_get(fm.as_str(), "title: ") {
        Some(t) => t,
        None => slug.to_string(),
    };
    let created = match fm_get(fm.as_str(), "created: ") {
        Some(t) => match parse_rfc3339(t.as_str()) {
            Some(ms) => ms,
            None => now,
        },
        None => now,
    };
    let updated = match fm_get(fm.as_str(), "updated: ") {
        Some(t) => match parse_rfc3339(t.as_str()) {
            Some(ms) => ms,
            None => created,
        },
        None => created,
    };
    let links = links_from_body(body.as_str());
    Note { slug: slug.to_string(), title, body, created, updated, links }
}

/// An optional string as values.
pub open spec fn opt_view(o: Option<String>) -> Option<Seq<char>> {
    match o {
        Some(x) => Some(x@),
        None => None,
    }
}

/// Every link of every note as (target, source slug, label), notes in
/// order and each note's links in body order.
pub open spec fn link_triples(notes: Seq<Note>) -> Seq<(Seq<char>, Seq<char>, Option<Seq<char>>)>
    decreases notes.len(),
{
    if notes.len() == 0 {
        seq![]
    } else {
        let n = notes.last();
        link_triples(notes.drop_last()) + n.links@.map_values(
            |l: NoteLink| (l.target@, n.slug@, opt_view(l.label)),
        )
    }
}

/// Who links to `target`: the (source, label) of each link to it, in order.
pub open spec fn incoming(notes: Seq<Note>, target: Seq<char>) -> Seq<(Seq<char>, Option<Seq<char>>)> {
    link_triples(notes).filter(|t: (Seq<char>, Seq<char>, Option<Seq<char>>)| t.0 == target).map_values(
        |t: (Seq<char>, Seq<char>, Option<Seq<char>>)| (t.1, t.2),
    )
}

/// A backlink as values.
pub open spec fn backlink_view(b: Backlink) -> (Seq<char>, Option<Seq<char>>) {
    (b.source@, opt_view(b.label))
}

fn copy_opt(o: &Option<String>) -> (r: Option<String>)
    ensures
        opt_view(r) == opt_view(*o),
{
    match o {
        Some(x) => Some(x.clone()),
        None => None,
    }
}

/// Backlinks: for each link target, who links to it. Each target occurs
/// once, in the order in which it is first linked.
pub fn backlinks(notes: &[Note]) -> (r: Vec<(String, Vec<Backlink>)>)
    ensures
        unique_keys(r@),
        forall|t: Seq<char>|
            has_key(r@, t) <==> exists|k: int|
                0 <= k < link_triples(notes@).len() && (#[trigger] link_triples(notes@)[k]).0 == t,
        forall|i: int|
            0 <= i < r@.len() ==> (#[trigger] r@[i]).1@.map_values(|b: Backlink| backlink_view(b))
                == incoming(notes@, r@[i].0@),
{
    let ghost ns = notes@;
    let mut triples: Vec<(String, String, Option<String>)> = Vec::new();
    let mut i: usize = 0;
    proof {
        assert(ns.take(0) =~= Seq::<Note>::empty());
    }
    while i < notes.len()
        invariant
            ns == notes@,
            i <= ns.len(),
            triples@.map_values(
                |t: (String, String, Option<String>)| (t.0@, t.1@, opt_view(t.2)),
            ) == link_triples(ns.take(i as int)),
        decreases ns.len() - i,
    {
        let n = &notes[i];
        let ghost before = triples@.map_values(
            |t: (String, String, Option<String>)| (t.0@, t.1@, opt_view(t.2)),
        );
        let ghost lv = n.links@.map_values(|l: NoteLink| (l.target@, n.slug@, opt_view(l.label)));
        let mut j: usize = 0;
        proof {
            assert(lv.take(0) =~= Seq::<(Seq<char>, Seq<char>, Option<Seq<char>>)>::empty());
        }
        while j < n.links.len()
            invariant
                j <= n.links@.len(),
                lv == n.links@.map_values(|l: NoteLink| (l.target@, n.slug@, opt_view(l.label))),
                triples@.map_values(
                    |t: (String, String, Option<String>)| (t.0@, t.1@, opt_view(t.2)),
                ) == before + lv.take(j as int),
            decreases n.links@.len() - j,
        {
            let l = &n.links[j];
            let ghost old_t = triples@;
            let tg = l.target.clone();
            let sl = n.slug.clone();
            let lb = copy_opt(&l.label);
            assert(lv[j as int] == (tg@, sl@, opt_view(lb)));
            triples.push((tg, sl, lb));
            proof {
                assert(triples@.map_values(
                    |t: (String, String, Option<String>)| (t.0@, t.1@, opt_view(t.2)),
                ) =~= old_t.map_values(
                    |t: (String, String, Option<String>)| (t.0@, t.1@, opt_view(t.2)),
                ).push(lv[j as int]));
                assert(lv.take(j + 1) =~= lv.take(j as int).push(lv[j as int]));
                assert(triples@.map_values(
                    |t: (String, String, Option<String>)| (t.0@, t.1@, opt_view(t.2)),
                ) =~= before + lv.take(j + 1));
            }
            j = j + 1;
        }
        proof {
            assert(lv.take(n.links@.len() as int) =~= lv);
            assert(ns.take(i + 1).drop_last() =~= ns.take(i as int));
            assert(ns.take(i + 1).last() == *n);
        }
        i = i + 1;
    }
    proof {
        assert(ns.take(ns.len() as int) =~= ns);
    }
    let ghost tv = link_triples(ns);
    let mut r: Vec<(String, Vec<Backlink>)> = Vec::new();
    let mut a: usize = 0;
    while a < triples.len()
        invariant
            ns == notes@,
            tv == link_triples(ns),
            a <= triples@.len(),
            triples@.map_values(
                |t: (String, String, Option<String>)| (t.0@, t.1@, opt_view(t.2)),
            ) == tv,
            unique_keys(r@),
            forall|t: Seq<char>|
                has_key(r@, t) <==> exists|k: int| 0 <= k < a && (#[trigger] tv[k]).0 == t,
            forall|q: int|
                0 <= q < r@.len() ==> (#[trigger] r@[q]).1@.map_values(|b: Backlink| backlink_view(b))
                    == incoming(ns, r@[q].0@),
        decreases triples@.len() - a,
    {
        assert(tv[a as int] == (triples@[a as int].0@, triples@[a as int].1@, opt_view(triples@[a as int].2)));
        let key = triples[a].0.clone();
        if find_key(&r, key.as_str()).is_none() {
            let mut group: Vec<Backlink> = Vec::new();
            let mut b: usize = 0;
            proof {
                reveal(Seq::filter);
                assert(tv.take(0).filter(|t: (Seq<char>, Seq<char>, Option<Seq<char>>)| t.0 == key@)
                    =~= Seq::<(Seq<char>, Seq<char>, Option<Seq<char>>)>::empty());
            }
            while b < triples.len()
                invariant
                    b <= triples@.len(),
                    triples@.map_values(
                        |t: (String, String, Option<String>)| (t.0@, t.1@, opt_view(t.2)),
                    ) == tv,
                    group@.map_values(|x: Backlink| backlink_view(x)) == tv.take(b as int).filter(
                        |t: (Seq<char>, Seq<char>, Option<Seq<char>>)| t.0 == key@,
                    ).map_values(|t: (Seq<char>, Seq<char>, Option<Seq<char>>)| (t.1, t.2)),
                decreases triples@.len() - b,
            {
                let ghost before = group@.map_values(|x: Backlink| backlink_view(x));
                assert(tv[b as int] == (triples@[b as int].0@, triples@[b as int].1@, opt_view(
                    triples@[b as int].2,
                )));
                proof {
                    reveal(Seq::filter);
                    assert(tv.take(b + 1).drop_last() =~= tv.take(b as int));
                    assert(tv.take(b + 1).last() == tv[b as int]);
                }
                if crate::text::str_eq(triples[b].0.as_str(), key.as_str()) {
                    group.push(
                        Backlink { source: triples[b].1.clone(), label: copy_opt(&triples[b].2) },
                    );
                    proof {
                        assert(group@.map_values(|x: Backlink| backlink_view(x)) =~= before.push(
                            (tv[b as int].1, tv[b as int].2),
                        ));
                    }
                }
                b = b + 1;
            }
            proof {
                assert(tv.take(tv.len() as int) =~= tv);
            }
            let ghost old_r = r@;
            let ghost kv = key@;
            r.push((key, group));
            proof {
                crate::keyed::lemma_keyed_push(old_r, r@[old_r.len() as int]);
                assert(r@ =~= old_r.push(r@[old_r.len() as int]));
                assert forall|t: Seq<char>| has_key(r@, t) <==> exists|k: int|
                    0 <= k < a + 1 && (#[trigger] tv[k]).0 == t by {
                    if has_key(r@, t) {
                        let q = choose|q: int| 0 <= q < r@.len() && #[trigger] r@[q].0@ == t;
                        if q < old_r.len() {
                            assert(old_r[q] == r@[q]);
                            assert(has_key(old_r, t));
                        } else {
                            assert(tv[a as int].0 == t);
                        }
                    }
                    if exists|k: int| 0 <= k < a + 1 && (#[trigger] tv[k]).0 == t {
                        let k = choose|k: int| 0 <= k < a + 1 && (#[trigger] tv[k]).0 == t;
                        if k < a {
                            assert(has_key(old_r, t));
                            let q = choose|q: int| 0 <= q < old_r.len() && #[trigger] old_r[q].0@ == t;
                            assert(r@[q] == old_r[q]);
                        } else {
                            assert(r@[old_r.len() as int].0@ == t);
                        }
                    }
                }
                assert forall|q: int| 0 <= q < r@.len() implies (#[trigger] r@[q]).1@.map_values(
                    |b: Backlink| backlink_view(b),
                ) == incoming(ns, r@[q].0@) by {
                    if q < old_r.len() {
                        assert(r@[q] == old_r[q]);
                    }
                }
            }
        } else {
            proof {
                let q = choose|q: int| 0 <= q < r@.len() && #[trigger] r@[q].0@ == key@;
                assert forall|t: Seq<char>| has_key(r@, t) <==> exists|k: int|
                    0 <= k < a + 1 && (#[trigger] tv[k]).0 == t by {
                    if exists|k: int| 0 <= k < a + 1 && (#[trigger] tv[k]).0 == t {
                        let k = choose|k: int| 0 <= k < a + 1 && (#[trigger] tv[k]).0 == t;
                        if k == a {
                            assert(r@[q].0@ == t);
                        }
                    }
                }
            }
        }
        a = a + 1;
    }
    r
}

/// Some note has the slug `t`.
pub open spec fn has_note(notes: Seq<Note>, t: Seq<char>) -> bool {
    exists|i: int| 0 <= i < notes.len() && #[trigger] notes[i].slug@ == t
}

/// The targets of `n`'s links that are notes of `notes`, in body order.
pub open spec fn kept_targets(notes: Seq<Note>, n: Note) -> Seq<Seq<char>> {
    n.links@.map_values(|l: NoteLink| l.target@).filter(|t: Seq<char>| has_note(notes, t))
}

/// The link graph of the first notes of `notes`: each slug to the targets
/// of its note that exist among `all`; a later note with the same slug
/// replaces an earlier one.
pub open spec fn graph_of(notes: Seq<Note>, all: Seq<Note>) -> Map<Seq<char>, Seq<Seq<char>>>
    decreases notes.len(),
{
    if notes.len() == 0 {
        Map::empty()
    } else {
        graph_of(notes.drop_last(), all).insert(notes.last().slug@, kept_targets(all, notes.last()))
    }
}

/// A list of strings as values.
pub open spec fn strings_of(v: Seq<String>) -> Seq<Seq<char>> {
    v.map_values(|x: String| x@)
}

/// The adjacency of the notes: each note's slug to the targets of its links
/// that are notes too (dangling links make no edge).
pub fn graph(notes: &[Note]) -> (r: Vec<(String, Vec<String>)>)
    ensures
        unique_keys(r@),
        crate::keyed::keyed_map(r@).map_values(|v: Seq<String>| strings_of(v)) == graph_of(
            notes@,
            notes@,
        ),
{
    let ghost ns = notes@;
    let mut r: Vec<(String, Vec<String>)> = Vec::new();
    let mut i: usize = 0;
    proof {
        assert(ns.take(0) =~= Seq::<Note>::empty());
        assert(crate::keyed::keyed_map(r@).map_values(|v: Seq<String>| strings_of(v)) =~= Map::<
            Seq<char>,
            Seq<Seq<char>>,
        >::empty());
    }
    while i < notes.len()
        invariant
            ns == notes@,
            i <= ns.len(),
            unique_keys(r@),
            crate::keyed::keyed_map(r@).map_values(|v: Seq<String>| strings_of(v)) == graph_of(
                ns.take(i as int),
                ns,
            ),
        decreases ns.len() - i,
    {
        let n = &notes[i];
        let ghost tv = n.links@.map_values(|l: NoteLink| l.target@);
        let mut kept: Vec<String> = Vec::new();
        let mut j: usize = 0;
        proof {
            reveal(Seq::filter);
            assert(tv.take(0).filter(|t: Seq<char>| has_note(ns, t)) =~= Seq::<Seq<char>>::empty());
        }
        while j < n.links.len()
            invariant
                ns == notes@,
                j <= n.links@.len(),
                tv == n.links@.map_values(|l: NoteLink| l.target@),
                strings_of(kept@) == tv.take(j as int).filter(|t: Seq<char>| has_note(ns, t)),
            decreases n.links@.len() - j,
        {
            let target = &n.links[j].target;
            let mut found = false;
            let mut k: usize = 0;
            while k < notes.len()
                invariant
                    ns == notes@,
                    k <= ns.len(),
                    found == exists|m: int| 0 <= m < k && #[trigger] ns[m].slug@ == target@,
                decreases ns.len() - k,
            {
                if crate::text::str_eq(notes[k].slug.as_str(), target.as_str()) {
                    found = true;
                }
                k = k + 1;
            }
            let ghost before = strings_of(kept@);
            proof {
                reveal(Seq::filter);
                assert(tv.take(j + 1).drop_last() =~= tv.take(j as int));
                assert(tv.take(j + 1).last() == target@);
            }
            if found {
                kept.push(target.clone());
                proof {
                    assert(strings_of(kept@) =~= before.push(target@));
                }
            }
            j = j + 1;
        }
        proof {
            assert(tv.take(n.links@.len() as int) =~= tv);
            assert(ns.take(i + 1).drop_last() =~= ns.take(i as int));
            assert(ns.take(i + 1).last() == *n);
        }
        let ghost old_r = r@;
        let ghost kv = kept@;
        let ghost sv = n.slug@;
        crate::keyed::put(&mut r, n.slug.clone(), kept);
        proof {
            let m0 = crate::keyed::keyed_map(old_r);
            assert(crate::keyed::keyed_map(r@).map_values(|v: Seq<String>| strings_of(v)) =~= m0.map_values(
                |v: Seq<String>| strings_of(v),
            ).insert(sv, strings_of(kv)));
        }
        i = i + 1;
    }
    proof {
        assert(ns.take(ns.len() as int) =~= ns);
    }
    r
}

} // verus!

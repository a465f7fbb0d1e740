//! Public rooms: two read-only rooms built from the whole lexicon,
//! `public-yoruba` and `public-mbya`. Anyone may view them; to suggest
//! changes a user forks a copy of their own.
//!
//! The terms arrive ranked by popularity; a term's place on the map depends
//! on its rank only (a phyllotaxis spiral), and is handed in here as the
//! binary64 bits of its coordinates, rank by rank.
use vstd::prelude::*;
use vstd::string::StringExecFns;

use crate::comunicacao::room::{elems_view, fresh_elem, ElemV, Element, Room, RoomV};
use crate::text::{is_ascii_alnum, str_chars, str_eq};

verus! {

pub const PUBLIC_YORUBA: &'static str = "public-yoruba";
pub const PUBLIC_MBYA: &'static str = "public-mbya";
/// The synthetic owner of the public rooms: never a real user's subject, so
/// the rooms are read-only for everyone.
pub const SYSTEM_OWNER: &'static str = "__system__";
/// How many terms a public room shows at first (the most popular ones).
pub const DEFAULT_TOP_N: usize = 100;

/// A term of the lexicon as stored.
#[derive(Debug, Clone)]
pub struct LexEntry {
    pub word: String,
    /// Empty for the room's language.
    pub lang: String,
    pub gloss: Option<String>,
    pub pron: Option<String>,
    /// Popularity (number of corpus examples); the stored list is sorted by it.
    pub pop: i64,
    /// Morphological decomposition.
    pub decomp: Option<String>,
}

/// Whether the id is one of the public rooms.
pub fn is_public_id(id: &str) -> (r: bool)
    ensures
        r == (id@ == PUBLIC_YORUBA@ || id@ == PUBLIC_MBYA@),
{
    str_eq(id, PUBLIC_YORUBA) || str_eq(id, PUBLIC_MBYA)
}

/// The stored lexicon file of a language.
pub fn lang_file(lang: &str) -> (r: Option<&'static str>)
    ensures
        match r {
            Some(f) => (f@ == "guarani-mbya/lexicon.mbya.json"@ && (lang@ == "gn-mbya"@ || lang@
                == "gn"@)) || (f@ == "yoruba/lexicon.yo.json"@ && lang@ == "yo"@ && lang@
                != "gn-mbya"@ && lang@ != "gn"@),
            None => lang@ != "gn-mbya"@ && lang@ != "gn"@ && lang@ != "yo"@,
        },
{
    if str_eq(lang, "gn-mbya") || str_eq(lang, "gn") {
        Some("guarani-mbya/lexicon.mbya.json")
    } else if str_eq(lang, "yo") {
        Some("yoruba/lexicon.yo.json")
    } else {
        None
    }
}

/// A corpus name that may be used as a file name: not empty, and only ASCII
/// letters, digits, `-` and `_` (so no path can be formed with it).
pub open spec fn corpus_slug_ok(slug: Seq<char>) -> bool {
    slug.len() > 0 && forall|i: int|
        0 <= i < slug.len() ==> is_ascii_alnum(#[trigger] slug[i]) || slug[i] == '-' || slug[i]
            == '_'
}

/// Whether the corpus name is acceptable (see [`corpus_slug_ok`]).
pub fn is_corpus_slug(slug: &str) -> (r: bool)
    ensures
        r == corpus_slug_ok(slug@),
{
    let cs = str_chars(slug);
    let n = cs.len();
    if n == 0 {
        return false;
    }
    let mut i: usize = 0;
    while i < n
        invariant
            cs@ == slug@,
            n == cs@.len(),
            i <= n,
            forall|k: int|
                0 <= k < i ==> is_ascii_alnum(#[trigger] slug@[k]) || slug@[k] == '-' || slug@[k]
                    == '_',
        decreases n - i,
    {
        let c = cs[i];
        let ok = ('a' <= c && c <= 'z') || ('A' <= c && c <= 'Z') || ('0' <= c && c <= '9') || c
            == '-' || c == '_';
        if !ok {
            return false;
        }
        i = i + 1;
    }
    true
}

pub open spec fn digit(d: nat) -> char {
    ((d % 10) + 48) as char
}

/// The decimal digits of `n`.
pub open spec fn decimal(n: nat) -> Seq<char>
    decreases n,
{
    if n < 10 {
        seq![digit(n)]
    } else {
        decimal(n / 10) + seq![digit(n % 10)]
    }
}

/// The decimal form of `n`.
pub fn decimal_string(n: usize) -> (r: String)
    ensures
        r@ == decimal(n as nat),
    decreases n,
{
    let d = n % 10;
    let c: char = if d == 0 {
        '0'
    } else if d == 1 {
        '1'
    } else if d == 2 {
        '2'
    } else if d == 3 {
        '3'
    } else if d == 4 {
        '4'
    } else if d == 5 {
        '5'
    } else if d == 6 {
        '6'
    } else if d == 7 {
        '7'
    } else if d == 8 {
        '8'
    } else {
        '9'
    };
    assert(c == digit(n as nat));
    let mut s = if n < 10 {
        String::new()
    } else {
        decimal_string(n / 10)
    };
    crate::text::push_char(&mut s, c);
    assert(s@ =~= decimal(n as nat));
    s
}

/// The term at rank `i` as an element of a room in language `lang`.
pub open spec fn ranked_elem(e: LexEntry, i: nat, lang: Seq<char>, pos: (u64, u64)) -> ElemV {
    ElemV {
        x: pos.0,
        y: pos.1,
        gloss: match e.gloss {
            Some(g) => Some(g@),
            None => None,
        },
        pronunciation: match e.pron {
            Some(p) => Some(p@),
            None => None,
        },
        ..fresh_elem(
            seq!['e'] + decimal(i),
            e.word@,
            if e.lang@.len() == 0 {
                lang
            } else {
                e.lang@
            },
        )
    }
}

/// A public room: the first `DEFAULT_TOP_N` terms in rank order, each at
/// its rank's place; owned by the system, published.
pub fn build_room(
    id: &str,
    title: &str,
    lang: &str,
    entries: Vec<LexEntry>,
    positions: &[(u64, u64)],
    now: i64,
) -> (r: Room)
    requires
        positions@.len() >= if entries@.len() < DEFAULT_TOP_N {
            entries@.len() as int
        } else {
            DEFAULT_TOP_N as int
        },
    ensures
        r@.id == id@ && r@.title == title@ && r@.lang == lang@,
        r@.owner == SYSTEM_OWNER@,
        r@.template == "publico"@,
        r@.published,
        r@.links.len() == 0,
        r@.created_at == now && r@.updated_at == now,
        r@.elements.len() == if entries@.len() < DEFAULT_TOP_N {
            entries@.len() as int
        } else {
            DEFAULT_TOP_N as int
        },
        forall|i: int|
            0 <= i < r@.elements.len() ==> #[trigger] r@.elements[i] == ranked_elem(
                entries@[i],
                i as nat,
                lang@,
                positions@[i],
            ),
{
    let n = if entries.len() < DEFAULT_TOP_N {
        entries.len()
    } else {
        DEFAULT_TOP_N
    };
    let ghost es = entries@;
    let mut elements: Vec<Element> = Vec::new();
    let mut rest = entries;
    let mut i: usize = 0;
    while i < n
        invariant
            n <= es.len(),
            n <= DEFAULT_TOP_N,
            positions@.len() >= n,
            i <= n,
            rest@ == es.skip(i as int),
            elements@.len() == i,
            forall|k: int|
                0 <= k < i ==> #[trigger] elems_view(elements@)[k] == ranked_elem(
                    es[k],
                    k as nat,
                    lang@,
                    positions@[k],
                ),
        decreases n - i,
    {
        let e = rest.remove(0);
        assert(e == es[i as int]);
        let mut eid = String::from_str("e");
        let num = decimal_string(i);
        eid.append(num.as_str());
        let code = if e.lang.as_str().is_empty() {
            String::from_str(lang)
        } else {
            e.lang
        };
        let (x, y) = positions[i];
        let mut el = Element::new(eid.as_str(), e.word.as_str(), code.as_str()).at(x, y);
        el.gloss = e.gloss;
        el.pronunciation = e.pron;
        proof {
            reveal_strlit("e");
            assert("e"@ =~= seq!['e']);
            assert(eid@ =~= seq!['e'] + decimal(i as nat));
        }
        let ghost before = elements@;
        let ghost ev = el@;
        assert(code@ == (if es[i as int].lang@.len() == 0 { lang@ } else { es[i as int].lang@ }));
        assert(ev.id == seq!['e'] + decimal(i as nat));
        assert(ev.x == positions@[i as int].0);
        assert(ev == ranked_elem(es[i as int], i as nat, lang@, positions@[i as int]));
        elements.push(el);
        proof {
            assert forall|k: int| 0 <= k < elements@.len() implies #[trigger] elems_view(
                elements@,
            )[k] == ranked_elem(es[k], k as nat, lang@, positions@[k]) by {
                if k < i {
                    assert(elements@[k] == before[k]);
                    assert(elems_view(elements@)[k] == elems_view(before)[k]);
                } else {
                    assert(elems_view(elements@)[k] == elements@[k]@);
                    assert(elements@[k]@ == ev);
                }
            }
            assert(rest@ =~= es.skip(i + 1));
        }
        i = i + 1;
    }
    let mut room = Room::empty(id, SYSTEM_OWNER, title, lang, now);
    room.template = String::from_str("publico");
    room.published = true;
    room.elements = elements;
    room
}

/// The two public rooms, built from their ranked lexicons.
pub fn public_rooms(
    yoruba: Vec<LexEntry>,
    mbya: Vec<LexEntry>,
    positions: &[(u64, u64)],
    now: i64,
) -> (r: Vec<Room>)
    requires
        positions@.len() >= DEFAULT_TOP_N,
    ensures
        r@.len() == 2,
        r@[0]@.id == PUBLIC_YORUBA@ && r@[0]@.lang == "yo"@,
        r@[0]@.title == "Léxico Iorubá (público)"@,
        r@[1]@.id == PUBLIC_MBYA@ && r@[1]@.lang == "gn-mbya"@,
        r@[1]@.title == "Léxico Mbyá Guaraní (público)"@,
        r@[0]@.elements.len() == if yoruba@.len() < DEFAULT_TOP_N {
            yoruba@.len() as int
        } else {
            DEFAULT_TOP_N as int
        },
        r@[1]@.elements.len() == if mbya@.len() < DEFAULT_TOP_N {
            mbya@.len() as int
        } else {
            DEFAULT_TOP_N as int
        },
        forall|i: int|
            0 <= i < r@[0]@.elements.len() ==> #[trigger] r@[0]@.elements[i] == ranked_elem(
                yoruba@[i],
                i as nat,
                "yo"@,
                positions@[i],
            ),
        forall|i: int|
            0 <= i < r@[1]@.elements.len() ==> #[trigger] r@[1]@.elements[i] == ranked_elem(
                mbya@[i],
                i as nat,
                "gn-mbya"@,
                positions@[i],
            ),
        forall|k: int|
            0 <= k < 2 ==> (#[trigger] r@[k])@.owner == SYSTEM_OWNER@ && r@[k]@.published
                && r@[k]@.links.len() == 0 && r@[k]@.created_at == now,
{
    let ghost ye = yoruba@;
    let ghost me = mbya@;
    let a = build_room(PUBLIC_YORUBA, "Léxico Iorubá (público)", "yo", yoruba, positions, now);
    let b = build_room(PUBLIC_MBYA, "Léxico Mbyá Guaraní (público)", "gn-mbya", mbya, positions, now);
    let mut v: Vec<Room> = Vec::new();
    v.push(a);
    v.push(b);
    v
}

/// A term on a page of the ranked lexicon, with its place on the map.
#[derive(Debug, Clone)]
pub struct SliceEntry {
    /// The term's rank.
    pub index: usize,
    pub word: String,
    pub lang: String,
    pub gloss: Option<String>,
    pub pron: Option<String>,
    pub pop: i64,
    pub decomp: Option<String>,
    /// Binary64 bits.
    pub x: u64,
    pub y: u64,
}

/// A page of the lexicon ranked by popularity; with `limit` 0 it only tells
/// the total.
#[derive(Debug, Clone)]
pub struct LexSlice {
    pub total: usize,
    pub offset: usize,
    pub limit: usize,
    pub lang: String,
    pub entries: Vec<SliceEntry>,
}

/// Where a page ends: `offset + limit`, or the end of the lexicon.
pub open spec fn page_end(total: int, offset: int, limit: int) -> int {
    if offset >= total {
        offset
    } else if offset + limit > total {
        total
    } else {
        offset + limit
    }
}

/// The terms ranked `offset` to `offset + limit` (those that exist), each
/// with its rank, its language (`lang` when it names none) and its place:
/// `positions` holds the places of the page's ranks, in order.
pub fn lexicon_slice(
    all: Vec<LexEntry>,
    lang: &str,
    offset: usize,
    limit: usize,
    positions: &[(u64, u64)],
) -> (r: LexSlice)
    requires
        positions@.len() >= page_end(all@.len() as int, offset as int, limit as int) - offset,
    ensures
        r.total == all@.len(),
        r.offset == offset,
        r.limit == limit,
        r.lang@ == lang@,
        r.entries@.len() == page_end(all@.len() as int, offset as int, limit as int) - offset,
        forall|k: int|
            0 <= k < r.entries@.len() ==> {
                let t = #[trigger] r.entries@[k];
                let i = offset + k;
                let e = all@[i];
                &&& t.index == i
                &&& t.word@ == e.word@
                &&& t.lang@ == (if e.lang@.len() == 0 {
                    lang@
                } else {
                    e.lang@
                })
                &&& t.gloss == e.gloss
                &&& t.pron == e.pron
                &&& t.pop == e.pop
                &&& t.decomp == e.decomp
                &&& (t.x, t.y) == positions@[k]
            },
{
    let total = all.len();
    let end = if offset >= total {
        offset
    } else if limit > total - offset {
        total
    } else {
        offset + limit
    };
    let ghost es = all@;
    let mut rest = all;
    let mut entries: Vec<SliceEntry> = Vec::new();
    let mut i: usize = offset;
    if offset < total {
        rest = rest.split_off(offset);
    }
    while i < end
        invariant
            es.len() == total,
            offset <= i <= end,
            end <= total || end == offset,
            end == page_end(total as int, offset as int, limit as int),
            positions@.len() >= end - offset,
            i < end ==> rest@ == es.skip(i as int),
            entries@.len() == i - offset,
            forall|k: int|
                0 <= k < entries@.len() ==> {
                    let t = #[trigger] entries@[k];
                    let j = offset + k;
                    let e = es[j];
                    &&& t.index == j
                    &&& t.word@ == e.word@
                    &&& t.lang@ == (if e.lang@.len() == 0 {
                        lang@
                    } else {
                        e.lang@
                    })
                    &&& t.gloss == e.gloss
                    &&& t.pron == e.pron
                    &&& t.pop == e.pop
                    &&& t.decomp == e.decomp
                    &&& (t.x, t.y) == positions@[k]
                },
        decreases end - i,
    {
        let e = rest.remove(0);
        assert(e == es[i as int]);
        let code = if e.lang.as_str().is_empty() {
            String::from_str(lang)
        } else {
            e.lang
        };
        let (x, y) = positions[i - offset];
        let ghost before = entries@;
        entries.push(
            SliceEntry {
                index: i,
                word: e.word,
                lang: code,
                gloss: e.gloss,
                pron: e.pron,
                pop: e.pop,
                decomp: e.decomp,
                x: x,
                y: y,
            },
        );
        proof {
            assert forall|k: int| 0 <= k < entries@.len() - 1 implies #[trigger] entries@[k]
                == before[k] by {}
            assert(rest@ =~= es.skip(i + 1));
        }
        i = i + 1;
    }
    LexSlice { total: total, offset: offset, limit: limit, lang: String::from_str(lang), entries: entries }
}

/// The public rooms that are to be written: those with terms (a room whose
/// lexicon was missing is empty and must not replace one already filled).
pub fn ensure_public_rooms(rooms: Vec<Room>) -> (r: Vec<Room>)
    ensures
        r@.len() <= rooms@.len(),
        forall|k: int| 0 <= k < r@.len() ==> (#[trigger] r@[k])@.elements.len() > 0,
        forall|k: int| 0 <= k < rooms@.len() && (#[trigger] rooms@[k])@.elements.len() > 0 ==> r@.contains(rooms@[k]),
        forall|k: int| 0 <= k < r@.len() ==> rooms@.contains(#[trigger] r@[k]),
{
    let ghost rs = rooms@;
    let mut out: Vec<Room> = Vec::new();
    let mut rest = rooms;
    let n = rest.len();
    let mut i: usize = 0;
    while i < n
        invariant
            n == rs.len(),
            i <= n,
            rest@ == rs.skip(i as int),
            out@.len() <= i,
            forall|k: int| 0 <= k < out@.len() ==> (#[trigger] out@[k])@.elements.len() > 0,
            forall|k: int| 0 <= k < i && (#[trigger] rs[k])@.elements.len() > 0 ==> out@.contains(rs[k]),
            forall|k: int| 0 <= k < out@.len() ==> rs.contains(#[trigger] out@[k]),
        decreases n - i,
    {
        let room = rest.remove(0);
        assert(room == rs[i as int]);
        let ghost before = out@;
        if room.elements.len() > 0 {
            out.push(room);
            proof {
                assert forall|k: int| 0 <= k < i && (#[trigger] rs[k])@.elements.len() > 0 implies out@.contains(rs[k]) by {
                    let w = choose|w: int| 0 <= w < before.len() && before[w] == rs[k];
                    assert(out@[w] == before[w]);
                }
                assert(out@[out@.len() - 1] == rs[i as int]);
                assert forall|k: int| 0 <= k < out@.len() implies rs.contains(#[trigger] out@[k]) by {
                    if k < before.len() {
                        assert(out@[k] == before[k]);
                    }
                }
            }
        }
        proof {
            assert(rest@ =~= rs.skip(i + 1));
        }
        i = i + 1;
    }
    out
}

} // verus!

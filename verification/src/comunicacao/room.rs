//! A communication room: a free map on which a user places words of a
//! language (elements) and relations between them (links), edited by atomic
//! patches.
//!
//! Coordinates are IEEE-754 binary64 values, held here by their bit
//! patterns; the checks the edits make on them (finite, zoom range) are
//! stated on the bits.
use vstd::prelude::*;
use vstd::string::StringExecFns;

use crate::comunicacao::writeback::strings_view;
use crate::text::{is_whitespace, is_ws, str_chars, str_eq};

verus! {

/// A citation or source of an element.
#[derive(Debug, Clone, PartialEq)]
pub struct Reference {
    pub url: String,
    pub source: String,
    /// `youtube`, `article`, `book`, `dictionary`… (free text).
    pub kind: Option<String>,
}

impl Reference {
    pub fn new(url: &str, source: &str, kind: &str) -> (r: Self)
        ensures
            r.url@ == url@,
            r.source@ == source@,
            r.kind matches Some(k) && k@ == kind@,
    {
        Reference {
            url: String::from_str(url),
            source: String::from_str(source),
            kind: Some(String::from_str(kind)),
        }
    }
}

/// The kind that marks a composition link (`from` is composed of `to`).
pub open spec fn kind_compose() -> Seq<char> {
    "compoe"@
}

/// A relation between two elements of a room.
#[derive(Debug, Clone, PartialEq)]
pub struct Link {
    /// Stable id within the room.
    pub id: String,
    pub from: String,
    pub to: String,
    pub label: Option<String>,
    /// `true` draws an arrow from→to; `false` is a symmetric relation.
    pub directed: bool,
    /// `None` for a free relation; `compoe` for composition.
    pub kind: Option<String>,
}

impl Link {
    /// A directed link without label or kind.
    pub fn new(id: &str, from: &str, to: &str) -> (r: Self)
        ensures
            r.id@ == id@,
            r.from@ == from@,
            r.to@ == to@,
            r.label is None,
            r.directed,
            r.kind is None,
    {
        Link {
            id: String::from_str(id),
            from: String::from_str(from),
            to: String::from_str(to),
            label: None,
            directed: true,
            kind: None,
        }
    }

    pub fn with_label(self, label: &str) -> (r: Self)
        ensures
            r.label matches Some(l) && l@ == label@,
            r.id == self.id && r.from == self.from && r.to == self.to,
            r.directed == self.directed && r.kind == self.kind,
    {
        Link { label: Some(String::from_str(label)), ..self }
    }

    pub fn with_kind(self, kind: &str) -> (r: Self)
        ensures
            r.kind matches Some(k) && k@ == kind@,
            r.id == self.id && r.from == self.from && r.to == self.to,
            r.directed == self.directed && r.label == self.label,
    {
        Link { kind: Some(String::from_str(kind)), ..self }
    }

    pub fn undirected(self) -> (r: Self)
        ensures
            !r.directed,
            r.id == self.id && r.from == self.from && r.to == self.to,
            r.label == self.label && r.kind == self.kind,
    {
        Link { directed: false, ..self }
    }

    /// Whether this is a composition link.
    pub fn is_compose(&self) -> (r: bool)
        ensures
            r == (self.kind matches Some(k) && k@ == kind_compose()),
    {
        match &self.kind {
            Some(k) => str_eq(k.as_str(), "compoe"),
            None => false,
        }
    }
}

/// An element's tie to the shared lexicon.
#[derive(Debug, Clone, PartialEq)]
pub enum LexiconLink {
    /// Only in the user's room so far.
    Local,
    /// Tied to an existing entry of the shared lexicon.
    Linked { path: String },
    /// Created a new entry, credited to the user.
    Contributed { path: String },
}

impl LexiconLink {
    /// The relative path of the lexicon entry, if any.
    pub fn path(&self) -> (r: Option<&str>)
        ensures
            match self {
                LexiconLink::Local => r is None,
                LexiconLink::Linked { path } => r matches Some(p) && p@ == path@,
                LexiconLink::Contributed { path } => r matches Some(p) && p@ == path@,
            },
    {
        match self {
            LexiconLink::Local => None,
            LexiconLink::Linked { path } => Some(path.as_str()),
            LexiconLink::Contributed { path } => Some(path.as_str()),
        }
    }
}

// ── Views ─────────────────────────────────────────────────────────────────

pub open spec fn opt_view(o: Option<String>) -> Option<Seq<char>> {
    match o {
        Some(s) => Some(s@),
        None => None,
    }
}

/// A link as text.
pub struct LinkV {
    pub id: Seq<char>,
    pub from: Seq<char>,
    pub to: Seq<char>,
    pub label: Option<Seq<char>>,
    pub directed: bool,
    pub kind: Option<Seq<char>>,
}

impl View for Link {
    type V = LinkV;

    open spec fn view(&self) -> LinkV {
        LinkV {
            id: self.id@,
            from: self.from@,
            to: self.to@,
            label: opt_view(self.label),
            directed: self.directed,
            kind: opt_view(self.kind),
        }
    }
}

// ── Elements and rooms ────────────────────────────────────────────────────

/// Version of the stored room layout.
pub const SCHEMA_VERSION: u32 = 1;

/// The bits of 1.0.
pub const F64_ONE: u64 = 0x3FF0_0000_0000_0000;
/// The bits of 0.1, the smallest zoom accepted.
pub const ZOOM_MIN: u64 = 0x3FB9_9999_9999_999A;
/// The bits of 8.0, the largest zoom accepted.
pub const ZOOM_MAX: u64 = 0x4020_0000_0000_0000;

/// The camera over the map: pan and a multiplicative zoom (1.0 = 100%),
/// each as binary64 bits.
#[derive(Debug, Clone, Copy, PartialEq, Eq, Structural)]
pub struct Viewport {
    pub pan_x: u64,
    pub pan_y: u64,
    pub zoom: u64,
}

impl Default for Viewport {
    /// No pan, zoom 1.0.
    fn default() -> (v: Self)
        ensures
            v.pan_x == 0,
            v.pan_y == 0,
            v.zoom == F64_ONE,
    {
        Viewport { pan_x: 0, pan_y: 0, zoom: F64_ONE }
    }
}

/// A word placed on the map, with what ties it to the lexicon.
#[derive(Debug, Clone, PartialEq)]
pub struct Element {
    /// Stable id within the room.
    pub id: String,
    /// World coordinates, as binary64 bits.
    pub x: u64,
    pub y: u64,
    /// The word in its language, diacritics kept.
    pub word: String,
    pub lang: String,
    pub pronunciation: Option<String>,
    /// Short gloss or translation.
    pub gloss: Option<String>,
    /// Language-neutral anchor concept.
    pub concept: Option<String>,
    pub icon: Option<String>,
    pub refs: Vec<Reference>,
    pub lexicon: LexiconLink,
}

/// An element as text.
pub struct ElemV {
    pub id: Seq<char>,
    pub x: u64,
    pub y: u64,
    pub word: Seq<char>,
    pub lang: Seq<char>,
    pub pronunciation: Option<Seq<char>>,
    pub gloss: Option<Seq<char>>,
    pub concept: Option<Seq<char>>,
    pub icon: Option<Seq<char>>,
    pub refs: Seq<Reference>,
    pub lexicon: LexiconLink,
}

impl View for Element {
    type V = ElemV;

    open spec fn view(&self) -> ElemV {
        ElemV {
            id: self.id@,
            x: self.x,
            y: self.y,
            word: self.word@,
            lang: self.lang@,
            pronunciation: opt_view(self.pronunciation),
            gloss: opt_view(self.gloss),
            concept: opt_view(self.concept),
            icon: opt_view(self.icon),
            refs: self.refs@,
            lexicon: self.lexicon,
        }
    }
}

/// A fresh element: at the origin, only id, word and language.
pub open spec fn fresh_elem(id: Seq<char>, word: Seq<char>, lang: Seq<char>) -> ElemV {
    ElemV {
        id: id,
        x: 0,
        y: 0,
        word: word,
        lang: lang,
        pronunciation: None,
        gloss: None,
        concept: None,
        icon: None,
        refs: seq![],
        lexicon: LexiconLink::Local,
    }
}

impl Element {
    /// A minimal element at the origin, not yet in the lexicon.
    pub fn new(id: &str, word: &str, lang: &str) -> (e: Self)
        ensures
            e@ == fresh_elem(id@, word@, lang@),
    {
        Element {
            id: String::from_str(id),
            x: 0,
            y: 0,
            word: String::from_str(word),
            lang: String::from_str(lang),
            pronunciation: None,
            gloss: None,
            concept: None,
            icon: None,
            refs: Vec::new(),
            lexicon: LexiconLink::Local,
        }
    }

    pub fn at(self, x: u64, y: u64) -> (e: Self)
        ensures
            e@ == (ElemV { x: x, y: y, ..self@ }),
    {
        Element { x: x, y: y, ..self }
    }

    pub fn with_gloss(self, gloss: &str) -> (e: Self)
        ensures
            e@ == (ElemV { gloss: Some(gloss@), ..self@ }),
    {
        Element { gloss: Some(String::from_str(gloss)), ..self }
    }

    pub fn with_pronunciation(self, p: &str) -> (e: Self)
        ensures
            e@ == (ElemV { pronunciation: Some(p@), ..self@ }),
    {
        Element { pronunciation: Some(String::from_str(p)), ..self }
    }

    pub fn with_concept(self, c: &str) -> (e: Self)
        ensures
            e@ == (ElemV { concept: Some(c@), ..self@ }),
    {
        Element { concept: Some(String::from_str(c)), ..self }
    }

    pub fn with_ref(self, r: Reference) -> (e: Self)
        ensures
            e@ == (ElemV { refs: self@.refs.push(r), ..self@ }),
    {
        let mut e = self;
        e.refs.push(r);
        e
    }
}

/// A user's room.
#[derive(Debug, Clone, PartialEq)]
pub struct Room {
    /// Stable id; also the room's directory name.
    pub id: String,
    pub schema_version: u32,
    /// The owner's subject id.
    pub owner: String,
    pub title: String,
    /// The room's main language; the default for composed elements.
    pub lang: String,
    /// Seed template slug.
    pub template: String,
    pub viewport: Viewport,
    pub elements: Vec<Element>,
    pub links: Vec<Link>,
    /// Listed in the public feed.
    pub published: bool,
    /// Creation and last change, in milliseconds since the Unix epoch.
    pub created_at: i64,
    pub updated_at: i64,
}

/// A room as values.
pub struct RoomV {
    pub id: Seq<char>,
    pub schema_version: u32,
    pub owner: Seq<char>,
    pub title: Seq<char>,
    pub lang: Seq<char>,
    pub template: Seq<char>,
    pub viewport: Viewport,
    pub elements: Seq<ElemV>,
    pub links: Seq<LinkV>,
    pub published: bool,
    pub created_at: i64,
    pub updated_at: i64,
}

pub open spec fn elems_view(s: Seq<Element>) -> Seq<ElemV> {
    Seq::new(s.len(), |i: int| s[i]@)
}

pub open spec fn links_view(s: Seq<Link>) -> Seq<LinkV> {
    Seq::new(s.len(), |i: int| s[i]@)
}

impl View for Room {
    type V = RoomV;

    open spec fn view(&self) -> RoomV {
        RoomV {
            id: self.id@,
            schema_version: self.schema_version,
            owner: self.owner@,
            title: self.title@,
            lang: self.lang@,
            template: self.template@,
            viewport: self.viewport,
            elements: elems_view(self.elements@),
            links: links_view(self.links@),
            published: self.published,
            created_at: self.created_at,
            updated_at: self.updated_at,
        }
    }
}

/// Some element has this id.
pub open spec fn has_elem(els: Seq<ElemV>, id: Seq<char>) -> bool {
    exists|i: int| 0 <= i < els.len() && (#[trigger] els[i]).id == id
}

/// Some link has this id.
pub open spec fn has_lnk(ls: Seq<LinkV>, id: Seq<char>) -> bool {
    exists|i: int| 0 <= i < ls.len() && (#[trigger] ls[i]).id == id
}

/// The first element at or after `from` with this id.
pub open spec fn elem_index(els: Seq<ElemV>, id: Seq<char>, from: int) -> Option<int>
    decreases els.len() - from,
{
    if from < 0 || from >= els.len() {
        None
    } else if els[from].id == id {
        Some(from)
    } else {
        elem_index(els, id, from + 1)
    }
}

/// What the first-index search finds is an element with that id, and
/// nothing earlier has it; it finds nothing only when no element has it.
pub proof fn lemma_elem_index(els: Seq<ElemV>, id: Seq<char>, from: int)
    requires
        0 <= from,
    ensures
        match elem_index(els, id, from) {
            Some(i) => from <= i < els.len() && els[i].id == id && forall|k: int|
                from <= k < i ==> els[k].id != id,
            None => forall|k: int| from <= k < els.len() ==> els[k].id != id,
        },
    decreases els.len() - from,
{
    if from < els.len() && els[from].id != id {
        lemma_elem_index(els, id, from + 1);
    }
}

/// The items of `s` that satisfy `p`, in order.
pub open spec fn keep_where<T>(s: Seq<T>, p: spec_fn(T) -> bool) -> Seq<T>
    decreases s.len(),
{
    if s.len() == 0 {
        seq![]
    } else if p(s.last()) {
        keep_where(s.drop_last(), p).push(s.last())
    } else {
        keep_where(s.drop_last(), p)
    }
}

/// Two rooms that differ at most in their elements.
pub open spec fn same_but_elements(a: Room, b: Room) -> bool {
    &&& a.id == b.id
    &&& a.schema_version == b.schema_version
    &&& a.owner == b.owner
    &&& a.title == b.title
    &&& a.lang == b.lang
    &&& a.template == b.template
    &&& a.viewport == b.viewport
    &&& a.links == b.links
    &&& a.published == b.published
    &&& a.created_at == b.created_at
    &&& a.updated_at == b.updated_at
}

impl Room {
    /// An empty room with the default camera, created at `now`.
    pub fn empty(id: &str, owner: &str, title: &str, lang: &str, now: i64) -> (r: Self)
        ensures
            r@ == (RoomV {
                id: id@,
                schema_version: SCHEMA_VERSION,
                owner: owner@,
                title: title@,
                lang: lang@,
                template: seq![],
                viewport: Viewport { pan_x: 0, pan_y: 0, zoom: F64_ONE },
                elements: seq![],
                links: seq![],
                published: false,
                created_at: now,
                updated_at: now,
            }),
    {
        let r = Room {
            id: String::from_str(id),
            schema_version: SCHEMA_VERSION,
            owner: String::from_str(owner),
            title: String::from_str(title),
            lang: String::from_str(lang),
            template: String::new(),
            viewport: Viewport::default(),
            elements: Vec::new(),
            links: Vec::new(),
            published: false,
            created_at: now,
            updated_at: now,
        };
        assert(r@.elements =~= seq![]);
        assert(r@.links =~= seq![]);
        r
    }

    /// The position of the first element with this id.
    fn element_index(&self, id: &str) -> (r: Option<usize>)
        ensures
            match r {
                Some(i) => elem_index(self@.elements, id@, 0) == Some(i as int) && i
                    < self@.elements.len(),
                None => elem_index(self@.elements, id@, 0) is None,
            },
    {
        let n = self.elements.len();
        let mut i: usize = 0;
        while i < n
            invariant
                n == self@.elements.len(),
                i <= n,
                elem_index(self@.elements, id@, 0) == elem_index(self@.elements, id@, i as int),
            decreases n - i,
        {
            if str_eq(self.elements[i].id.as_str(), id) {
                proof {
                    lemma_elem_index(self@.elements, id@, 0);
                }
                return Some(i);
            }
            i = i + 1;
        }
        None
    }

    /// The first element with this id.
    pub fn element(&self, id: &str) -> (r: Option<&Element>)
        ensures
            match elem_index(self@.elements, id@, 0) {
                Some(i) => r matches Some(e) && e@ == self@.elements[i],
                None => r is None,
            },
    {
        match self.element_index(id) {
            Some(i) => Some(&self.elements[i]),
            None => None,
        }
    }

    /// The first element with this id, to change in place; the room keeps
    /// whatever the element becomes, and nothing else of it changes.
    pub fn element_mut(&mut self, id: &str) -> (r: Option<&mut Element>)
        ensures
            match elem_index(old(self)@.elements, id@, 0) {
                Some(i) => r matches Some(e) && *e == old(self).elements@[i] && final(self).elements@
                    == old(self).elements@.update(i, *final(e)),
                None => r is None && *final(self) == *old(self),
            },
            same_but_elements(*old(self), *final(self)),
    {
        match self.element_index(id) {
            Some(i) => Some(&mut self.elements[i]),
            None => None,
        }
    }

    /// Whether some element has this id.
    pub fn has_element(&self, id: &str) -> (r: bool)
        ensures
            r == has_elem(self@.elements, id@),
    {
        let n = self.elements.len();
        let mut i: usize = 0;
        while i < n
            invariant
                n == self@.elements.len(),
                i <= n,
                forall|k: int| 0 <= k < i ==> self@.elements[k].id != id@,
            decreases n - i,
        {
            if str_eq(self.elements[i].id.as_str(), id) {
                assert(self@.elements[i as int].id == id@);
                return true;
            }
            i = i + 1;
        }
        false
    }

    /// Whether some link has this id.
    pub fn has_link(&self, id: &str) -> (r: bool)
        ensures
            r == has_lnk(self@.links, id@),
    {
        let n = self.links.len();
        let mut i: usize = 0;
        while i < n
            invariant
                n == self@.links.len(),
                i <= n,
                forall|k: int| 0 <= k < i ==> self@.links[k].id != id@,
            decreases n - i,
        {
            if str_eq(self.links[i].id.as_str(), id) {
                assert(self@.links[i as int].id == id@);
                return true;
            }
            i = i + 1;
        }
        false
    }
}

// ── Edits ─────────────────────────────────────────────────────────────────

/// Why an edit was refused.
#[derive(Debug, PartialEq)]
pub enum EditError {
    ElementExists(String),
    ElementNotFound(String),
    EmptyWord,
    /// The zoom's bits.
    InvalidZoom(u64),
    NonFiniteCoord,
    LinkExists(String),
    LinkNotFound(String),
    LinkEndpointMissing(String),
    SelfLink,
    ComposeNoParents,
}

/// An edit error as values.
pub enum EditErrorV {
    ElementExists(Seq<char>),
    ElementNotFound(Seq<char>),
    EmptyWord,
    InvalidZoom(u64),
    NonFiniteCoord,
    LinkExists(Seq<char>),
    LinkNotFound(Seq<char>),
    LinkEndpointMissing(Seq<char>),
    SelfLink,
    ComposeNoParents,
}

impl View for EditError {
    type V = EditErrorV;

    open spec fn view(&self) -> EditErrorV {
        match self {
            EditError::ElementExists(s) => EditErrorV::ElementExists(s@),
            EditError::ElementNotFound(s) => EditErrorV::ElementNotFound(s@),
            EditError::EmptyWord => EditErrorV::EmptyWord,
            EditError::InvalidZoom(z) => EditErrorV::InvalidZoom(*z),
            EditError::NonFiniteCoord => EditErrorV::NonFiniteCoord,
            EditError::LinkExists(s) => EditErrorV::LinkExists(s@),
            EditError::LinkNotFound(s) => EditErrorV::LinkNotFound(s@),
            EditError::LinkEndpointMissing(s) => EditErrorV::LinkEndpointMissing(s@),
            EditError::SelfLink => EditErrorV::SelfLink,
            EditError::ComposeNoParents => EditErrorV::ComposeNoParents,
        }
    }
}

/// An atomic patch of a room.
pub enum RoomEdit {
    /// Adds a new element; its id must be new in the room.
    AddElement { element: Element },
    /// Moves an element to new world coordinates.
    MoveElement { id: String, x: u64, y: u64 },
    /// Changes the given text fields of an element; `None` leaves a field.
    EditElement {
        id: String,
        word: Option<String>,
        gloss: Option<String>,
        pronunciation: Option<String>,
        concept: Option<String>,
        icon: Option<String>,
    },
    /// Removes an element and every link that touches it.
    DeleteElement { id: String },
    /// Adds a relation between two elements.
    AddLink { link: Link },
    /// Removes a relation.
    DeleteLink { id: String },
    /// Composes a new term from existing elements: the new element, and a
    /// composition link from it to each parent.
    Compose {
        id: String,
        word: String,
        lang: Option<String>,
        x: u64,
        y: u64,
        parents: Vec<String>,
    },
    /// Stores the camera.
    SetViewport { pan_x: u64, pan_y: u64, zoom: u64 },
    /// Lists the room in the public feed, or not.
    SetPublished { published: bool },
}

/// Nothing but white space (what `trim().is_empty()` tests).
pub open spec fn blank(s: Seq<char>) -> bool {
    forall|i: int| 0 <= i < s.len() ==> is_ws(s[i])
}

/// The bits of a finite binary64 value: the exponent field is not all ones.
pub open spec fn finite_bits(b: u64) -> bool {
    (b >> 52u64) & 0x7ffu64 != 0x7ffu64
}

/// The bits of a finite value from 0.1 to 8.0: among non-negative values,
/// binary64 order is the order of the bit patterns.
pub open spec fn zoom_bits_ok(b: u64) -> bool {
    finite_bits(b) && b >> 63u64 == 0 && ZOOM_MIN <= b <= ZOOM_MAX
}

/// The element with the given fields replaced.
pub open spec fn edited(
    e: ElemV,
    word: Option<String>,
    gloss: Option<String>,
    pronunciation: Option<String>,
    concept: Option<String>,
    icon: Option<String>,
) -> ElemV {
    ElemV {
        word: match word {
            Some(w) => w@,
            None => e.word,
        },
        gloss: match gloss {
            Some(g) => Some(g@),
            None => e.gloss,
        },
        pronunciation: match pronunciation {
            Some(p) => Some(p@),
            None => e.pronunciation,
        },
        concept: match concept {
            Some(c) => Some(c@),
            None => e.concept,
        },
        icon: match icon {
            Some(i) => Some(i@),
            None => e.icon,
        },
        ..e
    }
}

/// The first parent that is not an element, from position `k` on.
pub open spec fn missing_parent(els: Seq<ElemV>, ps: Seq<Seq<char>>, k: int) -> Option<Seq<char>>
    decreases ps.len() - k,
{
    if k < 0 || k >= ps.len() {
        None
    } else if !has_elem(els, ps[k]) {
        Some(ps[k])
    } else {
        missing_parent(els, ps, k + 1)
    }
}

/// The composition link from `id` to parent `p`.
pub open spec fn compose_link(id: Seq<char>, p: Seq<char>) -> LinkV {
    LinkV {
        id: id + "~"@ + p,
        from: id,
        to: p,
        label: Some("compõe-se de"@),
        directed: true,
        kind: Some("compoe"@),
    }
}

/// The links with a composition link to each parent added, in order,
/// skipping any whose id is already taken.
pub open spec fn with_compose_links(ls: Seq<LinkV>, id: Seq<char>, ps: Seq<Seq<char>>) -> Seq<LinkV>
    decreases ps.len(),
{
    if ps.len() == 0 {
        ls
    } else {
        let prev = with_compose_links(ls, id, ps.drop_last());
        let l = compose_link(id, ps.last());
        if has_lnk(prev, l.id) {
            prev
        } else {
            prev.push(l)
        }
    }
}

/// What an edit does to a room: the new room, or why it is refused (the
/// room is then left as it was).
pub open spec fn apply_spec(r: RoomV, op: RoomEdit) -> Result<RoomV, EditErrorV> {
    match op {
        RoomEdit::AddElement { element } => {
            let e = element@;
            if blank(e.word) {
                Err(EditErrorV::EmptyWord)
            } else if has_elem(r.elements, e.id) {
                Err(EditErrorV::ElementExists(e.id))
            } else if !finite_bits(e.x) || !finite_bits(e.y) {
                Err(EditErrorV::NonFiniteCoord)
            } else {
                Ok(RoomV { elements: r.elements.push(e), ..r })
            }
        },
        RoomEdit::MoveElement { id, x, y } => {
            if !finite_bits(x) || !finite_bits(y) {
                Err(EditErrorV::NonFiniteCoord)
            } else {
                match elem_index(r.elements, id@, 0) {
                    None => Err(EditErrorV::ElementNotFound(id@)),
                    Some(i) => Ok(
                        RoomV {
                            elements: r.elements.update(i, ElemV { x: x, y: y, ..r.elements[i] }),
                            ..r
                        },
                    ),
                }
            }
        },
        RoomEdit::EditElement { id, word, gloss, pronunciation, concept, icon } => {
            match elem_index(r.elements, id@, 0) {
                None => Err(EditErrorV::ElementNotFound(id@)),
                Some(i) => if word matches Some(w) && blank(w@) {
                    Err(EditErrorV::EmptyWord)
                } else {
                    Ok(
                        RoomV {
                            elements: r.elements.update(
                                i,
                                edited(r.elements[i], word, gloss, pronunciation, concept, icon),
                            ),
                            ..r
                        },
                    )
                },
            }
        },
        RoomEdit::DeleteElement { id } => {
            if !has_elem(r.elements, id@) {
                Err(EditErrorV::ElementNotFound(id@))
            } else {
                Ok(
                    RoomV {
                        elements: keep_where(r.elements, |e: ElemV| e.id != id@),
                        links: keep_where(r.links, |l: LinkV| l.from != id@ && l.to != id@),
                        ..r
                    },
                )
            }
        },
        RoomEdit::AddLink { link } => {
            let l = link@;
            if l.from == l.to {
                Err(EditErrorV::SelfLink)
            } else if has_lnk(r.links, l.id) {
                Err(EditErrorV::LinkExists(l.id))
            } else if !has_elem(r.elements, l.from) {
                Err(EditErrorV::LinkEndpointMissing(l.from))
            } else if !has_elem(r.elements, l.to) {
                Err(EditErrorV::LinkEndpointMissing(l.to))
            } else {
                Ok(RoomV { links: r.links.push(l), ..r })
            }
        },
        RoomEdit::DeleteLink { id } => {
            if !has_lnk(r.links, id@) {
                Err(EditErrorV::LinkNotFound(id@))
            } else {
                Ok(RoomV { links: keep_where(r.links, |l: LinkV| l.id != id@), ..r })
            }
        },
        RoomEdit::Compose { id, word, lang, x, y, parents } => {
            let ps = strings_view(parents@);
            if blank(word@) {
                Err(EditErrorV::EmptyWord)
            } else if has_elem(r.elements, id@) {
                Err(EditErrorV::ElementExists(id@))
            } else if ps.len() == 0 {
                Err(EditErrorV::ComposeNoParents)
            } else if !finite_bits(x) || !finite_bits(y) {
                Err(EditErrorV::NonFiniteCoord)
            } else if missing_parent(r.elements, ps, 0) is Some {
                Err(EditErrorV::ElementNotFound(missing_parent(r.elements, ps, 0)->0))
            } else {
                let l = match lang {
                    Some(l) => l@,
                    None => r.lang,
                };
                let e = ElemV { x: x, y: y, ..fresh_elem(id@, word@, l) };
                Ok(
                    RoomV {
                        elements: r.elements.push(e),
                        links: with_compose_links(r.links, id@, ps),
                        ..r
                    },
                )
            }
        },
        RoomEdit::SetViewport { pan_x, pan_y, zoom } => {
            if !finite_bits(pan_x) || !finite_bits(pan_y) {
                Err(EditErrorV::NonFiniteCoord)
            } else if !zoom_bits_ok(zoom) {
                Err(EditErrorV::InvalidZoom(zoom))
            } else {
                Ok(RoomV { viewport: Viewport { pan_x, pan_y, zoom }, ..r })
            }
        },
        RoomEdit::SetPublished { published } => Ok(RoomV { published: published, ..r }),
    }
}

/// Whether the text is nothing but white space.
pub fn is_blank(s: &str) -> (r: bool)
    ensures
        r == blank(s@),
{
    let cs = str_chars(s);
    let n = cs.len();
    let mut i: usize = 0;
    while i < n
        invariant
            cs@ == s@,
            n == cs@.len(),
            i <= n,
            forall|k: int| 0 <= k < i ==> is_ws(s@[k]),
        decreases n - i,
    {
        if !is_whitespace(cs[i]) {
            return false;
        }
        i = i + 1;
    }
    true
}

/// Accepts finite coordinates.
pub fn finite(v: u64) -> (r: Result<u64, EditError>)
    ensures
        r == if finite_bits(v) {
            Ok::<u64, EditError>(v)
        } else {
            Err(EditError::NonFiniteCoord)
        },
{
    if (v >> 52u64) & 0x7ffu64 != 0x7ffu64 {
        Ok(v)
    } else {
        Err(EditError::NonFiniteCoord)
    }
}

proof fn lemma_elems_remove(s: Seq<Element>, i: int)
    requires
        0 <= i < s.len(),
    ensures
        elems_view(s.remove(i)) == elems_view(s).remove(i),
{
    assert(elems_view(s.remove(i)) =~= elems_view(s).remove(i));
}

proof fn lemma_links_remove(s: Seq<Link>, i: int)
    requires
        0 <= i < s.len(),
    ensures
        links_view(s.remove(i)) == links_view(s).remove(i),
{
    assert(links_view(s.remove(i)) =~= links_view(s).remove(i));
}

pub proof fn lemma_keep_step<T>(s: Seq<T>, p: spec_fn(T) -> bool, j: int)
    requires
        0 <= j < s.len(),
    ensures
        keep_where(s.take(j + 1), p) == if p(s[j]) {
            keep_where(s.take(j), p).push(s[j])
        } else {
            keep_where(s.take(j), p)
        },
{
    assert(s.take(j + 1).drop_last() =~= s.take(j));
}

/// Removes every element with this id.
fn remove_elements(v: &mut Vec<Element>, id: &str)
    ensures
        elems_view(final(v)@) == keep_where(elems_view(old(v)@), |e: ElemV| e.id != id@),
{
    let ghost o = elems_view(v@);
    let ghost p = |e: ElemV| e.id != id@;
    let mut i: usize = 0;
    let ghost mut j: int = 0;
    while i < v.len()
        invariant
            o == elems_view(old(v)@),
            p == (|e: ElemV| e.id != id@),
            0 <= j <= o.len(),
            i == keep_where(o.take(j), p).len(),
            elems_view(v@) == keep_where(o.take(j), p) + o.skip(j),
        decreases v.len() - i,
    {
        proof {
            lemma_keep_step(o, p, j);
            assert(elems_view(v@)[i as int] == o[j]);
        }
        if str_eq(v[i].id.as_str(), id) {
            proof {
                lemma_elems_remove(v@, i as int);
                assert(keep_where(o.take(j), p) + o.skip(j + 1) =~= (keep_where(o.take(j), p) + o.skip(j)).remove(i as int));
            }
            v.remove(i);
        } else {
            i = i + 1;
            proof {
                assert(keep_where(o.take(j + 1), p) + o.skip(j + 1) =~= keep_where(o.take(j), p) + o.skip(j));
            }
        }
        proof {
            j = j + 1;
        }
    }
    assert(o.take(j) =~= o);
    assert(elems_view(v@) =~= keep_where(o, p));
}

/// Removes every link for which `touching` (when true: a link that starts
/// or ends at `id`; when false: a link whose id is `id`).
fn remove_links(v: &mut Vec<Link>, id: &str, touching: bool)
    ensures
        links_view(final(v)@) == keep_where(
            links_view(old(v)@),
            if touching {
                |l: LinkV| l.from != id@ && l.to != id@
            } else {
                |l: LinkV| l.id != id@
            },
        ),
{
    let ghost o = links_view(v@);
    let ghost p = if touching {
        |l: LinkV| l.from != id@ && l.to != id@
    } else {
        |l: LinkV| l.id != id@
    };
    let mut i: usize = 0;
    let ghost mut j: int = 0;
    while i < v.len()
        invariant
            o == links_view(old(v)@),
            p == (if touching {
                |l: LinkV| l.from != id@ && l.to != id@
            } else {
                |l: LinkV| l.id != id@
            }),
            0 <= j <= o.len(),
            i == keep_where(o.take(j), p).len(),
            links_view(v@) == keep_where(o.take(j), p) + o.skip(j),
        decreases v.len() - i,
    {
        proof {
            lemma_keep_step(o, p, j);
            assert(links_view(v@)[i as int] == o[j]);
        }
        let drop = if touching {
            str_eq(v[i].from.as_str(), id) || str_eq(v[i].to.as_str(), id)
        } else {
            str_eq(v[i].id.as_str(), id)
        };
        if drop {
            proof {
                lemma_links_remove(v@, i as int);
                assert(keep_where(o.take(j), p) + o.skip(j + 1) =~= (keep_where(o.take(j), p) + o.skip(j)).remove(i as int));
            }
            v.remove(i);
        } else {
            i = i + 1;
            proof {
                assert(keep_where(o.take(j + 1), p) + o.skip(j + 1) =~= keep_where(o.take(j), p) + o.skip(j));
            }
        }
        proof {
            j = j + 1;
        }
    }
    assert(o.take(j) =~= o);
    assert(links_view(v@) =~= keep_where(o, p));
}

proof fn lemma_elems_push(s: Seq<Element>, e: Element)
    ensures
        elems_view(s.push(e)) == elems_view(s).push(e@),
{
    assert(elems_view(s.push(e)) =~= elems_view(s).push(e@));
}

proof fn lemma_links_push(s: Seq<Link>, l: Link)
    ensures
        links_view(s.push(l)) == links_view(s).push(l@),
{
    assert(links_view(s.push(l)) =~= links_view(s).push(l@));
}

impl RoomEdit {
    /// Applies the edit (see [`apply_spec`]); a refused edit leaves the
    /// room as it was.
    pub fn apply(self, room: &mut Room) -> (r: Result<(), EditError>)
        ensures
            match apply_spec(old(room)@, self) {
                Ok(v) => r is Ok && final(room)@ == v,
                Err(e) => r matches Err(x) && x@ == e && final(room)@ == old(room)@,
            },
    {
        let ghost r0 = room@;
        let ghost op = self;
        match self {
            RoomEdit::AddElement { element } => {
                if is_blank(element.word.as_str()) {
                    return Err(EditError::EmptyWord);
                }
                if room.has_element(element.id.as_str()) {
                    return Err(EditError::ElementExists(element.id));
                }
                if let Err(e) = finite(element.x) {
                    return Err(e);
                }
                if let Err(e) = finite(element.y) {
                    return Err(e);
                }
                proof {
                    lemma_elems_push(room.elements@, element);
                }
                room.elements.push(element);
            },
            RoomEdit::MoveElement { id, x, y } => {
                if let Err(e) = finite(x) {
                    return Err(e);
                }
                if let Err(e) = finite(y) {
                    return Err(e);
                }
                match room.element_index(id.as_str()) {
                    None => {
                        return Err(EditError::ElementNotFound(id));
                    },
                    Some(i) => {
                        room.elements[i].x = x;
                        room.elements[i].y = y;
                        assert(room@.elements =~= r0.elements.update(
                            i as int,
                            ElemV { x: x, y: y, ..r0.elements[i as int] },
                        ));
                    },
                }
            },
            RoomEdit::EditElement { id, word, gloss, pronunciation, concept, icon } => {
                let i = match room.element_index(id.as_str()) {
                    None => {
                        return Err(EditError::ElementNotFound(id));
                    },
                    Some(i) => i,
                };
                let ghost want = edited(r0.elements[i as int], word, gloss, pronunciation, concept, icon);
                if let Some(w) = &word {
                    if is_blank(w.as_str()) {
                        return Err(EditError::EmptyWord);
                    }
                }
                if let Some(w) = word {
                    room.elements[i].word = w;
                }
                if let Some(g) = gloss {
                    room.elements[i].gloss = Some(g);
                }
                if let Some(p) = pronunciation {
                    room.elements[i].pronunciation = Some(p);
                }
                if let Some(c) = concept {
                    room.elements[i].concept = Some(c);
                }
                if let Some(ic) = icon {
                    room.elements[i].icon = Some(ic);
                }
                assert(room@.elements =~= r0.elements.update(i as int, want));
            },
            RoomEdit::DeleteElement { id } => {
                if !room.has_element(id.as_str()) {
                    return Err(EditError::ElementNotFound(id));
                }
                remove_elements(&mut room.elements, id.as_str());
                remove_links(&mut room.links, id.as_str(), true);
            },
            RoomEdit::AddLink { link } => {
                if str_eq(link.from.as_str(), link.to.as_str()) {
                    return Err(EditError::SelfLink);
                }
                if room.has_link(link.id.as_str()) {
                    return Err(EditError::LinkExists(link.id));
                }
                if !room.has_element(link.from.as_str()) {
                    return Err(EditError::LinkEndpointMissing(link.from));
                }
                if !room.has_element(link.to.as_str()) {
                    return Err(EditError::LinkEndpointMissing(link.to));
                }
                proof {
                    lemma_links_push(room.links@, link);
                }
                room.links.push(link);
            },
            RoomEdit::DeleteLink { id } => {
                if !room.has_link(id.as_str()) {
                    return Err(EditError::LinkNotFound(id));
                }
                remove_links(&mut room.links, id.as_str(), false);
            },
            RoomEdit::Compose { id, word, lang, x, y, parents } => {
                let ghost ps = strings_view(parents@);
                if is_blank(word.as_str()) {
                    return Err(EditError::EmptyWord);
                }
                if room.has_element(id.as_str()) {
                    return Err(EditError::ElementExists(id));
                }
                if parents.len() == 0 {
                    return Err(EditError::ComposeNoParents);
                }
                if let Err(e) = finite(x) {
                    return Err(e);
                }
                if let Err(e) = finite(y) {
                    return Err(e);
                }
                let n = parents.len();
                let mut k: usize = 0;
                while k < n
                    invariant
                        op == self,
                        op == (RoomEdit::Compose {
                            id: id,
                            word: word,
                            lang: lang,
                            x: x,
                            y: y,
                            parents: parents,
                        }),
                        room@ == r0,
                        r0 == old(room)@,
                        !blank(word@),
                        !has_elem(r0.elements, id@),
                        finite_bits(x) && finite_bits(y),
                        ps == strings_view(parents@),
                        n == ps.len(),
                        k <= n,
                        missing_parent(r0.elements, ps, 0) == missing_parent(r0.elements, ps, k as int),
                    decreases n - k,
                {
                    if !room.has_element(parents[k].as_str()) {
                        assert(ps[k as int] == parents@[k as int]@);
                        assert(missing_parent(r0.elements, ps, k as int) == Some(ps[k as int]));
                        let c = parents[k].clone();
                        return Err(EditError::ElementNotFound(c));
                    }
                    k = k + 1;
                }
                let l = match lang {
                    Some(l) => l,
                    None => room.lang.clone(),
                };
                let e = Element::new(id.as_str(), word.as_str(), l.as_str()).at(x, y);
                proof {
                    lemma_elems_push(room.elements@, e);
                }
                room.elements.push(e);
                let ghost els1 = room@.elements;
                let mut k: usize = 0;
                while k < n
                    invariant
                        room@ == (RoomV { links: room@.links, ..room@ }),
                        room@.elements == els1,
                        room@.id == r0.id && room@.lang == r0.lang,
                        room@.viewport == r0.viewport && room@.published == r0.published,
                        room@.owner == r0.owner && room@.title == r0.title,
                        room@.template == r0.template && room@.schema_version == r0.schema_version,
                        room@.created_at == r0.created_at && room@.updated_at == r0.updated_at,
                        ps == strings_view(parents@),
                        n == ps.len(),
                        k <= n,
                        room@.links == with_compose_links(r0.links, id@, ps.take(k as int)),
                    decreases n - k,
                {
                    assert(ps.take(k + 1).drop_last() =~= ps.take(k as int));
                    let p = &parents[k];
                    let mut lid = id.clone();
                    lid.append("~");
                    lid.append(p.as_str());
                    if !room.has_link(lid.as_str()) {
                        let link = Link::new(lid.as_str(), id.as_str(), p.as_str()).with_label(
                            "compõe-se de",
                        ).with_kind("compoe");
                        proof {
                            lemma_links_push(room.links@, link);
                        }
                        room.links.push(link);
                    }
                    k = k + 1;
                }
                assert(ps.take(n as int) =~= ps);
            },
            RoomEdit::SetViewport { pan_x, pan_y, zoom } => {
                if let Err(e) = finite(pan_x) {
                    return Err(e);
                }
                if let Err(e) = finite(pan_y) {
                    return Err(e);
                }
                let ok = (zoom >> 52u64) & 0x7ffu64 != 0x7ffu64 && zoom >> 63u64 == 0 && ZOOM_MIN
                    <= zoom && zoom <= ZOOM_MAX;
                if !ok {
                    return Err(EditError::InvalidZoom(zoom));
                }
                room.viewport = Viewport { pan_x, pan_y, zoom };
            },
            RoomEdit::SetPublished { published } => {
                room.published = published;
            },
        }
        Ok(())
    }
}

// ── Integrity ─────────────────────────────────────────────────────────────

/// A consistent room: element ids and link ids are unique, and every link
/// joins two different elements of the room.
pub open spec fn room_ok(r: RoomV) -> bool {
    &&& forall|i: int, j: int|
        0 <= i < j < r.elements.len() ==> (#[trigger] r.elements[i]).id != (
        #[trigger] r.elements[j]).id
    &&& forall|i: int, j: int|
        0 <= i < j < r.links.len() ==> (#[trigger] r.links[i]).id != (#[trigger] r.links[j]).id
    &&& forall|i: int|
        0 <= i < r.links.len() ==> {
            &&& has_elem(r.elements, (#[trigger] r.links[i]).from)
            &&& has_elem(r.elements, r.links[i].to)
            &&& r.links[i].from != r.links[i].to
        }
}

/// `x` is an item of `s` that passes `p`.
pub open spec fn drawn_from<T>(s: Seq<T>, p: spec_fn(T) -> bool, x: T) -> bool {
    exists|j: int| 0 <= j < s.len() && s[j] == x && p(x)
}

/// What `keep_where` keeps comes from the sequence and passes the test, and
/// everything that passes the test is kept.
pub proof fn lemma_keep_where_members<T>(s: Seq<T>, p: spec_fn(T) -> bool)
    ensures
        forall|i: int|
            0 <= i < keep_where(s, p).len() ==> drawn_from(s, p, #[trigger] keep_where(s, p)[i]),
        forall|j: int|
            0 <= j < s.len() && p(#[trigger] s[j]) ==> keep_where(s, p).contains(s[j]),
    decreases s.len(),
{
    if s.len() > 0 {
        let t = s.drop_last();
        lemma_keep_where_members(t, p);
        let k = keep_where(s, p);
        let kt = keep_where(t, p);
        assert forall|i: int| 0 <= i < k.len() implies drawn_from(s, p, #[trigger] k[i]) by {
            if i < kt.len() {
                assert(drawn_from(t, p, kt[i]));
                let j = choose|j: int| 0 <= j < t.len() && t[j] == kt[i] && p(kt[i]);
                assert(k[i] == kt[i]);
                assert(s[j] == t[j]);
            } else {
                assert(k[i] == s.last());
                assert(s[s.len() - 1] == k[i]);
            }
        }
        assert forall|j: int| 0 <= j < s.len() && p(#[trigger] s[j]) implies k.contains(s[j]) by {
            if j < t.len() {
                assert(t[j] == s[j]);
                let i = choose|i: int| 0 <= i < kt.len() && kt[i] == t[j];
                assert(k[i] == s[j]);
            } else {
                assert(k[k.len() - 1] == s[j]);
            }
        }
    }
}

/// Keeping some items of a sequence with unique keys keeps the keys unique.
pub proof fn lemma_keep_where_unique<T>(s: Seq<T>, p: spec_fn(T) -> bool, key: spec_fn(T) -> Seq<char>)
    requires
        forall|i: int, j: int| 0 <= i < j < s.len() ==> key(#[trigger] s[i]) != key(#[trigger] s[j]),
    ensures
        forall|i: int, j: int|
            0 <= i < j < keep_where(s, p).len() ==> key(#[trigger] keep_where(s, p)[i]) != key(
                #[trigger] keep_where(s, p)[j],
            ),
    decreases s.len(),
{
    if s.len() > 0 {
        let t = s.drop_last();
        lemma_keep_where_unique(t, p, key);
        lemma_keep_where_members(t, p);
        let k = keep_where(s, p);
        let kt = keep_where(t, p);
        assert forall|i: int, j: int| 0 <= i < j < k.len() implies key(#[trigger] k[i]) != key(
            #[trigger] k[j],
        ) by {
            if j >= kt.len() {
                assert(drawn_from(t, p, kt[i]));
                let jj = choose|jj: int| 0 <= jj < t.len() && t[jj] == kt[i] && p(kt[i]);
                assert(k[i] == kt[i]);
                assert(s[jj] == t[jj]);
                assert(k[j] == s[s.len() - 1]);
            } else {
                assert(k[i] == kt[i] && k[j] == kt[j]);
            }
        }
    }
}

/// An element survives a deletion of another id.
proof fn lemma_keep_elems_has(els: Seq<ElemV>, gone: Seq<char>, id: Seq<char>)
    requires
        has_elem(els, id),
        id != gone,
    ensures
        has_elem(keep_where(els, |e: ElemV| e.id != gone), id),
{
    let p = |e: ElemV| e.id != gone;
    lemma_keep_where_members(els, p);
    let j = choose|j: int| 0 <= j < els.len() && (#[trigger] els[j]).id == id;
    assert(p(els[j]));
    let k = keep_where(els, p);
    assert(k.contains(els[j]));
    let i = choose|i: int| 0 <= i < k.len() && k[i] == els[j];
    assert(k[i].id == id);
}

/// No parent is missing: each is an element.
proof fn lemma_no_missing_parent(els: Seq<ElemV>, ps: Seq<Seq<char>>, k: int)
    requires
        0 <= k,
        missing_parent(els, ps, k) is None,
    ensures
        forall|j: int| k <= j < ps.len() ==> has_elem(els, #[trigger] ps[j]),
    decreases ps.len() - k,
{
    if k < ps.len() {
        lemma_no_missing_parent(els, ps, k + 1);
    }
}

/// Adding composition links keeps link ids unique and ties each new link
/// from the new term to one of its parents.
proof fn lemma_compose_links(ls: Seq<LinkV>, id: Seq<char>, ps: Seq<Seq<char>>)
    requires
        forall|i: int, j: int| 0 <= i < j < ls.len() ==> (#[trigger] ls[i]).id != (#[trigger] ls[j]).id,
    ensures
        ls.len() <= with_compose_links(ls, id, ps).len(),
        forall|i: int| 0 <= i < ls.len() ==> #[trigger] with_compose_links(ls, id, ps)[i] == ls[i],
        forall|i: int, j: int|
            0 <= i < j < with_compose_links(ls, id, ps).len() ==> (#[trigger] with_compose_links(
                ls,
                id,
                ps,
            )[i]).id != (#[trigger] with_compose_links(ls, id, ps)[j]).id,
        forall|i: int|
            ls.len() <= i < with_compose_links(ls, id, ps).len() ==> (#[trigger] with_compose_links(
                ls,
                id,
                ps,
            )[i]).from == id && ps.contains(with_compose_links(ls, id, ps)[i].to),
    decreases ps.len(),
{
    if ps.len() > 0 {
        let t = ps.drop_last();
        lemma_compose_links(ls, id, t);
        let prev = with_compose_links(ls, id, t);
        let l = compose_link(id, ps.last());
        let w = with_compose_links(ls, id, ps);
        assert forall|i: int| ls.len() <= i < w.len() implies (#[trigger] w[i]).from == id
            && ps.contains(w[i].to) by {
            if i < prev.len() {
                assert(w[i] == prev[i]);
                let j = choose|j: int| 0 <= j < t.len() && t[j] == prev[i].to;
                assert(ps[j] == t[j]);
            } else {
                assert(w[i] == l);
                assert(ps[ps.len() - 1] == l.to);
            }
        }
        if !has_lnk(prev, l.id) {
            assert forall|i: int, j: int| 0 <= i < j < w.len() implies (#[trigger] w[i]).id != (
            #[trigger] w[j]).id by {
                if j == w.len() - 1 {
                    assert(w[i] == prev[i]);
                }
            }
        }
    }
}

/// Every accepted edit keeps a consistent room consistent: ids stay unique
/// and links only join existing, different elements (deleting an element
/// removes the links that touch it).
pub proof fn lemma_edit_keeps_room_ok(r: RoomV, op: RoomEdit)
    requires
        room_ok(r),
    ensures
        apply_spec(r, op) matches Ok(v) ==> room_ok(v),
{
    match op {
        RoomEdit::AddElement { element } => {
            if let Ok(v) = apply_spec(r, op) {
                assert forall|i: int| 0 <= i < v.links.len() implies has_elem(
                    v.elements,
                    (#[trigger] v.links[i]).from,
                ) && has_elem(v.elements, v.links[i].to) && v.links[i].from != v.links[i].to by {
                    let a = choose|a: int| 0 <= a < r.elements.len() && (#[trigger] r.elements[a]).id
                        == r.links[i].from;
                    let b = choose|b: int| 0 <= b < r.elements.len() && (#[trigger] r.elements[b]).id
                        == r.links[i].to;
                    assert(v.elements[a] == r.elements[a]);
                    assert(v.elements[b] == r.elements[b]);
                }
            }
        },
        RoomEdit::MoveElement { id, x, y } => {
            if let Ok(v) = apply_spec(r, op) {
                let k = elem_index(r.elements, id@, 0)->0;
                lemma_elem_index(r.elements, id@, 0);
                assert forall|i: int| 0 <= i < v.elements.len() implies (#[trigger] v.elements[i]).id
                    == r.elements[i].id by {}
                assert forall|i: int| 0 <= i < v.links.len() implies has_elem(
                    v.elements,
                    (#[trigger] v.links[i]).from,
                ) && has_elem(v.elements, v.links[i].to) by {
                    let a = choose|a: int| 0 <= a < r.elements.len() && (#[trigger] r.elements[a]).id
                        == r.links[i].from;
                    let b = choose|b: int| 0 <= b < r.elements.len() && (#[trigger] r.elements[b]).id
                        == r.links[i].to;
                    assert(v.elements[a].id == r.elements[a].id);
                    assert(v.elements[b].id == r.elements[b].id);
                }
            }
        },
        RoomEdit::EditElement { id, word, gloss, pronunciation, concept, icon } => {
            if let Ok(v) = apply_spec(r, op) {
                lemma_elem_index(r.elements, id@, 0);
                assert forall|i: int| 0 <= i < v.elements.len() implies (#[trigger] v.elements[i]).id
                    == r.elements[i].id by {}
                assert forall|i: int| 0 <= i < v.links.len() implies has_elem(
                    v.elements,
                    (#[trigger] v.links[i]).from,
                ) && has_elem(v.elements, v.links[i].to) by {
                    let a = choose|a: int| 0 <= a < r.elements.len() && (#[trigger] r.elements[a]).id
                        == r.links[i].from;
                    let b = choose|b: int| 0 <= b < r.elements.len() && (#[trigger] r.elements[b]).id
                        == r.links[i].to;
                    assert(v.elements[a].id == r.elements[a].id);
                    assert(v.elements[b].id == r.elements[b].id);
                }
            }
        },
        RoomEdit::DeleteElement { id } => {
            if let Ok(v) = apply_spec(r, op) {
                let pe = |e: ElemV| e.id != id@;
                let pl = |l: LinkV| l.from != id@ && l.to != id@;
                lemma_keep_where_unique(r.elements, pe, |e: ElemV| e.id);
                lemma_keep_where_unique(r.links, pl, |l: LinkV| l.id);
                lemma_keep_where_members(r.links, pl);
                assert forall|i: int| 0 <= i < v.links.len() implies has_elem(
                    v.elements,
                    (#[trigger] v.links[i]).from,
                ) && has_elem(v.elements, v.links[i].to) && v.links[i].from != v.links[i].to by {
                    assert(drawn_from(r.links, pl, v.links[i]));
                    let j = choose|j: int|
                        0 <= j < r.links.len() && r.links[j] == v.links[i] && pl(v.links[i]);
                    assert(r.links[j] == v.links[i]);
                    lemma_keep_elems_has(r.elements, id@, r.links[j].from);
                    lemma_keep_elems_has(r.elements, id@, r.links[j].to);
                }
            }
        },
        RoomEdit::AddLink { link } => {
            if let Ok(v) = apply_spec(r, op) {
            }
        },
        RoomEdit::DeleteLink { id } => {
            if let Ok(v) = apply_spec(r, op) {
                let pl = |l: LinkV| l.id != id@;
                lemma_keep_where_unique(r.links, pl, |l: LinkV| l.id);
                lemma_keep_where_members(r.links, pl);
                assert forall|i: int| 0 <= i < v.links.len() implies has_elem(
                    v.elements,
                    (#[trigger] v.links[i]).from,
                ) && has_elem(v.elements, v.links[i].to) && v.links[i].from != v.links[i].to by {
                    assert(drawn_from(r.links, pl, v.links[i]));
                    let j = choose|j: int|
                        0 <= j < r.links.len() && r.links[j] == v.links[i] && pl(v.links[i]);
                    assert(r.links[j] == v.links[i]);
                }
            }
        },
        RoomEdit::Compose { id, word, lang, x, y, parents } => {
            if let Ok(v) = apply_spec(r, op) {
                let ps = strings_view(parents@);
                lemma_no_missing_parent(r.elements, ps, 0);
                lemma_compose_links(r.links, id@, ps);
                let n = r.elements.len();
                assert(v.elements[n as int].id == id@);
                assert forall|i: int| 0 <= i < v.links.len() implies has_elem(
                    v.elements,
                    (#[trigger] v.links[i]).from,
                ) && has_elem(v.elements, v.links[i].to) && v.links[i].from != v.links[i].to by {
                    if i < r.links.len() {
                        assert(v.links[i] == r.links[i]);
                        let a = choose|a: int| 0 <= a < r.elements.len() && (
                        #[trigger] r.elements[a]).id == r.links[i].from;
                        let b = choose|b: int| 0 <= b < r.elements.len() && (
                        #[trigger] r.elements[b]).id == r.links[i].to;
                        assert(v.elements[a] == r.elements[a]);
                        assert(v.elements[b] == r.elements[b]);
                    } else {
                        assert(v.links[i].from == id@);
                        let j = choose|j: int| 0 <= j < ps.len() && ps[j] == v.links[i].to;
                        assert(has_elem(r.elements, ps[j]));
                        let b = choose|b: int| 0 <= b < r.elements.len() && (
                        #[trigger] r.elements[b]).id == ps[j];
                        assert(v.elements[b] == r.elements[b]);
                        assert(v.elements[n as int].id == id@);
                    }
                }
            }
        },
        RoomEdit::SetViewport { pan_x, pan_y, zoom } => {},
        RoomEdit::SetPublished { published } => {},
    }
}

// ── Whole-number coordinates ──────────────────────────────────────────────

/// 2 to the power `e`.
pub open spec fn two_to(e: nat) -> nat
    decreases e,
{
    if e == 0 {
        1
    } else {
        2 * two_to((e - 1) as nat)
    }
}

/// The position of the highest set bit of `a` (for `a` ≥ 1).
pub open spec fn top_bit(a: nat) -> nat
    decreases a,
{
    if a <= 1 {
        0
    } else {
        1 + top_bit(a / 2)
    }
}

/// The binary64 encoding of a whole number below 2^53 in size: sign bit,
/// biased exponent of its top bit, and the bits below the top one as the
/// fraction.
pub open spec fn whole_bits(v: int) -> u64 {
    if v == 0 {
        0
    } else {
        let a: nat = if v < 0 { (-v) as nat } else { v as nat };
        let e = top_bit(a);
        ((if v < 0 { two_to(63) } else { 0 }) + (1023 + e) * two_to(52) + (a - two_to(e))
            * two_to((52 - e) as nat)) as u64
    }
}

proof fn lemma_two_to_grows(e: nat)
    ensures
        two_to(e + 1) == 2 * two_to(e),
        two_to(e) >= 1,
    decreases e,
{
    if e > 0 {
        lemma_two_to_grows((e - 1) as nat);
    }
}

/// A number from 2^e up to 2^(e+1) has its top bit at e.
proof fn lemma_top_bit(a: nat, e: nat)
    requires
        two_to(e) <= a < two_to(e + 1),
    ensures
        top_bit(a) == e,
    decreases e,
{
    lemma_two_to_grows(e);
    if e > 0 {
        lemma_two_to_grows((e - 1) as nat);
        lemma_top_bit(a / 2, (e - 1) as nat);
    }
}

/// The binary64 bits of a whole number (world coordinates are whole
/// numbers in the seed templates).
pub fn coord(v: i32) -> (b: u64)
    ensures
        b == whole_bits(v as int),
{
    if v == 0 {
        return 0;
    }
    let neg = v < 0;
    let a: u64 = if neg {
        (0i64 - v as i64) as u64
    } else {
        v as u64
    };
    let ghost an: nat = a as nat;
    let mut e: u64 = 0;
    let mut p: u64 = 1;
    while p <= a / 2
        invariant
            1 <= a <= 0x8000_0000,
            p as nat == two_to(e as nat),
            1 <= p <= a,
            e <= 31,
        decreases a - p,
    {
        proof {
            lemma_two_to_grows(e as nat);
            assert(e < 31) by {
                if e == 31 {
                    lemma_two_to_31();
                }
            }
        }
        p = p * 2;
        e = e + 1;
    }
    proof {
        lemma_two_to_grows(e as nat);
        lemma_top_bit(an, e as nat);
    }
    let mut s: u64 = 1;
    let mut k: u64 = e;
    while k < 52
        invariant
            e <= k <= 52,
            s as nat == two_to((k - e) as nat),
            1 <= s <= 0x10_0000_0000_0000,
            p as nat == two_to(e as nat),
            p as nat * s as nat == two_to(k as nat),
        decreases 52 - k,
    {
        proof {
            lemma_two_to_grows((k - e) as nat);
            lemma_two_to_grows(k as nat);
            assert(p as nat * (s as nat * 2) == two_to(k as nat) * 2) by (nonlinear_arith)
                requires
                    p as nat * s as nat == two_to(k as nat),
            ;
            lemma_two_to_le((k + 1 - e) as nat, 52);
            lemma_two_to_52();
        }
        s = s * 2;
        k = k + 1;
    }
    proof {
        lemma_two_to_52();
        lemma_two_to_63();
        assert((a - p) * s < p * s) by (nonlinear_arith)
            requires
                a < 2 * p,
                p <= a,
                s >= 1,
        ;
    }
    let frac = (a - p) * s;
    let expo = (1023 + e) * 0x10_0000_0000_0000;
    let sign: u64 = if neg {
        0x8000_0000_0000_0000
    } else {
        0
    };
    sign + expo + frac
}

proof fn lemma_two_to_le(a: nat, b: nat)
    requires
        a <= b,
    ensures
        two_to(a) <= two_to(b),
    decreases b - a,
{
    if a < b {
        lemma_two_to_le(a, (b - 1) as nat);
        lemma_two_to_grows((b - 1) as nat);
    }
}

proof fn lemma_two_to_31()
    ensures
        two_to(31) == 0x8000_0000,
{
    reveal_with_fuel(two_to, 32);
}

proof fn lemma_two_to_52()
    ensures
        two_to(52) == 0x10_0000_0000_0000,
{
    reveal_with_fuel(two_to, 53);
}

proof fn lemma_two_to_63()
    ensures
        two_to(63) == 0x8000_0000_0000_0000,
{
    reveal_with_fuel(two_to, 64);
}

/// An edit of an element's text writes each field it gives and nothing
/// else: it is refused exactly when no element has the id, or when the new
/// word is blank; otherwise the first element with that id gets the given
/// word, gloss, pronunciation, concept and icon, keeps the fields the edit
/// leaves out, its id, place, language, references and lexicon tie, and every
/// other element and the rest of the room stay as they were.
pub proof fn lemma_edit_element_writes_given_fields(
    r: RoomV,
    id: String,
    word: Option<String>,
    gloss: Option<String>,
    pronunciation: Option<String>,
    concept: Option<String>,
    icon: Option<String>,
)
    ensures
        ({
            let op = RoomEdit::EditElement { id, word, gloss, pronunciation, concept, icon };
            match apply_spec(r, op) {
                Err(_) => elem_index(r.elements, id@, 0) is None || (word matches Some(w) && blank(w@)),
                Ok(v) => {
                    let i = elem_index(r.elements, id@, 0)->0;
                    let e = r.elements[i];
                    let f = v.elements[i];
                    &&& elem_index(r.elements, id@, 0) is Some
                    &&& 0 <= i < r.elements.len()
                    &&& e.id == id@
                    &&& v.elements.len() == r.elements.len()
                    &&& forall|j: int| 0 <= j < r.elements.len() && j != i ==> v.elements[j] == r.elements[j]
                    &&& (word matches Some(w) ==> f.word == w@ && !blank(w@))
                    &&& (word is None ==> f.word == e.word)
                    &&& (gloss matches Some(g) ==> f.gloss == Some(g@))
                    &&& (gloss is None ==> f.gloss == e.gloss)
                    &&& (pronunciation matches Some(p) ==> f.pronunciation == Some(p@))
                    &&& (pronunciation is None ==> f.pronunciation == e.pronunciation)
                    &&& (concept matches Some(c) ==> f.concept == Some(c@))
                    &&& (concept is None ==> f.concept == e.concept)
                    &&& (icon matches Some(k) ==> f.icon == Some(k@))
                    &&& (icon is None ==> f.icon == e.icon)
                    &&& f.id == e.id && f.x == e.x && f.y == e.y && f.lang == e.lang
                    &&& f.refs == e.refs && f.lexicon == e.lexicon
                    &&& v.links == r.links && v.id == r.id && v.owner == r.owner && v.title == r.title
                    &&& v.published == r.published && v.viewport == r.viewport
                },
            }
        }),
{
    lemma_elem_index(r.elements, id@, 0);
}

/// Moving an element changes only its place: it is refused exactly for a
/// coordinate that is not finite or an id no element has; otherwise the
/// first element with the id stands at the new coordinates and nothing else
/// of the room changes.
pub proof fn lemma_move_element_sets_place(r: RoomV, id: String, x: u64, y: u64)
    ensures
        ({
            let op = RoomEdit::MoveElement { id, x, y };
            match apply_spec(r, op) {
                Err(_) => !finite_bits(x) || !finite_bits(y) || !has_elem(r.elements, id@),
                Ok(v) => {
                    let i = elem_index(r.elements, id@, 0)->0;
                    &&& 0 <= i < r.elements.len() && r.elements[i].id == id@
                    &&& v.elements == r.elements.update(i, ElemV { x, y, ..r.elements[i] })
                    &&& v.links == r.links
                },
            }
        }),
{
    lemma_elem_index(r.elements, id@, 0);
}

/// Deleting an element takes out every element with its id and every link
/// that touches it, and keeps every other element and link: it is refused
/// exactly when no element has the id.
pub proof fn lemma_delete_element_removes_it(r: RoomV, id: String)
    ensures
        ({
            let op = RoomEdit::DeleteElement { id };
            match apply_spec(r, op) {
                Err(_) => !has_elem(r.elements, id@),
                Ok(v) => {
                    &&& has_elem(r.elements, id@)
                    &&& !has_elem(v.elements, id@)
                    &&& forall|j: int|
                        0 <= j < r.elements.len() && (#[trigger] r.elements[j]).id != id@
                            ==> v.elements.contains(r.elements[j])
                    &&& forall|k: int|
                        0 <= k < v.elements.len() ==> r.elements.contains(#[trigger] v.elements[k])
                    &&& forall|k: int|
                        0 <= k < v.links.len() ==> (#[trigger] v.links[k]).from != id@ && v.links[k].to
                            != id@ && r.links.contains(v.links[k])
                    &&& forall|j: int|
                        0 <= j < r.links.len() && (#[trigger] r.links[j]).from != id@ && r.links[j].to
                            != id@ ==> v.links.contains(r.links[j])
                },
            }
        }),
{
    let pe = |e: ElemV| e.id != id@;
    let pl = |l: LinkV| l.from != id@ && l.to != id@;
    lemma_keep_where_members(r.elements, pe);
    lemma_keep_where_members(r.links, pl);
    if let Ok(v) = apply_spec(r, RoomEdit::DeleteElement { id }) {
        assert(v.elements == keep_where(r.elements, pe));
        assert(v.links == keep_where(r.links, pl));
        assert forall|k: int| 0 <= k < v.elements.len() implies r.elements.contains(
            #[trigger] v.elements[k],
        ) && v.elements[k].id != id@ by {
            assert(drawn_from(r.elements, pe, v.elements[k]));
        }
        assert forall|k: int| 0 <= k < v.links.len() implies (#[trigger] v.links[k]).from != id@
            && v.links[k].to != id@ && r.links.contains(v.links[k]) by {
            assert(drawn_from(r.links, pl, v.links[k]));
        }
        assert forall|j: int|
            0 <= j < r.elements.len() && (#[trigger] r.elements[j]).id != id@ implies v.elements.contains(
            r.elements[j],
        ) by {
            assert(pe(r.elements[j]));
        }
        assert forall|j: int|
            0 <= j < r.links.len() && (#[trigger] r.links[j]).from != id@ && r.links[j].to != id@ implies v.links.contains(
            r.links[j],
        ) by {
            assert(pl(r.links[j]));
        }
        if has_elem(v.elements, id@) {
            let k = choose|k: int| 0 <= k < v.elements.len() && (#[trigger] v.elements[k]).id == id@;
            assert(drawn_from(r.elements, pe, v.elements[k]));
        }
    }
}

} // verus!


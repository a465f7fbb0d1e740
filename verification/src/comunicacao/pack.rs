//! Lexicon packs: the vocabulary of any symbol system (a language, music, a
//! domain), whose entries may sound. Here stand the pack's kinds, the
//! oscillator shapes, the relations between entries, the listing summary, and
//! the reading of note names (`A4`, `C#5`, `Eb3`) as MIDI note numbers.
use vstd::prelude::*;
use vstd::string::*;
use crate::text::str_chars;

verus! {

/// How many pack entries a client keeps in memory before it drops the least
/// recently used.
pub const MAX_RESIDENT_ENTRIES: usize = 256;

/// The kind of symbol system a pack describes.
#[derive(Debug, Clone, Copy, PartialEq, Eq, Structural)]
pub enum PackKind {
    /// A natural language; its audio is pronunciation.
    Language,
    /// Music; its audio is the note or chord itself.
    Music,
    /// Any other domain.
    Domain,
}

/// The oscillator's wave shape.
#[derive(Debug, Clone, Copy, PartialEq, Eq, Structural)]
pub enum Waveform {
    Sine,
    Square,
    Sawtooth,
    Triangle,
}

/// A relation from an entry to another entry of the same pack, by term.
#[derive(Debug, Clone, PartialEq)]
pub struct Relation {
    pub to: String,
    pub label: Option<String>,
}

impl Relation {
    /// A relation to `to` labelled `label`.
    pub fn new(to: &str, label: &str) -> (r: Self)
        ensures
            r.to@ == to@,
            r.label matches Some(l) && l@ == label@,
    {
        Relation { to: to.to_string(), label: Some(label.to_string()) }
    }
}

/// How an entry is pronounced: the text to speak, an optional IPA
/// transcription to show, and the language.
#[derive(Debug, Clone, PartialEq)]
pub struct SpeechSpec {
    pub text: String,
    pub ipa: Option<String>,
    pub lang: String,
}

/// A pack as listed, without its entries.
#[derive(Debug, Clone, PartialEq)]
pub struct PackSummary {
    pub id: String,
    pub kind: PackKind,
    pub title: String,
    pub theme: String,
    /// How many entries the pack has.
    pub entries: usize,
}

/// Semitones above C of a note letter, either case.
pub open spec fn letter_semitone(c: char) -> Option<int> {
    if c == 'C' || c == 'c' {
        Some(0)
    } else if c == 'D' || c == 'd' {
        Some(2)
    } else if c == 'E' || c == 'e' {
        Some(4)
    } else if c == 'F' || c == 'f' {
        Some(5)
    } else if c == 'G' || c == 'g' {
        Some(7)
    } else if c == 'A' || c == 'a' {
        Some(9)
    } else if c == 'B' || c == 'b' {
        Some(11)
    } else {
        None
    }
}

/// Reads the accidentals from position `i` on (`#` raises a semitone, `b`
/// lowers one): the position after them and the semitones reached.
pub open spec fn accidentals(s: Seq<char>, i: int, semis: int) -> (int, int)
    decreases s.len() - i,
{
    if 0 <= i < s.len() && s[i] == '#' {
        accidentals(s, i + 1, semis + 1)
    } else if 0 <= i < s.len() && s[i] == 'b' {
        accidentals(s, i + 1, semis - 1)
    } else {
        (i, semis)
    }
}

/// The value of a string of decimal digits.
pub open spec fn digits_value(d: Seq<char>) -> int
    decreases d.len(),
{
    if d.len() == 0 {
        0
    } else {
        10 * digits_value(d.drop_last()) + (d.last() as int - 48)
    }
}

/// Every character is a decimal digit.
pub open spec fn all_digits(d: Seq<char>) -> bool {
    forall|i: int| 0 <= i < d.len() ==> '0' <= #[trigger] d[i] <= '9'
}

/// What `str::parse::<i32>` gives: an optional `+` or `-`, then at least one
/// digit and nothing else, within the range of `i32`.
pub open spec fn parse_i32(s: Seq<char>) -> Option<int> {
    let neg = s.len() > 0 && s[0] == '-';
    let signed = s.len() > 0 && (s[0] == '-' || s[0] == '+');
    let d = if signed {
        s.drop_first()
    } else {
        s
    };
    let v = if neg {
        -digits_value(d)
    } else {
        digits_value(d)
    };
    if d.len() == 0 || !all_digits(d) || v < i32::MIN || v > i32::MAX {
        None
    } else {
        Some(v)
    }
}

/// The semitone above C and the octave that a note name gives.
pub open spec fn note_parts(s: Seq<char>) -> Option<(int, int)> {
    if s.len() == 0 {
        None
    } else {
        match letter_semitone(s[0]) {
            None => None,
            Some(base) => {
                let (i, semis) = accidentals(s, 1, base);
                match parse_i32(s.subrange(i, s.len() as int)) {
                    None => None,
                    Some(oct) => Some((semis, oct)),
                }
            },
        }
    }
}

/// The MIDI number of a note name (C4 = 60, A4 = 69).
pub open spec fn note_midi_of(s: Seq<char>) -> Option<int> {
    match note_parts(s) {
        None => None,
        Some((semis, oct)) => Some((oct + 1) * 12 + semis),
    }
}

proof fn lemma_accidentals_bounds(s: Seq<char>, i: int, semis: int)
    requires
        1 <= i <= s.len(),
    ensures
        i <= accidentals(s, i, semis).0 <= s.len(),
        semis - (accidentals(s, i, semis).0 - i) <= accidentals(s, i, semis).1 <= semis + (
        accidentals(s, i, semis).0 - i),
    decreases s.len() - i,
{
    if i < s.len() && (s[i] == '#' || s[i] == 'b') {
        lemma_accidentals_bounds(s, i + 1, if s[i] == '#' {
            semis + 1
        } else {
            semis - 1
        });
    }
}

/// Parses `d[from..]` as [`parse_i32`] does.
fn parse_i32_exec(d: &Vec<char>, from: usize) -> (r: Option<i32>)
    requires
        from <= d@.len(),
    ensures
        r matches Some(v) ==> parse_i32(d@.subrange(from as int, d@.len() as int)) == Some(v as int),
        r is None ==> parse_i32(d@.subrange(from as int, d@.len() as int)) is None,
{
    let ghost s = d@.subrange(from as int, d@.len() as int);
    let n = d.len();
    let mut i = from;
    let mut neg = false;
    if i < n && (d[i] == '-' || d[i] == '+') {
        neg = d[i] == '-';
        i = i + 1;
    }
    let ghost ds = d@.subrange(i as int, n as int);
    proof {
        if from < n && (d@[from as int] == '-' || d@[from as int] == '+') {
            assert(ds =~= s.drop_first());
        } else {
            assert(ds =~= s);
        }
        assert(neg == (s.len() > 0 && s[0] == '-'));
    }
    if i == n {
        return None;
    }
    let start = i;
    let mut v: i64 = 0;
    proof {
        assert(d@.subrange(start as int, start as int) =~= Seq::<char>::empty());
    }
    while i < n
        invariant
            start <= i <= n,
            n == d@.len(),
            all_digits(d@.subrange(start as int, i as int)),
            v == digits_value(d@.subrange(start as int, i as int)),
            0 <= v <= 2147483648,
            ds == d@.subrange(start as int, n as int),
            s == d@.subrange(from as int, n as int),
            neg == (s.len() > 0 && s[0] == '-'),
            ds == (if s.len() > 0 && (s[0] == '-' || s[0] == '+') {
                s.drop_first()
            } else {
                s
            }),
            ds.len() > 0,
        decreases n - i,
    {
        let c = d[i];
        if c < '0' || c > '9' {
            proof {
                assert(ds[i - start] == c);
                assert(!all_digits(ds));
            }
            return None;
        }
        let dv = (c as u32 - 48) as i64;
        let nv = v * 10 + dv;
        proof {
            let p = d@.subrange(start as int, i + 1);
            assert(p.drop_last() =~= d@.subrange(start as int, i as int));
            assert forall|k: int| 0 <= k < p.len() implies '0' <= #[trigger] p[k] <= '9' by {
                if k < p.len() - 1 {
                    assert(p[k] == d@.subrange(start as int, i as int)[k]);
                }
            }
            assert(digits_value(p) == nv);
        }
        if nv > 2147483648 {
            proof {
                lemma_digits_grow(d@, start as int, i + 1, n as int);
                assert(d@.subrange(start as int, n as int) =~= ds);
            }
            return None;
        }
        v = nv;
        i = i + 1;
    }
    proof {
        assert(d@.subrange(start as int, n as int) =~= ds);
    }
    if neg {
        Some((0 - v) as i32)
    } else if v > 2147483647 {
        None
    } else {
        Some(v as i32)
    }
}

proof fn lemma_digits_grow(d: Seq<char>, start: int, i: int, j: int)
    requires
        0 <= start <= i <= j <= d.len(),
        all_digits(d.subrange(start, i)),
    ensures
        all_digits(d.subrange(start, j)) ==> digits_value(d.subrange(start, j)) >= digits_value(
            d.subrange(start, i),
        ),
    decreases j - i,
{
    if i < j && all_digits(d.subrange(start, j)) {
        assert(d.subrange(start, j - 1) =~= d.subrange(start, j).drop_last());
        assert forall|k: int| 0 <= k < j - 1 - start implies '0' <= #[trigger] d.subrange(start, j - 1)[k]
            <= '9' by {
            assert(d.subrange(start, j - 1)[k] == d.subrange(start, j)[k]);
        }
        lemma_digits_grow(d, start, i, j - 1);
        assert(d.subrange(start, j)[j - 1 - start] == d[j - 1]);
        lemma_digits_nonneg(d.subrange(start, j - 1));
    }
}

proof fn lemma_digits_nonneg(d: Seq<char>)
    requires
        all_digits(d),
    ensures
        digits_value(d) >= 0,
    decreases d.len(),
{
    if d.len() > 0 {
        assert forall|k: int| 0 <= k < d.len() - 1 implies '0' <= #[trigger] d.drop_last()[k] <= '9' by {
            assert(d.drop_last()[k] == d[k]);
        }
        lemma_digits_nonneg(d.drop_last());
        assert('0' <= d[d.len() - 1] <= '9');
    }
}

/// The semitone and the octave of a note name (see [`note_parts`]).
fn note_parts_exec(name: &str) -> (r: Option<(i64, i32)>)
    requires
        name@.len() <= 0x4000_0000,
    ensures
        match r {
            Some((semis, oct)) => note_parts(name@) == Some((semis as int, oct as int)),
            None => note_parts(name@) is None,
        },
        r matches Some((semis, oct)) ==> -0x4000_0000 <= semis <= 0x4000_0000 + 11,
{
    let cs = str_chars(name);
    if cs.len() == 0 {
        return None;
    }
    let c0 = cs[0];
    let base: i64 = if c0 == 'C' || c0 == 'c' {
        0
    } else if c0 == 'D' || c0 == 'd' {
        2
    } else if c0 == 'E' || c0 == 'e' {
        4
    } else if c0 == 'F' || c0 == 'f' {
        5
    } else if c0 == 'G' || c0 == 'g' {
        7
    } else if c0 == 'A' || c0 == 'a' {
        9
    } else if c0 == 'B' || c0 == 'b' {
        11
    } else {
        return None;
    };
    let mut i: usize = 1;
    let mut semis: i64 = base;
    proof {
        lemma_accidentals_bounds(cs@, 1, base as int);
    }
    while i < cs.len() && (cs[i] == '#' || cs[i] == 'b')
        invariant
            1 <= i <= cs@.len(),
            cs@ == name@,
            cs@.len() <= 0x4000_0000,
            0 <= base <= 11,
            base - (i - 1) <= semis <= base + (i - 1),
            accidentals(cs@, 1, base as int) == accidentals(cs@, i as int, semis as int),
        decreases cs@.len() - i,
    {
        if cs[i] == '#' {
            semis = semis + 1;
        } else {
            semis = semis - 1;
        }
        i = i + 1;
    }
    match parse_i32_exec(&cs, i) {
        None => None,
        Some(o) => Some((semis, o)),
    }
}

/// The MIDI number of a note name such as `A4` (69), `C#5` or `Eb3`: a
/// letter `A`–`G` of either case, any run of `#` (up a semitone) and `b`
/// (down one), then the octave as an `i32`; `None` for anything else.
pub fn note_midi(name: &str) -> (r: Option<i32>)
    requires
        name@.len() <= 0x4000_0000,
        note_midi_of(name@) matches Some(m) ==> i32::MIN <= m <= i32::MAX,
    ensures
        r matches Some(m) ==> note_midi_of(name@) == Some(m as int),
        r is None ==> note_midi_of(name@) is None,
{
    match note_parts_exec(name) {
        None => None,
        Some((semis, o)) => {
            let m: i64 = (o as i64 + 1) * 12 + semis;
            Some(m as i32)
        },
    }
}

/// A note name whose pitch arithmetic stays within `i32`: the octave plus
/// one, times twelve, plus the semitone, and that less 69 (A4); names that
/// are no notes always do.
pub open spec fn note_midi_in_range(s: Seq<char>) -> bool {
    match note_parts(s) {
        None => true,
        Some((semis, oct)) => {
            &&& oct + 1 <= i32::MAX
            &&& i32::MIN <= (oct + 1) * 12 <= i32::MAX
            &&& i32::MIN <= (oct + 1) * 12 + semis <= i32::MAX
            &&& i32::MIN <= (oct + 1) * 12 + semis - 69
        },
    }
}

/// Whether [`note_midi`] can read `name` and its pitch arithmetic stays
/// within `i32` (see [`note_midi_in_range`]).
pub fn note_midi_fits(name: &str) -> (r: bool)
    ensures
        r == (name@.len() <= 0x4000_0000 && note_midi_in_range(name@)),
{
    if name.unicode_len() > 0x4000_0000 {
        return false;
    }
    match note_parts_exec(name) {
        None => true,
        Some((semis, o)) => {
            let k: i64 = o as i64 + 1;
            let t: i64 = k * 12;
            let m: i64 = t + semis;
            k <= i32::MAX as i64 && i32::MIN as i64 <= t && t <= i32::MAX as i64 && i32::MIN as i64
                <= m && m <= i32::MAX as i64 && i32::MIN as i64 <= m - 69
        },
    }
}

/// A note name that [`note_midi`] reads within `i32`.
pub open spec fn name_fits(n: Seq<char>) -> bool {
    n.len() <= 0x4000_0000 && note_midi_in_range(n)
}

/// The note names of a pack file's audio, before they are read.
#[derive(Debug)]
pub enum NoteSpec {
    /// One note.
    Note(String),
    /// Notes sounding together.
    Chord(Vec<String>),
    /// The steps of a sequence: each step's chord, or `None` for a step
    /// given by its frequencies.
    Sequence(Vec<Option<Vec<String>>>),
}

/// The MIDI numbers of a pack file's audio.
#[derive(Debug, PartialEq, Eq)]
pub enum ResolvedNotes {
    Note(i32),
    Chord(Vec<i32>),
    /// Each step's notes (those of its names that are notes, in order), or
    /// `None` for a step given by its frequencies.
    Sequence(Vec<Option<Vec<i32>>>),
}

pub open spec fn name_views(v: Seq<String>) -> Seq<Seq<char>> {
    v.map_values(|n: String| n@)
}

pub open spec fn midi_ints(v: Seq<i32>) -> Seq<int> {
    v.map_values(|m: i32| m as int)
}

/// The MIDI numbers of those names that are notes, in order.
pub open spec fn valid_midis(names: Seq<Seq<char>>) -> Seq<int>
    decreases names.len(),
{
    if names.len() == 0 {
        seq![]
    } else {
        valid_midis(names.drop_last()) + match note_midi_of(names.last()) {
            Some(m) => seq![m],
            None => seq![],
        }
    }
}

/// The first name from `i` on that is no note.
pub open spec fn first_invalid(names: Seq<Seq<char>>, i: int) -> Option<int>
    decreases names.len() - i,
{
    if i < 0 || i >= names.len() {
        None
    } else if note_midi_of(names[i]) is None {
        Some(i)
    } else {
        first_invalid(names, i + 1)
    }
}

proof fn lemma_first_invalid_from(names: Seq<Seq<char>>, i: int)
    requires
        0 <= i,
    ensures
        first_invalid(names, i) is None <==> forall|j: int|
            i <= j < names.len() ==> note_midi_of(#[trigger] names[j]) is Some,
        first_invalid(names, i) matches Some(k) ==> i <= k < names.len() && note_midi_of(names[k]) is None
            && forall|j: int| i <= j < k ==> note_midi_of(#[trigger] names[j]) is Some,
    decreases names.len() - i,
{
    if i < names.len() {
        lemma_first_invalid_from(names, i + 1);
    }
}

proof fn lemma_valid_midis_all(names: Seq<Seq<char>>)
    requires
        forall|j: int| 0 <= j < names.len() ==> note_midi_of(#[trigger] names[j]) is Some,
    ensures
        valid_midis(names) == names.map_values(|n: Seq<char>| note_midi_of(n).unwrap()),
    decreases names.len(),
{
    if names.len() > 0 {
        let init = names.drop_last();
        assert forall|j: int| 0 <= j < init.len() implies note_midi_of(#[trigger] init[j]) is Some by {
            assert(init[j] == names[j]);
        }
        lemma_valid_midis_all(init);
        assert(note_midi_of(names.last()) is Some) by {
            assert(names.last() == names[names.len() - 1]);
        }
        assert(names.map_values(|n: Seq<char>| note_midi_of(n).unwrap()) =~= init.map_values(
            |n: Seq<char>| note_midi_of(n).unwrap(),
        ).push(note_midi_of(names.last()).unwrap()));
    }
}

/// A chord is read exactly when every one of its names is a note, and then
/// its numbers are those of its names, in order; otherwise the name that
/// fails is the first one that is no note.
pub proof fn lemma_chord_reads_all_notes(names: Seq<Seq<char>>)
    ensures
        first_invalid(names, 0) is None <==> forall|j: int|
            0 <= j < names.len() ==> note_midi_of(#[trigger] names[j]) is Some,
        first_invalid(names, 0) is None ==> valid_midis(names) == names.map_values(
            |n: Seq<char>| note_midi_of(n).unwrap(),
        ),
        first_invalid(names, 0) matches Some(k) ==> 0 <= k < names.len() && note_midi_of(names[k]) is None
            && forall|j: int| 0 <= j < k ==> note_midi_of(#[trigger] names[j]) is Some,
{
    lemma_first_invalid_from(names, 0);
    if first_invalid(names, 0) is None {
        lemma_valid_midis_all(names);
    }
}

/// Every name is read within `i32`.
pub open spec fn all_fit(names: Seq<Seq<char>>) -> bool {
    forall|i: int| 0 <= i < names.len() ==> name_fits(#[trigger] names[i])
}

/// Every name that reading a chord reaches (up to its first name that is no
/// note) is read within `i32`.
pub open spec fn chord_fits(names: Seq<Seq<char>>) -> bool {
    forall|i: int|
        0 <= i < names.len() && (forall|j: int| 0 <= j < i ==> note_midi_of(names[j]) is Some)
            ==> name_fits(#[trigger] names[i])
}

/// The names of a pack file's audio that reading it reaches are read within
/// `i32`.
pub open spec fn spec_fits(a: NoteSpec) -> bool {
    match a {
        NoteSpec::Note(n) => name_fits(n@),
        NoteSpec::Chord(ns) => chord_fits(name_views(ns@)),
        NoteSpec::Sequence(steps) => forall|i: int|
            0 <= i < steps@.len() ==> match #[trigger] steps@[i] {
                Some(ns) => all_fit(name_views(ns@)),
                None => true,
            },
    }
}

fn midis_of(names: &Vec<String>) -> (r: Vec<i32>)
    requires
        all_fit(name_views(names@)),
    ensures
        midi_ints(r@) == valid_midis(name_views(names@)),
{
    let ghost nv = name_views(names@);
    let mut r: Vec<i32> = Vec::new();
    let mut i: usize = 0;
    while i < names.len()
        invariant
            nv == name_views(names@),
            all_fit(nv),
            i <= names@.len(),
            midi_ints(r@) == valid_midis(nv.take(i as int)),
        decreases names@.len() - i,
    {
        assert(nv.take(i + 1).drop_last() =~= nv.take(i as int));
        assert(nv.take(i + 1).last() == names@[i as int]@);
        assert(name_fits(nv[i as int]));
        match note_midi(names[i].as_str()) {
            Some(m) => {
                r.push(m);
            },
            None => {},
        }
        assert(midi_ints(r@) =~= valid_midis(nv.take(i + 1)));
        i = i + 1;
    }
    assert(nv.take(names@.len() as int) =~= nv);
    r
}

fn chord_midis(ns: &Vec<String>) -> (r: Result<Vec<i32>, String>)
    requires
        chord_fits(name_views(ns@)),
    ensures
        match first_invalid(name_views(ns@), 0) {
            Some(i) => r matches Err(e) && e@ == ns@[i]@,
            None => r matches Ok(v) && midi_ints(v@) == valid_midis(name_views(ns@)),
        },
{
    let ghost nv = name_views(ns@);
    let mut out: Vec<i32> = Vec::new();
    let mut i: usize = 0;
    while i < ns.len()
        invariant
            nv == name_views(ns@),
            chord_fits(nv),
            i <= ns@.len(),
            forall|j: int| 0 <= j < i ==> note_midi_of(#[trigger] nv[j]) is Some,
            first_invalid(nv, 0) == first_invalid(nv, i as int),
            midi_ints(out@) == valid_midis(nv.take(i as int)),
        decreases ns@.len() - i,
    {
        assert(name_fits(nv[i as int]));
        assert(nv.take(i + 1).drop_last() =~= nv.take(i as int));
        assert(nv.take(i + 1).last() == nv[i as int]);
        assert(nv[i as int] == ns@[i as int]@);
        match note_midi(ns[i].as_str()) {
            Some(m) => {
                out.push(m);
                assert(midi_ints(out@) =~= valid_midis(nv.take(i + 1)));
                assert(first_invalid(nv, i as int) == first_invalid(nv, i + 1));
            },
            None => {
                assert(first_invalid(nv, i as int) == Some(i as int));
                let e = ns[i].clone();
                return Err(e);
            },
        }
        i = i + 1;
    }
    assert(first_invalid(nv, i as int) is None);
    assert(nv.take(ns@.len() as int) =~= nv);
    Ok(out)
}

/// Reads the note names of a pack file's audio: a note or a chord fails on
/// its first name that is no note (giving that name); a sequence step keeps
/// the names that are notes.
pub fn resolve_notes(a: &NoteSpec) -> (r: Result<ResolvedNotes, String>)
    requires
        spec_fits(*a),
    ensures
        match *a {
            NoteSpec::Note(n) => match note_midi_of(n@) {
                Some(m) => r matches Ok(ResolvedNotes::Note(x)) && x == m,
                None => r matches Err(e) && e@ == n@,
            },
            NoteSpec::Chord(ns) => match first_invalid(name_views(ns@), 0) {
                Some(i) => r matches Err(e) && e@ == ns@[i]@,
                None => r matches Ok(ResolvedNotes::Chord(v)) && midi_ints(v@) == valid_midis(
                    name_views(ns@),
                ),
            },
            NoteSpec::Sequence(steps) => r matches Ok(ResolvedNotes::Sequence(v)) && v@.len()
                == steps@.len() && forall|i: int|
                0 <= i < steps@.len() ==> match #[trigger] steps@[i] {
                    Some(ns) => v@[i] matches Some(ms) && midi_ints(ms@) == valid_midis(
                        name_views(ns@),
                    ),
                    None => v@[i] is None,
                },
        },
{
    match a {
        NoteSpec::Note(n) => match note_midi(n.as_str()) {
            Some(m) => Ok(ResolvedNotes::Note(m)),
            None => Err(n.clone()),
        },
        NoteSpec::Chord(ns) => match chord_midis(ns) {
            Ok(v) => Ok(ResolvedNotes::Chord(v)),
            Err(e) => Err(e),
        },
        NoteSpec::Sequence(steps) => {
            let mut out: Vec<Option<Vec<i32>>> = Vec::new();
            let mut i: usize = 0;
            while i < steps.len()
                invariant
                    spec_fits(*a),
                    *a == NoteSpec::Sequence(*steps),
                    i <= steps@.len(),
                    out@.len() == i,
                    forall|k: int|
                        0 <= k < i ==> match #[trigger] steps@[k] {
                            Some(ns) => out@[k] matches Some(ms) && midi_ints(ms@) == valid_midis(
                                name_views(ns@),
                            ),
                            None => out@[k] is None,
                        },
                decreases steps@.len() - i,
            {
                match &steps[i] {
                    Some(ns) => {
                        let ms = midis_of(ns);
                        out.push(Some(ms));
                    },
                    None => {
                        out.push(None);
                    },
                }
                i = i + 1;
            }
            Ok(ResolvedNotes::Sequence(out))
        },
    }
}

} // verus!

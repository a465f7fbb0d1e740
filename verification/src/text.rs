//! Character-level helpers shared by the text-handling modules.
//!
//! Text is reasoned about as a sequence of Unicode scalar values (`Seq<char>`),
//! the view that vstd gives to `str` and `String`.
use vstd::prelude::*;
use vstd::string::*;

verus! {

/// The Unicode `White_Space` property, which is what `char::is_whitespace`
/// and `str::trim` test.
pub open spec fn is_ws(c: char) -> bool {
    let u = c as u32;
    ||| 0x09 <= u <= 0x0D
    ||| u == 0x20
    ||| u == 0x85
    ||| u == 0xA0
    ||| u == 0x1680
    ||| 0x2000 <= u <= 0x200A
    ||| u == 0x2028
    ||| u == 0x2029
    ||| u == 0x202F
    ||| u == 0x205F
    ||| u == 0x3000
}

/// Executable form of [`is_ws`].
pub fn is_whitespace(c: char) -> (r: bool)
    ensures
        r == is_ws(c),
{
    let u = c as u32;
    (0x09 <= u && u <= 0x0D) || u == 0x20 || u == 0x85 || u == 0xA0 || u == 0x1680 || (0x2000
        <= u && u <= 0x200A) || u == 0x2028 || u == 0x2029 || u == 0x202F || u == 0x205F || u
        == 0x3000
}

/// ASCII letters and digits, as `char::is_ascii_alphanumeric` tests.
pub open spec fn is_ascii_alnum(c: char) -> bool {
    ||| ('a' <= c && c <= 'z')
    ||| ('A' <= c && c <= 'Z')
    ||| ('0' <= c && c <= '9')
}

/// A key string that stands for one character encoded in a single byte.
pub open spec fn is_single_byte_key(k: Seq<char>) -> bool {
    k.len() == 1 && (k[0] as u32) < 128
}

/// Appends one character to a `String` (`String::push`).
#[verifier::external_body]
pub fn push_char(s: &mut String, c: char)
    ensures
        final(s)@ == old(s)@.push(c),
{
    s.push(c);
}

/// What `char::is_alphanumeric` says of `c`.
pub uninterp spec fn alnum_of(c: char) -> bool;

/// `char::is_alphanumeric`.
#[verifier::external_body]
pub(crate) fn is_alphanumeric(c: char) -> (r: bool)
    ensures
        r == alnum_of(c),
{
    c.is_alphanumeric()
}

/// The characters of a string slice, in order.
pub fn str_chars(s: &str) -> (r: Vec<char>)
    ensures
        r@ == s@,
{
    let n = s.unicode_len();
    let mut r: Vec<char> = Vec::new();
    let mut i: usize = 0;
    while i < n
        invariant
            n == s@.len(),
            i <= n,
            r@ == s@.subrange(0, i as int),
        decreases n - i,
    {
        let c = s.get_char(i);
        r.push(c);
        i = i + 1;
    }
    r
}

/// Builds a `String` holding exactly the given characters.
pub fn string_of(v: &[char]) -> (s: String)
    ensures
        s@ == v@,
{
    let mut s = String::new();
    let mut i: usize = 0;
    while i < v.len()
        invariant
            i <= v@.len(),
            s@ == v@.subrange(0, i as int),
        decreases v@.len() - i,
    {
        push_char(&mut s, v[i]);
        i = i + 1;
    }
    s
}

/// Equality of two string slices, character by character.
pub fn str_eq(a: &str, b: &str) -> (r: bool)
    ensures
        r == (a@ == b@),
{
    let n = a.unicode_len();
    let m = b.unicode_len();
    if n != m {
        return false;
    }
    let mut i: usize = 0;
    while i < n
        invariant
            n == a@.len(),
            m == b@.len(),
            n == m,
            i <= n,
            forall|j: int| 0 <= j < i ==> a@[j] == b@[j],
        decreases n - i,
    {
        if a.get_char(i) != b.get_char(i) {
            return false;
        }
        i = i + 1;
    }
    assert(a@ =~= b@);
    true
}

/// Equality of two character vectors.
pub fn chars_eq(a: &[char], b: &[char]) -> (r: bool)
    ensures
        r == (a@ == b@),
{
    if a.len() != b.len() {
        return false;
    }
    let mut i: usize = 0;
    while i < a.len()
        invariant
            a@.len() == b@.len(),
            i <= a@.len(),
            forall|j: int| 0 <= j < i ==> a@[j] == b@[j],
        decreases a@.len() - i,
    {
        if a[i] != b[i] {
            return false;
        }
        i = i + 1;
    }
    assert(a@ =~= b@);
    true
}

/// Copies `v[from..to]` into a new vector.
pub fn slice_chars(v: &[char], from: usize, to: usize) -> (r: Vec<char>)
    requires
        from <= to <= v@.len(),
    ensures
        r@ == v@.subrange(from as int, to as int),
{
    let mut r: Vec<char> = Vec::new();
    let mut i = from;
    while i < to
        invariant
            from <= i <= to,
            to <= v@.len(),
            r@ == v@.subrange(from as int, i as int),
        decreases to - i,
    {
        r.push(v[i]);
        i = i + 1;
    }
    r
}

/// Appends every character of `b` to `a`.
pub fn extend_chars(a: &mut Vec<char>, b: &[char])
    ensures
        final(a)@ == old(a)@ + b@,
{
    let mut i: usize = 0;
    while i < b.len()
        invariant
            i <= b@.len(),
            a@ == old(a)@ + b@.subrange(0, i as int),
        decreases b@.len() - i,
    {
        a.push(b[i]);
        i = i + 1;
    }
}


// ── Trimming ───────────────────────────────────────────────────────────────

/// First index at or after `c` that is not a blank.
pub open spec fn skip_ws(s: Seq<char>, c: int) -> int
    decreases s.len() - c,
{
    if 0 <= c < s.len() && is_ws(s[c]) {
        skip_ws(s, c + 1)
    } else {
        c
    }
}

/// Index just after the last non-blank character at or before `e`.
pub open spec fn rskip_ws(s: Seq<char>, e: int) -> int
    decreases e,
{
    if 0 < e <= s.len() && is_ws(s[e - 1]) {
        rskip_ws(s, e - 1)
    } else {
        e
    }
}

/// `s` with leading and trailing blanks removed (what `str::trim` returns).
pub open spec fn trim(s: Seq<char>) -> Seq<char> {
    let t = s.subrange(skip_ws(s, 0), s.len() as int);
    t.subrange(0, rskip_ws(t, t.len() as int))
}

/// Executable form of [`skip_ws`].
pub fn skip_ws_exec(s: &[char], c: usize) -> (r: usize)
    requires
        c <= s@.len(),
    ensures
        r as int == skip_ws(s@, c as int),
        c <= r <= s@.len(),
    decreases s@.len() - c,
{
    if c < s.len() && is_whitespace(s[c]) {
        skip_ws_exec(s, c + 1)
    } else {
        c
    }
}

/// Executable form of [`rskip_ws`].
pub fn rskip_ws_exec(s: &[char], e: usize) -> (r: usize)
    requires
        e <= s@.len(),
    ensures
        r as int == rskip_ws(s@, e as int),
        r <= e,
    decreases e,
{
    if e > 0 && is_whitespace(s[e - 1]) {
        rskip_ws_exec(s, e - 1)
    } else {
        e
    }
}

/// `str::trim` on a character vector.
pub fn trim_chars(v: &[char]) -> (r: Vec<char>)
    ensures
        r@ == trim(v@),
{
    let st = skip_ws_exec(v, 0);
    let t = slice_chars(v, st, v.len());
    let e = rskip_ws_exec(t.as_slice(), t.len());
    slice_chars(t.as_slice(), 0, e)
}

// ── Searching ──────────────────────────────────────────────────────────────

/// An optional index, as an integer.
pub open spec fn opt_usize_v(o: Option<usize>) -> Option<int> {
    match o {
        Some(u) => Some(u as int),
        None => None,
    }
}

/// `pat` occurs in `line` starting at `i`.
pub open spec fn matches_at(line: Seq<char>, pat: Seq<char>, i: int) -> bool {
    0 <= i && i + pat.len() <= line.len() && line.subrange(i, i + pat.len()) == pat
}

/// The first occurrence of `pat` in `line` starting at or after `from`.
pub open spec fn find_from(line: Seq<char>, pat: Seq<char>, from: int) -> Option<int>
    decreases line.len() + 1 - from,
{
    if from < 0 || from > line.len() {
        None
    } else if matches_at(line, pat, from) {
        Some(from)
    } else {
        find_from(line, pat, from + 1)
    }
}

pub proof fn lemma_find_from_ge(line: Seq<char>, pat: Seq<char>, from: int)
    ensures
        find_from(line, pat, from) matches Some(i) ==> from <= i && matches_at(line, pat, i),
    decreases line.len() + 1 - from,
{
    if 0 <= from <= line.len() && !matches_at(line, pat, from) {
        lemma_find_from_ge(line, pat, from + 1);
    }
}

/// Index of the first `c` in `s` at or after `from`, if any.
pub open spec fn index_of_from(s: Seq<char>, c: char, from: int) -> Option<int>
    decreases s.len() - from,
{
    if from < 0 || from >= s.len() {
        None
    } else if s[from] == c {
        Some(from)
    } else {
        index_of_from(s, c, from + 1)
    }
}

/// The first `c` at or after `from` is at `k` when `k` holds one and none
/// comes before it.
pub proof fn lemma_index_of_at(s: Seq<char>, c: char, from: int, k: int)
    requires
        0 <= from <= k < s.len(),
        s[k] == c,
        forall|j: int| from <= j < k ==> s[j] != c,
    ensures
        index_of_from(s, c, from) == Some(k),
    decreases k - from,
{
    if from < k {
        lemma_index_of_at(s, c, from + 1, k);
    }
}

/// No `c` at or after `from`: none found.
pub proof fn lemma_index_of_none(s: Seq<char>, c: char, from: int)
    requires
        0 <= from,
        forall|j: int| from <= j < s.len() ==> s[j] != c,
    ensures
        index_of_from(s, c, from) is None,
    decreases s.len() - from,
{
    if from < s.len() {
        lemma_index_of_none(s, c, from + 1);
    }
}

pub proof fn lemma_index_of_bounds(s: Seq<char>, c: char, from: int)
    ensures
        index_of_from(s, c, from) matches Some(i) ==> from <= i < s.len() && s[i] == c,
    decreases s.len() - from,
{
    if 0 <= from < s.len() && s[from] != c {
        lemma_index_of_bounds(s, c, from + 1);
    }
}

/// Executable form of [`index_of_from`].
pub fn index_of_exec(s: &[char], ch: char, from: usize) -> (r: Option<usize>)
    requires
        from <= s@.len(),
    ensures
        opt_usize_v(r) == index_of_from(s@, ch, from as int),
        r matches Some(i) ==> from <= i < s@.len(),
    decreases s@.len() - from,
{
    if from >= s.len() {
        None
    } else if s[from] == ch {
        Some(from)
    } else {
        index_of_exec(s, ch, from + 1)
    }
}

/// Executable form of [`matches_at`].
pub fn matches_at_exec(line: &[char], pat: &[char], i: usize) -> (r: bool)
    ensures
        r == matches_at(line@, pat@, i as int),
{
    if i > line.len() || pat.len() > line.len() - i {
        return false;
    }
    let mut k: usize = 0;
    while k < pat.len()
        invariant
            i + pat@.len() <= line@.len(),
            i <= line@.len(),
            k <= pat@.len(),
            forall|j: int| 0 <= j < k ==> line@[i + j] == pat@[j],
        decreases pat@.len() - k,
    {
        assert(i + k < line.len());
        if line[i + k] != pat[k] {
            assert(line@.subrange(i as int, i + pat@.len())[k as int] != pat@[k as int]);
            return false;
        }
        k = k + 1;
    }
    assert(line@.subrange(i as int, i + pat@.len()) =~= pat@);
    true
}

/// Executable form of [`find_from`].
pub fn find_from_exec(line: &[char], pat: &[char], from: usize) -> (r: Option<usize>)
    ensures
        opt_usize_v(r) == find_from(line@, pat@, from as int),
        r matches Some(i) ==> from <= i && i + pat@.len() <= line@.len(),
    decreases line@.len() + 1 - from,
{
    if from > line.len() {
        None
    } else if matches_at_exec(line, pat, from) {
        Some(from)
    } else if from == line.len() {
        assert(find_from(line@, pat@, from + 1) is None);
        None
    } else {
        find_from_exec(line, pat, from + 1)
    }
}

/// Whether the characters `v` spell `lit`.
pub fn chars_are(v: &[char], lit: &str) -> (r: bool)
    ensures
        r == (v@ == lit@),
{
    let l = str_chars(lit);
    chars_eq(v, l.as_slice())
}

/// The part of `s` before the first `c` (all of `s` without one).
pub open spec fn before_char(s: Seq<char>, c: char) -> Seq<char> {
    match index_of_from(s, c, 0) {
        Some(i) => s.take(i),
        None => s,
    }
}

/// Executable form of [`before_char`].
pub fn before_char_exec(s: &[char], c: char) -> (r: Vec<char>)
    ensures
        r@ == before_char(s@, c),
{
    match index_of_exec(s, c, 0) {
        Some(i) => {
            let r = slice_chars(s, 0, i);
            assert(r@ =~= s@.take(i as int));
            r
        },
        None => slice_chars(s, 0, s.len()),
    }
}

} // verus!

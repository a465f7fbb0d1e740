//! Lexicon entries: file slugs for words and the language folders.
use vstd::prelude::*;

use vstd::string::{StrSliceExecFns, StringExecFns};

use crate::text::{
    extend_chars, find_from, find_from_exec, is_ascii_alnum, lemma_find_from_ge, slice_chars,
    str_chars, str_eq, string_of, trim, trim_chars,
};
use crate::instance::note::{quote_yaml, yaml_quote};
use super::room::{opt_view, ElemV, Element, LexiconLink, Reference};

verus! {

/// The lowercase mapping of a character (`char::to_lowercase`), which may be
/// several characters long.
pub uninterp spec fn lowercase_of(c: char) -> Seq<char>;

/// A character that may stand in a file slug: a lowercase ASCII letter, an
/// ASCII digit or `-`.
pub open spec fn is_slug_char(c: char) -> bool {
    ||| ('a' <= c && c <= 'z')
    ||| ('0' <= c && c <= '9')
    ||| c == '-'
}

/// No character of `cs` is an uppercase ASCII letter.
pub open spec fn no_ascii_upper(cs: Seq<char>) -> bool {
    forall|k: int| 0 <= k < cs.len() ==> !('A' <= #[trigger] cs[k] && cs[k] <= 'Z')
}

/// A file slug: not empty, made of slug characters, neither starting nor
/// ending with `-`, and never two `-` in a row.
pub open spec fn is_slug(t: Seq<char>) -> bool {
    &&& t.len() > 0
    &&& forall|k: int| 0 <= k < t.len() ==> is_slug_char(#[trigger] t[k])
    &&& t[0] != '-'
    &&& t.last() != '-'
    &&& forall|k: int| 0 < k < t.len() && #[trigger] t[k] == '-' ==> t[k - 1] != '-'
}

/// The characters of `char::to_lowercase(c)` (std). Claimed: the result is
/// the lowercase mapping named by `lowercase_of`; it holds no uppercase ASCII
/// letter (a lowercase mapping never does); and a lowercase ASCII letter, a
/// digit or `-`, which have no lowercase mapping of their own, come back as
/// themselves.
#[verifier::external_body]
fn to_lowercase_chars(c: char) -> (r: Vec<char>)
    ensures
        r@ == lowercase_of(c),
        no_ascii_upper(r@),
        is_slug_char(c) ==> r@ == seq![c],
{
    c.to_lowercase().collect()
}

/// Folds a lowercase accented letter to its ASCII base letter; combining
/// diacritical marks (U+0300..U+036F) fold to nothing.
pub open spec fn fold_spec(c: char) -> Option<char> {
    let u = c as u32;
    if 0x300 <= u <= 0x36F {
        None
    } else if c == 'à' || c == 'á' || c == 'â' || c == 'ã' || c == 'ä' || c == 'å' || c == 'ā' {
        Some('a')
    } else if c == 'ç' {
        Some('c')
    } else if c == 'è' || c == 'é' || c == 'ê' || c == 'ë' || c == 'ē' || c == 'ẹ' || c == 'ɛ'
        || c == 'ẽ' {
        Some('e')
    } else if c == 'ì' || c == 'í' || c == 'î' || c == 'ï' || c == 'ī' || c == 'ĩ' {
        Some('i')
    } else if c == 'ñ' || c == 'ŋ' {
        Some('n')
    } else if c == 'ò' || c == 'ó' || c == 'ô' || c == 'õ' || c == 'ö' || c == 'ō' || c == 'ọ'
        || c == 'ɔ' {
        Some('o')
    } else if c == 'ù' || c == 'ú' || c == 'û' || c == 'ü' || c == 'ū' || c == 'ũ' {
        Some('u')
    } else if c == 'ṣ' {
        Some('s')
    } else if c == 'ý' || c == 'ÿ' || c == 'ỹ' {
        Some('y')
    } else {
        Some(c)
    }
}

fn fold_char(c: char) -> (r: Option<char>)
    ensures
        r == fold_spec(c),
{
    let u = c as u32;
    if 0x300 <= u && u <= 0x36F {
        None
    } else if c == 'à' || c == 'á' || c == 'â' || c == 'ã' || c == 'ä' || c == 'å' || c == 'ā' {
        Some('a')
    } else if c == 'ç' {
        Some('c')
    } else if c == 'è' || c == 'é' || c == 'ê' || c == 'ë' || c == 'ē' || c == 'ẹ' || c == 'ɛ'
        || c == 'ẽ' {
        Some('e')
    } else if c == 'ì' || c == 'í' || c == 'î' || c == 'ï' || c == 'ī' || c == 'ĩ' {
        Some('i')
    } else if c == 'ñ' || c == 'ŋ' {
        Some('n')
    } else if c == 'ò' || c == 'ó' || c == 'ô' || c == 'õ' || c == 'ö' || c == 'ō' || c == 'ọ'
        || c == 'ɔ' {
        Some('o')
    } else if c == 'ù' || c == 'ú' || c == 'û' || c == 'ü' || c == 'ū' || c == 'ũ' {
        Some('u')
    } else if c == 'ṣ' {
        Some('s')
    } else if c == 'ý' || c == 'ÿ' || c == 'ỹ' {
        Some('y')
    } else {
        Some(c)
    }
}

/// The lowercase stream of a word: each character's lowercase mapping, in order.
pub open spec fn lowered(s: Seq<char>) -> Seq<char>
    decreases s.len(),
{
    if s.len() == 0 {
        Seq::empty()
    } else {
        lowercase_of(s[0]) + lowered(s.drop_first())
    }
}

/// One step of slug building: a folded alphanumeric is kept; anything else
/// becomes a single `-` (never two in a row, never a leading one).
pub open spec fn slug_step(acc: (Seq<char>, bool), c: char) -> (Seq<char>, bool) {
    match fold_spec(c) {
        None => acc,
        Some(f) => if is_ascii_alnum(f) {
            (acc.0.push(f), false)
        } else if !acc.1 {
            (acc.0.push('-'), true)
        } else {
            acc
        },
    }
}

/// Slug building over a character stream, from the state `acc`.
pub open spec fn slug_scan(cs: Seq<char>, acc: (Seq<char>, bool)) -> (Seq<char>, bool)
    decreases cs.len(),
{
    if cs.len() == 0 {
        acc
    } else {
        slug_scan(cs.drop_first(), slug_step(acc, cs[0]))
    }
}

/// `s` without its trailing dashes.
pub open spec fn trim_dashes(s: Seq<char>) -> Seq<char>
    decreases s.len(),
{
    if s.len() > 0 && s.last() == '-' {
        trim_dashes(s.drop_last())
    } else {
        s
    }
}

/// The file slug of a word: lowercase, diacritics and tone marks folded away,
/// runs of other characters turned into single `-`, no leading or trailing
/// `-`; `termo` when nothing is left.
pub open spec fn slug_of(s: Seq<char>) -> Seq<char> {
    slug_of_lowered(lowered(s))
}

/// The file slug built from an already lowercased character stream.
pub open spec fn slug_of_lowered(l: Seq<char>) -> Seq<char> {
    let t = trim_dashes(slug_scan(l, (Seq::empty(), true)).0);
    if t.len() == 0 {
        "termo"@
    } else {
        t
    }
}

proof fn lemma_slug_scan_append(a: Seq<char>, b: Seq<char>, acc: (Seq<char>, bool))
    ensures
        slug_scan(a + b, acc) == slug_scan(b, slug_scan(a, acc)),
    decreases a.len(),
{
    if a.len() == 0 {
        assert(a + b =~= b);
    } else {
        assert((a + b).drop_first() =~= a.drop_first() + b);
        lemma_slug_scan_append(a.drop_first(), b, slug_step(acc, a[0]));
    }
}

/// The shape that slug building keeps: slug characters only, no leading
/// `-`, no `-` twice in a row, and the flag set exactly when the output is
/// empty or ends in `-`.
spec fn scan_shape(acc: (Seq<char>, bool)) -> bool {
    &&& forall|k: int| 0 <= k < acc.0.len() ==> is_slug_char(#[trigger] acc.0[k])
    &&& acc.0.len() > 0 ==> acc.0[0] != '-'
    &&& forall|k: int| 0 < k < acc.0.len() && #[trigger] acc.0[k] == '-' ==> acc.0[k - 1] != '-'
    &&& acc.1 <==> (acc.0.len() == 0 || acc.0.last() == '-')
}

proof fn lemma_scan_shape(cs: Seq<char>, acc: (Seq<char>, bool))
    requires
        scan_shape(acc),
        no_ascii_upper(cs),
    ensures
        scan_shape(slug_scan(cs, acc)),
    decreases cs.len(),
{
    if cs.len() > 0 {
        let c = cs[0];
        assert(!('A' <= c && c <= 'Z'));
        let next = slug_step(acc, c);
        assert(scan_shape(next)) by {
            match fold_spec(c) {
                None => {},
                Some(f) => {
                    if is_ascii_alnum(f) {
                        assert(next.0 =~= acc.0.push(f));
                        assert(is_slug_char(f));
                    }
                },
            }
        }
        assert(no_ascii_upper(cs.drop_first()));
        lemma_scan_shape(cs.drop_first(), next);
    }
}

proof fn lemma_lowered_no_upper(s: Seq<char>)
    requires
        forall|k: int| 0 <= k < s.len() ==> no_ascii_upper(lowercase_of(#[trigger] s[k])),
    ensures
        no_ascii_upper(lowered(s)),
    decreases s.len(),
{
    if s.len() > 0 {
        assert(no_ascii_upper(lowercase_of(s[0])));
        assert forall|k: int| 0 <= k < s.drop_first().len() implies no_ascii_upper(
            lowercase_of(#[trigger] s.drop_first()[k]),
        ) by {
            assert(s.drop_first()[k] == s[k + 1]);
        }
        lemma_lowered_no_upper(s.drop_first());
        let a = lowercase_of(s[0]);
        let b = lowered(s.drop_first());
        assert forall|k: int| 0 <= k < (a + b).len() implies !('A' <= #[trigger] (a + b)[k]
            && (a + b)[k] <= 'Z') by {
            if k < a.len() {
                assert((a + b)[k] == a[k]);
            } else {
                assert((a + b)[k] == b[k - a.len()]);
            }
        }
    }
}

proof fn lemma_trim_dashes(s: Seq<char>)
    ensures
        trim_dashes(s).len() <= s.len(),
        trim_dashes(s) =~= s.subrange(0, trim_dashes(s).len() as int),
        trim_dashes(s).len() > 0 ==> trim_dashes(s).last() != '-',
    decreases s.len(),
{
    if s.len() > 0 && s.last() == '-' {
        lemma_trim_dashes(s.drop_last());
    }
}

proof fn lemma_scan_no_break(cs: Seq<char>, acc: (Seq<char>, bool))
    requires
        forall|k: int| 0 <= k < acc.0.len() ==> acc.0[k] != '\n',
    ensures
        forall|k: int| 0 <= k < slug_scan(cs, acc).0.len() ==> slug_scan(cs, acc).0[k] != '\n',
    decreases cs.len(),
{
    if cs.len() > 0 {
        let next = slug_step(acc, cs[0]);
        assert forall|k: int| 0 <= k < next.0.len() implies next.0[k] != '\n' by {
            match fold_spec(cs[0]) {
                None => {},
                Some(f) => {
                    if k == acc.0.len() {
                        assert(next.0[k] == f || next.0[k] == '-');
                    } else {
                        assert(next.0[k] == acc.0[k]);
                    }
                },
            }
        }
        lemma_scan_no_break(cs.drop_first(), next);
        assert(slug_scan(cs, acc) == slug_scan(cs.drop_first(), next));
    }
}

/// A slug holds no line break.
pub proof fn lemma_slug_of_no_break(s: Seq<char>)
    ensures
        forall|k: int| 0 <= k < slug_of(s).len() ==> slug_of(s)[k] != '\n',
{
    let start: (Seq<char>, bool) = (Seq::empty(), true);
    lemma_scan_no_break(lowered(s), start);
    let scanned = slug_scan(lowered(s), start).0;
    lemma_trim_dashes(scanned);
    let t = trim_dashes(scanned);
    if t.len() == 0 {
        reveal_strlit("termo");
    } else {
        assert forall|k: int| 0 <= k < t.len() implies t[k] != '\n' by {
            assert(t[k] == scanned[k]);
        }
    }
}

/// Slug building over a stream without uppercase ASCII yields a slug.
proof fn lemma_slug_of_lowered_is_slug(l: Seq<char>)
    requires
        no_ascii_upper(l),
    ensures
        is_slug(slug_of_lowered(l)),
{
    let start: (Seq<char>, bool) = (Seq::empty(), true);
    lemma_scan_shape(l, start);
    let scanned = slug_scan(l, start).0;
    lemma_trim_dashes(scanned);
    let t = trim_dashes(scanned);
    if t.len() == 0 {
        reveal_strlit("termo");
    } else {
        assert forall|k: int| 0 <= k < t.len() implies is_slug_char(#[trigger] t[k]) by {
            assert(t[k] == scanned[k]);
        }
        assert(t[0] == scanned[0]);
        assert forall|k: int| 0 < k < t.len() && #[trigger] t[k] == '-' implies t[k - 1] != '-' by {
            assert(t[k] == scanned[k]);
            assert(t[k - 1] == scanned[k - 1]);
        }
    }
}

/// Every slug that slug building yields is a slug, given a lowercase
/// mapping that never yields uppercase ASCII.
proof fn lemma_slug_of_is_slug(s: Seq<char>)
    requires
        forall|k: int| 0 <= k < s.len() ==> no_ascii_upper(lowercase_of(#[trigger] s[k])),
    ensures
        is_slug(slug_of(s)),
{
    lemma_lowered_no_upper(s);
    lemma_slug_of_lowered_is_slug(lowered(s));
}

proof fn lemma_lowered_fixed(t: Seq<char>)
    requires
        forall|k: int| 0 <= k < t.len() ==> lowercase_of(#[trigger] t[k]) == seq![t[k]],
    ensures
        lowered(t) == t,
    decreases t.len(),
{
    if t.len() > 0 {
        assert(lowercase_of(t[0]) == seq![t[0]]);
        assert forall|k: int| 0 <= k < t.drop_first().len() implies lowercase_of(
            #[trigger] t.drop_first()[k],
        ) == seq![t.drop_first()[k]] by {
            assert(t.drop_first()[k] == t[k + 1]);
        }
        lemma_lowered_fixed(t.drop_first());
        assert(seq![t[0]] + t.drop_first() =~= t);
    }
}

proof fn lemma_scan_fixed(t: Seq<char>, i: int)
    requires
        is_slug(t),
        0 <= i <= t.len(),
    ensures
        slug_scan(t.subrange(i, t.len() as int), (t.subrange(0, i), i == 0 || t[i - 1] == '-'))
            == (t, t.last() == '-'),
    decreases t.len() - i,
{
    let rest = t.subrange(i, t.len() as int);
    let acc = (t.subrange(0, i), i == 0 || t[i - 1] == '-');
    if i == t.len() {
        assert(t.subrange(0, i) =~= t);
    } else {
        let c = t[i];
        assert(rest[0] == c);
        assert(is_slug_char(c));
        assert(fold_spec(c) == Some(c));
        if c == '-' {
            assert(i > 0);
        }
        assert(slug_step(acc, c) == (t.subrange(0, i + 1), t[i] == '-')) by {
            assert(t.subrange(0, i).push(c) =~= t.subrange(0, i + 1));
        }
        assert(rest.drop_first() =~= t.subrange(i + 1, t.len() as int));
        lemma_scan_fixed(t, i + 1);
    }
}

/// A slug whose characters lowercase to themselves is its own slug.
proof fn lemma_slug_of_slug(t: Seq<char>)
    requires
        is_slug(t),
        forall|k: int| 0 <= k < t.len() ==> lowercase_of(#[trigger] t[k]) == seq![t[k]],
    ensures
        slug_of(t) == t,
{
    lemma_lowered_fixed(t);
    lemma_scan_fixed(t, 0);
    assert(t.subrange(0, t.len() as int) =~= t);
    assert(t.subrange(0, 0) =~= Seq::<char>::empty());
    assert(trim_dashes(t) == t);
}

/// The accented lowercase letters that the slug spells with a plain ASCII
/// letter, each with that letter.
pub open spec fn accent_of(c: char, base: char) -> bool {
    ||| base == 'a' && (c == 'à' || c == 'á' || c == 'â' || c == 'ã' || c == 'ä' || c == 'å' || c
        == 'ā')
    ||| base == 'c' && c == 'ç'
    ||| base == 'e' && (c == 'è' || c == 'é' || c == 'ê' || c == 'ë' || c == 'ē' || c == 'ẹ' || c
        == 'ɛ' || c == 'ẽ')
    ||| base == 'i' && (c == 'ì' || c == 'í' || c == 'î' || c == 'ï' || c == 'ī' || c == 'ĩ')
    ||| base == 'n' && (c == 'ñ' || c == 'ŋ')
    ||| base == 'o' && (c == 'ò' || c == 'ó' || c == 'ô' || c == 'õ' || c == 'ö' || c == 'ō' || c
        == 'ọ' || c == 'ɔ')
    ||| base == 'u' && (c == 'ù' || c == 'ú' || c == 'û' || c == 'ü' || c == 'ū' || c == 'ũ')
    ||| base == 's' && c == 'ṣ'
    ||| base == 'y' && (c == 'ý' || c == 'ÿ' || c == 'ỹ')
}

/// Accents do not change a slug: anywhere in a lowercase word, an accented
/// letter gives the same slug as its plain letter (`açaí` and `acai`,
/// `ẹ` and `e`), and a combining diacritical mark (U+0300..U+036F, such as
/// the tone marks of Yorùbá) gives the same slug as nothing at all.
pub proof fn lemma_slug_ignores_accents(a: Seq<char>, b: Seq<char>, c: char, base: char)
    ensures
        accent_of(c, base) ==> slug_of_lowered(a + seq![c] + b) == slug_of_lowered(
            a + seq![base] + b,
        ),
        0x300 <= c as u32 <= 0x36F ==> slug_of_lowered(a + seq![c] + b) == slug_of_lowered(a + b),
{
    let start: (Seq<char>, bool) = (Seq::empty(), true);
    lemma_slug_scan_append(a + seq![c], b, start);
    lemma_slug_scan_append(a, seq![c], start);
    lemma_slug_scan_append(a + seq![base], b, start);
    lemma_slug_scan_append(a, seq![base], start);
    lemma_slug_scan_append(a, b, start);
    let x = slug_scan(a, start);
    assert(seq![c].drop_first() =~= Seq::<char>::empty());
    assert(seq![base].drop_first() =~= Seq::<char>::empty());
    assert(seq![c][0] == c && seq![base][0] == base);
    assert(slug_scan(Seq::<char>::empty(), slug_step(x, c)) == slug_step(x, c));
    assert(slug_scan(Seq::<char>::empty(), slug_step(x, base)) == slug_step(x, base));
    assert(slug_scan(seq![c], x) == slug_step(x, c));
    assert(slug_scan(seq![base], x) == slug_step(x, base));
    if accent_of(c, base) {
        assert(fold_spec(c) == Some(base));
        assert(fold_spec(base) == Some(base));
    }
}

/// Builds the file slug of an already lowercased character stream (see
/// [`slug_of_lowered`]): folded letters and digits are kept, every run of
/// other characters becomes one `-`, dashes at the ends are dropped, and
/// `termo` stands for an empty result. A stream without uppercase ASCII
/// gives a slug ([`is_slug`]).
pub fn slug_from_lowered(cs: &[char]) -> (r: String)
    ensures
        r@ == slug_of_lowered(cs@),
        no_ascii_upper(cs@) ==> is_slug(r@),
{
    let mut out: Vec<char> = Vec::new();
    let mut prev_dash = true;
    let mut j: usize = 0;
    proof {
        assert(cs@.subrange(0, cs@.len() as int) =~= cs@);
        assert(out@ =~= Seq::<char>::empty());
    }
    while j < cs.len()
        invariant
            j <= cs@.len(),
            slug_scan(cs@, (Seq::empty(), true)) == slug_scan(
                cs@.subrange(j as int, cs@.len() as int),
                (out@, prev_dash),
            ),
        decreases cs@.len() - j,
    {
        proof {
            assert(cs@.subrange(j as int, cs@.len() as int).drop_first() =~= cs@.subrange(
                j + 1,
                cs@.len() as int,
            ));
        }
        match fold_char(cs[j]) {
            None => {},
            Some(f) => {
                if ('a' <= f && f <= 'z') || ('A' <= f && f <= 'Z') || ('0' <= f && f <= '9') {
                    out.push(f);
                    prev_dash = false;
                } else if !prev_dash {
                    out.push('-');
                    prev_dash = true;
                }
            },
        }
        j = j + 1;
    }
    proof {
        assert(cs@.subrange(j as int, cs@.len() as int) =~= Seq::<char>::empty());
        if no_ascii_upper(cs@) {
            lemma_slug_of_lowered_is_slug(cs@);
        }
    }
    let ghost scanned = out@;
    while out.len() > 0 && out[out.len() - 1] == '-'
        invariant
            trim_dashes(scanned) == trim_dashes(out@),
        decreases out@.len(),
    {
        let ghost o = out@;
        out.pop();
        assert(out@ =~= o.drop_last());
    }
    if out.len() == 0 {
        return String::from_str("termo");
    }
    string_of(out.as_slice())
}

/// Turns a word into a file slug (see [`slug_of`]):
/// `iemanjá → iemanja`, `nhe'ẽ → nhe-e`, `ara pyau → ara-pyau`.
///
/// What comes out is always a slug ([`is_slug`]), and a slug goes through
/// unchanged, so slugifying twice is slugifying once.
pub fn slugify(s: &str) -> (r: String)
    ensures
        r@ == slug_of(s@),
        is_slug(r@),
        is_slug(s@) ==> r@ == s@,
{
    let cs = str_chars(s);
    let mut low: Vec<char> = Vec::new();
    let mut i: usize = 0;
    proof {
        assert(cs@.subrange(0, cs@.len() as int) =~= cs@);
        assert(low@ + lowered(cs@) =~= lowered(cs@));
    }
    while i < cs.len()
        invariant
            cs@ == s@,
            i <= cs@.len(),
            lowered(s@) == low@ + lowered(cs@.subrange(i as int, cs@.len() as int)),
            forall|k: int| 0 <= k < i ==> no_ascii_upper(lowercase_of(#[trigger] s@[k])),
            forall|k: int|
                0 <= k < i && is_slug_char(#[trigger] s@[k]) ==> lowercase_of(s@[k]) == seq![
                    s@[k],
                ],
        decreases cs@.len() - i,
    {
        let ghost rest = cs@.subrange(i as int, cs@.len() as int);
        let ghost before = low@;
        let lc = to_lowercase_chars(cs[i]);
        proof {
            assert(rest.drop_first() =~= cs@.subrange(i + 1, cs@.len() as int));
            assert(lowered(rest) == lc@ + lowered(rest.drop_first()));
        }
        extend_chars(&mut low, lc.as_slice());
        proof {
            assert(low@ == before + lc@);
            assert(before + (lc@ + lowered(rest.drop_first())) =~= low@ + lowered(rest.drop_first()));
        }
        i = i + 1;
    }
    proof {
        assert(cs@.subrange(i as int, cs@.len() as int) =~= Seq::<char>::empty());
        assert(low@ + Seq::<char>::empty() =~= low@);
        lemma_slug_of_is_slug(s@);
        if is_slug(s@) {
            lemma_slug_of_slug(s@);
        }
    }
    slug_from_lowered(low.as_slice())
}

/// Language folder of a language code in the lexicon repository.
pub open spec fn lang_dir_of(code: Seq<char>) -> Option<Seq<char>> {
    if code == "gn-mbya"@ || code == "gn"@ {
        Some("guarani-mbya"@)
    } else if code == "yo"@ {
        Some("yoruba"@)
    } else if code == "pt"@ || code == "pt-br"@ {
        Some("portuguese"@)
    } else if code == "es"@ {
        Some("spanish"@)
    } else {
        None
    }
}

pub open spec fn opt_str_view(o: Option<&str>) -> Option<Seq<char>> {
    match o {
        Some(s) => Some(s@),
        None => None,
    }
}

/// Where a lexicon entry lives.
#[derive(Debug, Clone, Copy, PartialEq, Eq, Structural)]
pub enum LexiconScope {
    /// The shared, curated lexicon (`<lang>/terms/<slug>.md`).
    Shared,
    /// A user contribution (`<lang>/terms/_users/<user>/<slug>.md`).
    User,
}

/// Outcome of promoting a user stub to the curated lexicon.
#[derive(Debug, Clone, PartialEq, Eq)]
pub struct Promotion {
    pub from_rel: String,
    pub to_rel: String,
    pub slug: String,
    pub created: bool,
    pub archived: bool,
}

/// Outcome of publishing an element to the lexicon.
#[derive(Debug, Clone)]
pub struct Contribution {
    pub relative_path: String,
    pub created: bool,
    pub scope: LexiconScope,
    pub link: LexiconLink,
}

/// Why a lexicon operation failed.
#[derive(Debug)]
pub enum LexiconError {
    UnsupportedLang(String),
    EmptyWord,
    NotFound(String),
    /// An I/O failure, described by its message.
    Io(String),
}

/// The lexicon repository, rooted at a checkout directory.
pub struct LexiconStore {
    root: String,
}

impl LexiconStore {
    /// A store rooted at `root`.
    pub fn new(root: &str) -> (r: Self)
        ensures
            r.root_view() == root@,
    {
        LexiconStore { root: String::from_str(root) }
    }

    pub closed spec fn root_view(&self) -> Seq<char> {
        self.root@
    }

    /// The repository root.
    pub fn root(&self) -> (r: &str)
        ensures
            r@ == self.root_view(),
    {
        self.root.as_str()
    }

    /// The language folder of `code`, or `None` for a language without one.
    pub fn lang_dir(code: &str) -> (r: Option<&'static str>)
        ensures
            opt_str_view(r) == lang_dir_of(code@),
    {
        if str_eq(code, "gn-mbya") || str_eq(code, "gn") {
            Some("guarani-mbya")
        } else if str_eq(code, "yo") {
            Some("yoruba")
        } else if str_eq(code, "pt") || str_eq(code, "pt-br") {
            Some("portuguese")
        } else if str_eq(code, "es") {
            Some("spanish")
        } else {
            None
        }
    }

    /// The path (relative to the root) where the shared entry for `word` in
    /// language `lang` would be; `UnsupportedLang` for a language without a
    /// folder.
    pub fn shared_term_path(lang: &str, word: &str) -> (r: Result<String, LexiconError>)
        ensures
            match lang_dir_of(lang@) {
                None => r matches Err(LexiconError::UnsupportedLang(l)) && l@ == lang@,
                Some(d) => r matches Ok(p) && p@ == d + "/terms/"@ + slug_of(word@) + ".md"@,
            },
    {
        match Self::lang_dir(lang) {
            None => Err(LexiconError::UnsupportedLang(String::from_str(lang))),
            Some(d) => {
                let mut p = String::from_str(d);
                p.append("/terms/");
                let slug = slugify(word);
                p.append(slug.as_str());
                p.append(".md");
                Ok(p)
            },
        }
    }
}

// ── Contributing entries ──────────────────────────────────────────────────

/// The `parts:` lines: each part as a wikilink to its term.
pub open spec fn part_lines(parts: Seq<Seq<char>>) -> Seq<char>
    decreases parts.len(),
{
    if parts.len() == 0 {
        seq![]
    } else {
        part_lines(parts.drop_last()) + "- "@ + yaml_quote("[[terms/"@ + slug_of(parts.last()) + ".md]]"@)
            + "\n"@
    }
}

/// The `references:` lines of the front matter.
pub open spec fn ref_lines(refs: Seq<Reference>) -> Seq<char>
    decreases refs.len(),
{
    if refs.len() == 0 {
        seq![]
    } else {
        ref_lines(refs.drop_last()) + "- { url: "@ + yaml_quote(refs.last().url@) + ", source: "@
            + yaml_quote(refs.last().source@) + " }\n"@
    }
}

/// The reference list of the body, as Markdown links.
pub open spec fn ref_items(refs: Seq<Reference>) -> Seq<char>
    decreases refs.len(),
{
    if refs.len() == 0 {
        seq![]
    } else {
        ref_items(refs.drop_last()) + "- ["@ + refs.last().source@ + "]("@ + refs.last().url@ + ")\n"@
    }
}

/// A front-matter line `key value` for a value that is there.
pub open spec fn opt_line(key: Seq<char>, v: Option<Seq<char>>) -> Seq<char> {
    match v {
        Some(x) => key + yaml_quote(x) + "\n"@,
        None => seq![],
    }
}

/// The front matter of a contributed entry: type, word, language, the
/// optional pronunciation and concept, the parts, the stub status, the
/// author, how it came, when, the references and the tags.
pub open spec fn term_front_matter(
    user: Seq<char>,
    e: ElemV,
    parts: Seq<Seq<char>>,
    created: Seq<char>,
) -> Seq<char> {
    "---\ntype: term\nword: "@ + yaml_quote(e.word) + "\nlanguage_code: "@ + yaml_quote(e.lang)
        + "\n"@ + opt_line("pronunciation: "@, e.pronunciation) + opt_line("concept: "@, e.concept)
        + (if parts.len() == 0 {
        seq![]
    } else {
        "parts:\n"@ + part_lines(parts)
    }) + "seed_status: stub\nauthor: "@ + yaml_quote(user)
        + "\ncontributed_via: yggdrasil-comunicacao\ncreated: "@ + yaml_quote(created) + "\n"@ + (
    if e.refs.len() == 0 {
        seq![]
    } else {
        "references:\n"@ + ref_lines(e.refs)
    }) + "tags:\n- term\n- user-contributed\n---\n\n"@
}

/// The body of a contributed entry: the word as heading, the gloss (or a
/// note that there is none yet), the concept, the references and the
/// credit line.
pub open spec fn term_body(user: Seq<char>, e: ElemV) -> Seq<char> {
    "# "@ + e.word + "\n\n"@ + (match e.gloss {
        Some(g) => if trim(g).len() > 0 {
            g + "\n\n"@
        } else {
            "_(sem definição ainda — pendente de revisão)_\n\n"@
        },
        None => "_(sem definição ainda — pendente de revisão)_\n\n"@,
    }) + (match e.concept {
        Some(c) => "Conceito âncora: `"@ + c + "`\n\n"@,
        None => seq![],
    }) + (if e.refs.len() == 0 {
        seq![]
    } else {
        "## Referências\n\n"@ + ref_items(e.refs) + "\n"@
    }) + "> Contribuído por `"@ + user
        + "` via Yggdrasil (sala de comunicação). `seed_status: stub` — pendente de revisão por falante/curador.\n"@
}

/// The Markdown file of an entry that `user` contributes.
pub open spec fn term_markdown(user: Seq<char>, e: ElemV, parts: Seq<Seq<char>>, created: Seq<char>) -> Seq<
    char,
> {
    term_front_matter(user, e, parts, created) + term_body(user, e)
}

pub open spec fn string_views(v: Seq<String>) -> Seq<Seq<char>> {
    v.map_values(|s: String| s@)
}

fn push_part_lines(s: &mut String, parts: &[String])
    ensures
        final(s)@ == old(s)@ + part_lines(string_views(parts@)),
{
    let ghost pv = string_views(parts@);
    let ghost head = s@;
    let mut i: usize = 0;
    proof {
        assert(pv.take(0) =~= Seq::<Seq<char>>::empty());
        assert(s@ =~= head + part_lines(pv.take(0)));
    }
    while i < parts.len()
        invariant
            pv == string_views(parts@),
            i <= parts@.len(),
            s@ == head + part_lines(pv.take(i as int)),
        decreases parts@.len() - i,
    {
        let mut w = String::from_str("[[terms/");
        w.append(slugify(parts[i].as_str()).as_str());
        w.append(".md]]");
        s.append("- ");
        s.append(quote_yaml(w.as_str()).as_str());
        s.append("\n");
        proof {
            assert(pv.take(i + 1).drop_last() =~= pv.take(i as int));
            assert(pv.take(i + 1).last() == parts@[i as int]@);
            assert(s@ =~= head + part_lines(pv.take(i + 1)));
        }
        i = i + 1;
    }
    proof {
        assert(pv.take(parts@.len() as int) =~= pv);
    }
}

fn push_ref_lines(s: &mut String, rs: &Vec<Reference>)
    ensures
        final(s)@ == old(s)@ + ref_lines(rs@),
{
    let ghost head = s@;
    let mut i: usize = 0;
    proof {
        assert(rs@.take(0) =~= Seq::<Reference>::empty());
        assert(s@ =~= head + ref_lines(rs@.take(0)));
    }
    while i < rs.len()
        invariant
            i <= rs@.len(),
            s@ == head + ref_lines(rs@.take(i as int)),
        decreases rs@.len() - i,
    {
        s.append("- { url: ");
        s.append(quote_yaml(rs[i].url.as_str()).as_str());
        s.append(", source: ");
        s.append(quote_yaml(rs[i].source.as_str()).as_str());
        s.append(" }\n");
        proof {
            assert(rs@.take(i + 1).drop_last() =~= rs@.take(i as int));
            assert(rs@.take(i + 1).last() == rs@[i as int]);
            assert(s@ =~= head + ref_lines(rs@.take(i + 1)));
        }
        i = i + 1;
    }
    proof {
        assert(rs@.take(rs@.len() as int) =~= rs@);
    }
}

fn push_ref_items(s: &mut String, rs: &Vec<Reference>)
    ensures
        final(s)@ == old(s)@ + ref_items(rs@),
{
    let ghost head = s@;
    let mut i: usize = 0;
    proof {
        assert(rs@.take(0) =~= Seq::<Reference>::empty());
        assert(s@ =~= head + ref_items(rs@.take(0)));
    }
    while i < rs.len()
        invariant
            i <= rs@.len(),
            s@ == head + ref_items(rs@.take(i as int)),
        decreases rs@.len() - i,
    {
        s.append("- [");
        s.append(rs[i].source.as_str());
        s.append("](");
        s.append(rs[i].url.as_str());
        s.append(")\n");
        proof {
            assert(rs@.take(i + 1).drop_last() =~= rs@.take(i as int));
            assert(rs@.take(i + 1).last() == rs@[i as int]);
            assert(s@ =~= head + ref_items(rs@.take(i + 1)));
        }
        i = i + 1;
    }
    proof {
        assert(rs@.take(rs@.len() as int) =~= rs@);
    }
}

fn push_opt_line(s: &mut String, key: &str, v: &Option<String>)
    ensures
        final(s)@ == old(s)@ + opt_line(key@, opt_view(*v)),
{
    match v {
        Some(x) => {
            let ghost h = s@;
            s.append(key);
            s.append(quote_yaml(x.as_str()).as_str());
            s.append("\n");
            assert(s@ =~= h + opt_line(key@, opt_view(*v)));
        },
        None => {
            assert(s@ =~= old(s)@ + opt_line(key@, opt_view(*v)));
        },
    }
}

fn render_term_front(user: &str, el: &Element, parts: &[String], created: &str) -> (r: String)
    ensures
        r@ == term_front_matter(user@, el@, string_views(parts@), created@),
{
    let mut s = String::from_str("---\ntype: term\nword: ");
    s.append(quote_yaml(el.word.as_str()).as_str());
    s.append("\nlanguage_code: ");
    s.append(quote_yaml(el.lang.as_str()).as_str());
    s.append("\n");
    push_opt_line(&mut s, "pronunciation: ", &el.pronunciation);
    push_opt_line(&mut s, "concept: ", &el.concept);
    let ghost a = s@;
    if parts.len() > 0 {
        s.append("parts:\n");
        push_part_lines(&mut s, parts);
    }
    let ghost b = s@;
    proof {
        if parts@.len() > 0 {
            assert(b =~= a + ("parts:\n"@ + part_lines(string_views(parts@))));
        } else {
            assert(b =~= a + Seq::<char>::empty());
        }
    }
    s.append("seed_status: stub\nauthor: ");
    s.append(quote_yaml(user).as_str());
    s.append("\ncontributed_via: yggdrasil-comunicacao\ncreated: ");
    s.append(quote_yaml(created).as_str());
    s.append("\n");
    let ghost c = s@;
    if el.refs.len() > 0 {
        s.append("references:\n");
        push_ref_lines(&mut s, &el.refs);
    }
    let ghost d = s@;
    proof {
        if el.refs@.len() > 0 {
            assert(d =~= c + ("references:\n"@ + ref_lines(el.refs@)));
        } else {
            assert(d =~= c + Seq::<char>::empty());
        }
    }
    s.append("tags:\n- term\n- user-contributed\n---\n\n");
    assert(s@ =~= term_front_matter(user@, el@, string_views(parts@), created@));
    s
}

fn render_term_body(user: &str, el: &Element) -> (r: String)
    ensures
        r@ == term_body(user@, el@),
{
    let mut s = String::from_str("# ");
    s.append(el.word.as_str());
    s.append("\n\n");
    let ghost a = s@;
    let mut glossed = false;
    match &el.gloss {
        Some(g) => {
            let t = trim_chars(str_chars(g.as_str()).as_slice());
            if t.len() > 0 {
                s.append(g.as_str());
                s.append("\n\n");
                glossed = true;
            }
        },
        None => {},
    }
    if !glossed {
        s.append("_(sem definição ainda — pendente de revisão)_\n\n");
    }
    let ghost b = s@;
    proof {
        let gl = match el@.gloss {
            Some(g) => if trim(g).len() > 0 {
                g + "\n\n"@
            } else {
                "_(sem definição ainda — pendente de revisão)_\n\n"@
            },
            None => "_(sem definição ainda — pendente de revisão)_\n\n"@,
        };
        assert(b =~= a + gl);
    }
    match &el.concept {
        Some(c) => {
            s.append("Conceito âncora: `");
            s.append(c.as_str());
            s.append("`\n\n");
        },
        None => {},
    }
    let ghost c = s@;
    proof {
        let cl = match el@.concept {
            Some(x) => "Conceito âncora: `"@ + x + "`\n\n"@,
            None => seq![],
        };
        assert(c =~= b + cl);
    }
    if el.refs.len() > 0 {
        s.append("## Referências\n\n");
        push_ref_items(&mut s, &el.refs);
        s.append("\n");
    }
    let ghost d = s@;
    proof {
        if el.refs@.len() > 0 {
            assert(d =~= c + ("## Referências\n\n"@ + ref_items(el.refs@) + "\n"@));
        } else {
            assert(d =~= c + Seq::<char>::empty());
        }
    }
    s.append("> Contribuído por `");
    s.append(user);
    s.append(
        "` via Yggdrasil (sala de comunicação). `seed_status: stub` — pendente de revisão por falante/curador.\n",
    );
    assert(s@ =~= term_body(user@, el@));
    s
}

/// Writes the Markdown file of a contributed entry (see [`term_markdown`]);
/// `created` is the time of the contribution in RFC 3339.
pub fn render_term_markdown(user: &str, el: &Element, parts: &[String], created: &str) -> (r: String)
    ensures
        r@ == term_markdown(user@, el@, string_views(parts@), created@),
{
    let mut s = render_term_front(user, el, parts, created);
    let b = render_term_body(user, el);
    s.append(b.as_str());
    s
}

/// The file of the curated entry for `word` under the language folder `d`.
pub open spec fn shared_term_path_of(d: Seq<char>, word: Seq<char>) -> Seq<char> {
    d + "/terms/"@ + slug_of(word) + ".md"@
}

/// The file of `user`'s own entry for `word` under the language folder `d`.
pub open spec fn user_term_path_of(d: Seq<char>, user: Seq<char>, word: Seq<char>) -> Seq<char> {
    d + "/terms/_users/"@ + slug_of(user) + "/"@ + slug_of(word) + ".md"@
}

proof fn lemma_scan_chars(cs: Seq<char>, acc: (Seq<char>, bool))
    requires
        forall|k: int| 0 <= k < acc.0.len() ==> is_ascii_alnum(#[trigger] acc.0[k]) || acc.0[k] == '-',
    ensures
        forall|k: int|
            0 <= k < slug_scan(cs, acc).0.len() ==> is_ascii_alnum(#[trigger] slug_scan(cs, acc).0[k])
                || slug_scan(cs, acc).0[k] == '-',
    decreases cs.len(),
{
    if cs.len() > 0 {
        let next = slug_step(acc, cs[0]);
        assert forall|k: int| 0 <= k < next.0.len() implies is_ascii_alnum(#[trigger] next.0[k])
            || next.0[k] == '-' by {
            if k < acc.0.len() {
                assert(next.0[k] == acc.0[k]);
            }
        }
        lemma_scan_chars(cs.drop_first(), next);
        assert(slug_scan(cs, acc) == slug_scan(cs.drop_first(), next));
    }
}

/// A slug starts with an ASCII letter or digit, or a dash, never with `_`.
proof fn lemma_slug_first(s: Seq<char>)
    ensures
        slug_of(s).len() > 0,
        slug_of(s)[0] != '_',
{
    let start: (Seq<char>, bool) = (Seq::empty(), true);
    lemma_scan_chars(lowered(s), start);
    let scanned = slug_scan(lowered(s), start).0;
    lemma_trim_dashes(scanned);
    let t = trim_dashes(scanned);
    reveal_strlit("termo");
    if t.len() > 0 {
        assert(t[0] == scanned[0]);
    }
}

/// A contribution never goes to a curated entry: the file of a user's own
/// entry is never the file of any curated entry.
pub proof fn lemma_user_entry_not_curated(d: Seq<char>, user: Seq<char>, word: Seq<char>, other: Seq<char>)
    ensures
        user_term_path_of(d, user, word) != shared_term_path_of(d, other),
{
    reveal_strlit("/terms/_users/");
    reveal_strlit("/terms/");
    lemma_slug_first(other);
    let u = user_term_path_of(d, user, word);
    let c = shared_term_path_of(d, other);
    let k: int = d.len() as int + 7;
    assert(u[k] == '_');
    assert(c[k] == slug_of(other)[0]);
}

impl LexiconStore {
    /// The path (relative to the root) of `user`'s own entry for `word` in
    /// language `lang`; `UnsupportedLang` for a language without a folder.
    pub fn user_term_path(lang: &str, user: &str, word: &str) -> (r: Result<String, LexiconError>)
        ensures
            match lang_dir_of(lang@) {
                None => r matches Err(LexiconError::UnsupportedLang(l)) && l@ == lang@,
                Some(d) => r matches Ok(p) && p@ == user_term_path_of(d, user@, word@),
            },
    {
        match Self::lang_dir(lang) {
            None => Err(LexiconError::UnsupportedLang(String::from_str(lang))),
            Some(d) => {
                let mut p = String::from_str(d);
                p.append("/terms/_users/");
                p.append(slugify(user).as_str());
                p.append("/");
                p.append(slugify(word).as_str());
                p.append(".md");
                Ok(p)
            },
        }
    }
}

/// Publishing an element of `user`'s room to the lexicon, given whether the
/// curated entry for its word exists and whether the user's own entry does:
/// a blank word fails; a language without a folder fails; an existing
/// curated entry is only linked to; otherwise the user's own entry is used,
/// created when it did not exist (so a curated entry is never written).
pub fn contribution(user: &str, el: &Element, shared_exists: bool, user_exists: bool) -> (r: Result<
    Contribution,
    LexiconError,
>)
    ensures
        trim(el@.word).len() == 0 ==> r matches Err(LexiconError::EmptyWord),
        trim(el@.word).len() > 0 ==> match lang_dir_of(el@.lang) {
            None => r matches Err(LexiconError::UnsupportedLang(l)) && l@ == el@.lang,
            Some(d) => if shared_exists {
                &&& r matches Ok(c)
                &&& c.relative_path@ == shared_term_path_of(d, el@.word)
                &&& !c.created
                &&& c.scope == LexiconScope::Shared
                &&& c.link matches LexiconLink::Linked { path } && path@ == shared_term_path_of(
                    d,
                    el@.word,
                )
            } else {
                &&& r matches Ok(c)
                &&& c.relative_path@ == user_term_path_of(d, user@, el@.word)
                &&& c.created == !user_exists
                &&& forall|w: Seq<char>| c.relative_path@ != #[trigger] shared_term_path_of(d, w)
                &&& c.scope == LexiconScope::User
                &&& c.link matches LexiconLink::Contributed { path } && path@ == user_term_path_of(
                    d,
                    user@,
                    el@.word,
                )
            },
        },
{
    let w = trim_chars(str_chars(el.word.as_str()).as_slice());
    if w.len() == 0 {
        return Err(LexiconError::EmptyWord);
    }
    if shared_exists {
        match LexiconStore::shared_term_path(el.lang.as_str(), el.word.as_str()) {
            Err(e) => Err(e),
            Ok(p) => {
                let q = p.clone();
                Ok(Contribution {
                    relative_path: p,
                    created: false,
                    scope: LexiconScope::Shared,
                    link: LexiconLink::Linked { path: q },
                })
            },
        }
    } else {
        match LexiconStore::user_term_path(el.lang.as_str(), user, el.word.as_str()) {
            Err(e) => Err(e),
            Ok(p) => {
                proof {
                    let d = lang_dir_of(el@.lang).unwrap();
                    assert forall|w: Seq<char>| p@ != #[trigger] shared_term_path_of(d, w) by {
                        lemma_user_entry_not_curated(d, user@, el@.word, w);
                    }
                }
                let q = p.clone();
                Ok(Contribution {
                    relative_path: p,
                    created: !user_exists,
                    scope: LexiconScope::User,
                    link: LexiconLink::Contributed { path: q },
                })
            },
        }
    }
}

/// Where promoting `user`'s entry `slug` in language `lang` reads from and
/// writes to: the user's entry, the curated entry, and the slug;
/// `UnsupportedLang` for a language without a folder.
pub fn promotion_paths(lang: &str, user: &str, slug: &str) -> (r: Result<(String, String, String), LexiconError>)
    ensures
        match lang_dir_of(lang@) {
            None => r matches Err(LexiconError::UnsupportedLang(l)) && l@ == lang@,
            Some(d) => r matches Ok((from, to, sl)) && from@ == user_term_path_of(d, user@, slug@)
                && to@ == shared_term_path_of(d, slug@) && sl@ == slug_of(slug@),
        },
{
    match LexiconStore::user_term_path(lang, user, slug) {
        Err(e) => Err(e),
        Ok(from) => match LexiconStore::shared_term_path(lang, slug) {
            Err(e) => Err(e),
            Ok(to) => Ok((from, to, slugify(slug))),
        },
    }
}

/// `s` with the first `pat` replaced by `rep` (`str::replacen(.., 1)`).
pub open spec fn replace_first(s: Seq<char>, pat: Seq<char>, rep: Seq<char>) -> Seq<char> {
    match find_from(s, pat, 0) {
        Some(i) => s.take(i) + rep + s.skip(i + pat.len()),
        None => s,
    }
}

/// `s` with every `pat`, from the left and not overlapping, replaced by
/// `rep` (`str::replace`).
pub open spec fn replace_all(s: Seq<char>, pat: Seq<char>, rep: Seq<char>) -> Seq<char>
    decreases s.len(),
{
    if pat.len() == 0 {
        s
    } else {
        match find_from(s, pat, 0) {
            Some(i) => {
                proof {
                    lemma_find_from_ge(s, pat, 0);
                }
                s.take(i) + rep + replace_all(s.skip(i + pat.len()), pat, rep)
            },
            None => s,
        }
    }
}

/// The stamp of a reviewed entry.
pub open spec fn review_stamp(curator: Seq<char>, now: Seq<char>) -> Seq<char> {
    "seed_status: reviewed\nreviewed_by: "@ + yaml_quote(curator) + "\nreviewed_at: "@ + yaml_quote(now)
        + "\n"@
}

/// An entry marked reviewed by `curator` at `now`: the stub status line
/// becomes the review stamp (or, without one, the stamp goes right after
/// the opening `---`), and the stub note of the body becomes the curated
/// note.
pub open spec fn reviewed_entry(raw: Seq<char>, curator: Seq<char>, now: Seq<char>) -> Seq<char> {
    let stamp = review_stamp(curator, now);
    let first = if find_from(raw, "seed_status: stub\n"@, 0) is Some {
        replace_first(raw, "seed_status: stub\n"@, stamp)
    } else {
        replace_first(raw, "---\n"@, "---\n"@ + stamp)
    };
    replace_all(
        first,
        "`seed_status: stub` — pendente de revisão por falante/curador."@,
        "`seed_status: reviewed` — curado."@,
    )
}

fn replace_first_chars(s: &[char], pat: &[char], rep: &[char]) -> (r: Vec<char>)
    ensures
        r@ == replace_first(s@, pat@, rep@),
{
    match find_from_exec(s, pat, 0) {
        None => slice_chars(s, 0, s.len()),
        Some(i) => {
            let mut out = slice_chars(s, 0, i);
            extend_chars(&mut out, rep);
            let pl = pat.len();
            let sl = s.len();
            assert(i + pl <= sl);
            let rest = slice_chars(s, i + pl, sl);
            extend_chars(&mut out, rest.as_slice());
            assert(out@ =~= replace_first(s@, pat@, rep@));
            out
        },
    }
}

fn replace_all_chars(s: &[char], pat: &[char], rep: &[char]) -> (r: Vec<char>)
    requires
        pat@.len() > 0,
    ensures
        r@ == replace_all(s@, pat@, rep@),
    decreases s@.len(),
{
    match find_from_exec(s, pat, 0) {
        None => {
            let r = slice_chars(s, 0, s.len());
            assert(r@ =~= s@);
            r
        },
        Some(i) => {
            let mut out = slice_chars(s, 0, i);
            extend_chars(&mut out, rep);
            let pl = pat.len();
            let sl = s.len();
            assert(i + pl <= sl);
            let rest = slice_chars(s, i + pl, sl);
            let tail = replace_all_chars(rest.as_slice(), pat, rep);
            extend_chars(&mut out, tail.as_slice());
            assert(rest@ =~= s@.skip(i + pat@.len()));
            assert(out@ =~= replace_all(s@, pat@, rep@));
            out
        },
    }
}

/// Marks a contributed entry reviewed by `curator` at `now` (RFC 3339), as
/// [`reviewed_entry`] says.
pub fn mark_reviewed(raw: &str, curator: &str, now: &str) -> (r: String)
    ensures
        r@ == reviewed_entry(raw@, curator@, now@),
{
    let mut stamp = String::from_str("seed_status: reviewed\nreviewed_by: ");
    stamp.append(quote_yaml(curator).as_str());
    stamp.append("\nreviewed_at: ");
    stamp.append(quote_yaml(now).as_str());
    stamp.append("\n");
    let cs = str_chars(raw);
    let stub = str_chars("seed_status: stub\n");
    let st = str_chars(stamp.as_str());
    let first = if find_from_exec(cs.as_slice(), stub.as_slice(), 0).is_some() {
        replace_first_chars(cs.as_slice(), stub.as_slice(), st.as_slice())
    } else {
        let open = str_chars("---\n");
        let mut rep = str_chars("---\n");
        extend_chars(&mut rep, st.as_slice());
        replace_first_chars(cs.as_slice(), open.as_slice(), rep.as_slice())
    };
    let old_note = str_chars("`seed_status: stub` — pendente de revisão por falante/curador.");
    let new_note = str_chars("`seed_status: reviewed` — curado.");
    proof {
        reveal_strlit("`seed_status: stub` — pendente de revisão por falante/curador.");
    }
    let out = replace_all_chars(first.as_slice(), old_note.as_slice(), new_note.as_slice());
    string_of(out.as_slice())
}

} // verus!

verus! {

/// What promoting a user's entry does to the files: the entries involved,
/// the curated text to write where the curated entry is missing, and
/// whether the user's entry is to be archived (removed).
pub struct PromotionPlan {
    pub from_rel: String,
    pub to_rel: String,
    pub slug: String,
    pub write: Option<String>,
    pub archive: bool,
}

impl PromotionPlan {
    /// The outcome once the plan has been carried out; `removed` tells
    /// whether removing the user's entry succeeded.
    pub fn outcome(self, removed: bool) -> (r: Promotion)
        ensures
            r.from_rel@ == self.from_rel@,
            r.to_rel@ == self.to_rel@,
            r.slug@ == self.slug@,
            r.created == self.write is Some,
            r.archived == (self.archive && removed),
    {
        let created = self.write.is_some();
        Promotion {
            from_rel: self.from_rel,
            to_rel: self.to_rel,
            slug: self.slug,
            created,
            archived: self.archive && removed,
        }
    }
}

/// Promoting `user`'s entry `slug` in language `lang` to the curated
/// lexicon, reviewed by `curator` at `now` (RFC 3339), given whether the
/// curated entry exists and the user's entry as read (`None` where there is
/// none; its text is used only where the curated entry is missing).
/// A language without a folder fails; with no curated entry the user's
/// entry is needed (`NotFound` naming it otherwise) and becomes the curated
/// one, marked reviewed, and the user's entry is archived; with a curated
/// entry nothing is written and the user's entry, if any, is archived.
pub fn promotion(
    lang: &str,
    user: &str,
    slug: &str,
    curator: &str,
    now: &str,
    curated_exists: bool,
    stub: Option<&str>,
) -> (r: Result<PromotionPlan, LexiconError>)
    ensures
        match lang_dir_of(lang@) {
            None => r matches Err(LexiconError::UnsupportedLang(l)) && l@ == lang@,
            Some(d) => if !curated_exists && stub is None {
                r matches Err(LexiconError::NotFound(f)) && f@ == user_term_path_of(d, user@, slug@)
            } else {
                &&& r matches Ok(p)
                &&& p.from_rel@ == user_term_path_of(d, user@, slug@)
                &&& p.to_rel@ == shared_term_path_of(d, slug@)
                &&& p.slug@ == slug_of(slug@)
                &&& p.archive == (!curated_exists || stub is Some)
                &&& if curated_exists {
                    p.write is None
                } else {
                    p.write matches Some(w) && w@ == reviewed_entry(stub.unwrap()@, curator@, now@)
                }
            },
        },
{
    match promotion_paths(lang, user, slug) {
        Err(e) => Err(e),
        Ok((from_rel, to_rel, sl)) => {
            if curated_exists {
                let archive = stub.is_some();
                Ok(PromotionPlan { from_rel, to_rel, slug: sl, write: None, archive })
            } else {
                match stub {
                    None => Err(LexiconError::NotFound(from_rel)),
                    Some(raw) => {
                        let reviewed = mark_reviewed(raw, curator, now);
                        Ok(PromotionPlan { from_rel, to_rel, slug: sl, write: Some(reviewed), archive: true })
                    },
                }
            }
        },
    }
}

} // verus!

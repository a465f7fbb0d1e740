//! Meaning by context: each node becomes a context document (its gloss,
//! examples, role and relation labels) whose words are compared with those of
//! the others. Here stand the documents and the tokenizer that turns their
//! text into words.
use vstd::prelude::*;
use vstd::string::*;
use crate::text::{alnum_of, is_alphanumeric, str_chars, str_eq, string_of};
use super::lexicon::{slug_of, slugify};

verus! {

/// A node's context document: its id and free text.
#[derive(Debug, Clone)]
pub struct ContextDoc {
    pub id: String,
    pub text: String,
}

impl ContextDoc {
    /// A document with the given id and text.
    pub fn new(id: &str, text: &str) -> (r: Self)
        ensures
            r.id@ == id@,
            r.text@ == text@,
    {
        ContextDoc { id: id.to_string(), text: text.to_string() }
    }
}

/// The words of `s` after the partial word `cur`: the maximal runs of
/// alphanumeric characters, in order.
pub open spec fn split_words(s: Seq<char>, cur: Seq<char>) -> Seq<Seq<char>>
    decreases s.len(),
{
    if s.len() == 0 {
        if cur.len() == 0 {
            seq![]
        } else {
            seq![cur]
        }
    } else if alnum_of(s[0]) {
        split_words(s.drop_first(), cur.push(s[0]))
    } else {
        (if cur.len() == 0 {
            seq![]
        } else {
            seq![cur]
        }) + split_words(s.drop_first(), seq![])
    }
}

/// The stopwords: function words that carry no content.
pub open spec fn stopwords() -> Seq<Seq<char>> {
    seq![
        "de"@, "a"@, "o"@, "e"@, "do"@, "da"@, "das"@, "dos"@, "em"@, "um"@, "uma"@, "uns"@,
        "umas"@, "os"@, "as"@, "que"@, "com"@, "para"@, "por"@, "mais"@, "ou"@, "no"@, "na"@,
        "nos"@, "nas"@, "se"@, "sua"@, "seu"@, "ao"@, "à"@, "the"@, "of"@,
    ]
}

/// A slug is kept as a token: two characters or more, not the placeholder
/// `termo`, not a stopword.
pub open spec fn keeps_token(t: Seq<char>) -> bool {
    t.len() >= 2 && t != "termo"@ && !stopwords().contains(t)
}

/// The tokens of a text: the slug of each word, those that [`keeps_token`].
pub open spec fn tokens_of(s: Seq<char>) -> Seq<Seq<char>> {
    split_words(s, seq![]).map_values(|w: Seq<char>| slug_of(w)).filter(|t: Seq<char>| keeps_token(t))
}

fn is_stopword(t: &str) -> (r: bool)
    ensures
        r == stopwords().contains(t@),
{
    let stop: [&str; 32] = [
        "de", "a", "o", "e", "do", "da", "das", "dos", "em", "um", "uma", "uns", "umas", "os", "as",
        "que", "com", "para", "por", "mais", "ou", "no", "na", "nos", "nas", "se", "sua", "seu",
        "ao", "à", "the", "of",
    ];
    let mut i: usize = 0;
    while i < 32
        invariant
            i <= 32,
            stop@ == seq![
                "de", "a", "o", "e", "do", "da", "das", "dos", "em", "um", "uma", "uns", "umas", "os",
                "as", "que", "com", "para", "por", "mais", "ou", "no", "na", "nos", "nas", "se", "sua",
                "seu", "ao", "à", "the", "of",
            ],
            forall|j: int| 0 <= j < i ==> stop@[j]@ != t@,
        decreases 32 - i,
    {
        if str_eq(stop[i], t) {
            proof {
                assert(stopwords()[i as int] == stop@[i as int]@);
            }
            return true;
        }
        i = i + 1;
    }
    proof {
        if stopwords().contains(t@) {
            let j = choose|j: int| 0 <= j < stopwords().len() && stopwords()[j] == t@;
            assert(stopwords()[j] == stop@[j]@);
        }
    }
    false
}

/// The tokens of `text` (see [`tokens_of`]): its words, split at every
/// character that is not alphanumeric, each folded and lowercased by
/// [`slugify`], without stopwords, one-character tokens or the placeholder.
pub fn tokens(text: &str) -> (r: Vec<String>)
    ensures
        r@.map_values(|t: String| t@) == tokens_of(text@),
{
    let cs = str_chars(text);
    let mut words: Vec<String> = Vec::new();
    let mut cur: Vec<char> = Vec::new();
    let mut i: usize = 0;
    let ghost s = text@;
    proof {
        assert(cs@.subrange(0, cs@.len() as int) =~= s);
    }
    while i < cs.len()
        invariant
            cs@ == s,
            i <= cs@.len(),
            words@.map_values(|w: String| w@) + split_words(cs@.subrange(i as int, cs@.len() as int), cur@)
                == split_words(s, seq![]),
        decreases cs@.len() - i,
    {
        let ghost rest = cs@.subrange(i as int, cs@.len() as int);
        proof {
            assert(rest.drop_first() =~= cs@.subrange(i + 1, cs@.len() as int));
        }
        let c = cs[i];
        if is_alphanumeric(c) {
            cur.push(c);
        } else {
            if cur.len() > 0 {
                let ghost before = words@.map_values(|w: String| w@);
                let w = string_of(cur.as_slice());
                words.push(w);
                proof {
                    assert(words@.map_values(|w: String| w@) =~= before.push(cur@));
                    assert(before.push(cur@) + split_words(rest.drop_first(), seq![]) =~= before + (
                    seq![cur@] + split_words(rest.drop_first(), seq![])));
                }
            } else {
                proof {
                    assert(seq![] + split_words(rest.drop_first(), seq![]) =~= split_words(
                        rest.drop_first(),
                        seq![],
                    ));
                }
            }
            cur = Vec::new();
        }
        i = i + 1;
    }
    proof {
        assert(cs@.subrange(i as int, cs@.len() as int) =~= Seq::<char>::empty());
    }
    if cur.len() > 0 {
        let ghost before = words@.map_values(|w: String| w@);
        words.push(string_of(cur.as_slice()));
        proof {
            assert(words@.map_values(|w: String| w@) =~= before + seq![cur@]);
        }
    } else {
        proof {
            assert(words@.map_values(|w: String| w@) + seq![] =~= words@.map_values(|w: String| w@));
        }
    }
    let ghost ws = words@.map_values(|w: String| w@);
    let mut r: Vec<String> = Vec::new();
    let mut k: usize = 0;
    proof {
        reveal(Seq::filter);
        assert(ws.take(0).map_values(|w: Seq<char>| slug_of(w)) =~= Seq::<Seq<char>>::empty());
    }
    while k < words.len()
        invariant
            ws == words@.map_values(|w: String| w@),
            ws == split_words(s, seq![]),
            k <= words@.len(),
            r@.map_values(|t: String| t@) == ws.take(k as int).map_values(|w: Seq<char>| slug_of(w)).filter(
                |t: Seq<char>| keeps_token(t),
            ),
        decreases words@.len() - k,
    {
        let t = slugify(words[k].as_str());
        let keep = t.unicode_len() >= 2 && !str_eq(t.as_str(), "termo") && !is_stopword(t.as_str());
        let ghost prev = r@.map_values(|t: String| t@);
        proof {
            reveal_strlit("termo");
            let m = ws.take(k + 1).map_values(|w: Seq<char>| slug_of(w));
            assert(m.drop_last() =~= ws.take(k as int).map_values(|w: Seq<char>| slug_of(w)));
            assert(m.last() == t@);
            reveal(Seq::filter);
            assert(m.len() > 0);
        }
        if keep {
            r.push(t);
            proof {
                assert(r@.map_values(|t: String| t@) =~= prev.push(t@));
            }
        }
        k = k + 1;
    }
    proof {
        assert(ws.take(words@.len() as int) =~= ws);
    }
    r
}

} // verus!

//! The per-user ledger of bits: learning a language earns bits in proportion
//! to its entropy, and bits buy hints.
//!
//! - Discovering an entry the first time credits `⌊bits_per_symbol⌋`, at least
//!   one; discovering it again credits nothing.
//! - A right identification credits `⌊2 × bits_per_symbol / 2^attempts⌋` (at
//!   least one on the first attempt), where attempts counts every earlier try
//!   at the entry, right or wrong.
//! - Revealing a hidden gloss costs `⌈bits_per_symbol⌉`, at least one; the
//!   balance never goes below zero.
//!
//! Every credit and debit is a whole number of bits, so the balance is kept
//! as an integer; the caller hands in the whole-number parts of the pack's
//! bits per symbol (`⌊b⌋`, `⌊2b⌋`, `⌈b⌉`) that the rules use.
use vstd::prelude::*;
use vstd::string::*;
use crate::keyed::{find_key, keyed_map, put, unique_keys};
use crate::text::{str_chars, str_eq, string_of, trim, trim_chars};

verus! {

/// What `str::to_lowercase` gives for `s`.
pub uninterp spec fn lowercase_str_of(s: Seq<char>) -> Seq<char>;

/// `str::to_lowercase`.
#[verifier::external_body]
fn to_lowercase_string(s: &str) -> (r: String)
    ensures
        r@ == lowercase_str_of(s@),
{
    s.to_lowercase()
}

/// The ledger key of `term` in `pack`: `pack/term`.
pub open spec fn entry_key(pack: Seq<char>, term: Seq<char>) -> Seq<char> {
    pack + "/"@ + term
}

/// An answer matches the expected term: equal after trimming and lowercasing.
pub open spec fn same_answer(answer: Seq<char>, expected: Seq<char>) -> bool {
    lowercase_str_of(trim(answer)) == lowercase_str_of(trim(expected))
}

/// The bonus for a right identification after `attempts` earlier tries, from
/// `⌊2 × bits_per_symbol⌋`.
pub open spec fn bonus(twice_floor_bps: u64, attempts: u32) -> int {
    if attempts == 0 {
        if twice_floor_bps == 0 {
            1
        } else {
            twice_floor_bps as int
        }
    } else {
        twice_floor_bps as int / vstd::arithmetic::power2::pow2(
            if attempts > 62 {
                62nat
            } else {
                attempts as nat
            },
        ) as int
    }
}

/// Some string of the list equals `k`.
pub open spec fn listed_key(s: Seq<String>, k: Seq<char>) -> bool {
    exists|i: int| 0 <= i < s.len() && #[trigger] s[i]@ == k
}

/// No string occurs twice.
pub open spec fn distinct_strings(s: Seq<String>) -> bool {
    forall|i: int, j: int|
        0 <= i < s.len() && 0 <= j < s.len() && i != j ==> #[trigger] s[i]@ != #[trigger] s[j]@
}

/// A user's ledger of bits.
#[derive(Debug, Clone, PartialEq)]
pub struct BitsLedger {
    /// The balance, in bits.
    pub total_bits: u64,
    /// Entries discovered already, by key.
    pub discovered: Vec<String>,
    /// Identification attempts so far, by entry key.
    pub identified: Vec<(String, u32)>,
}

/// A ledger as values.
pub struct LedgerV {
    pub total_bits: u64,
    pub discovered: Set<Seq<char>>,
    pub identified: Map<Seq<char>, u32>,
}

impl View for BitsLedger {
    type V = LedgerV;

    open spec fn view(&self) -> LedgerV {
        LedgerV {
            total_bits: self.total_bits,
            discovered: Set::new(|k: Seq<char>| listed_key(self.discovered@, k)),
            identified: keyed_map(self.identified@),
        }
    }
}

/// The attempts recorded for `key`.
pub open spec fn attempts_of(l: LedgerV, key: Seq<char>) -> u32 {
    if l.identified.dom().contains(key) {
        l.identified[key]
    } else {
        0
    }
}

fn key_of(pack: &str, term: &str) -> (r: String)
    ensures
        r@ == entry_key(pack@, term@),
{
    let mut r = pack.to_string();
    r.append("/");
    r.append(term);
    r
}

fn find_string(v: &Vec<String>, k: &str) -> (r: bool)
    ensures
        r == listed_key(v@, k@),
{
    let mut i: usize = 0;
    while i < v.len()
        invariant
            i <= v@.len(),
            forall|j: int| 0 <= j < i ==> #[trigger] v@[j]@ != k@,
        decreases v@.len() - i,
    {
        if str_eq(v[i].as_str(), k) {
            return true;
        }
        i = i + 1;
    }
    false
}

fn shift_right(x: u64, n: u32) -> (r: u64)
    requires
        n <= 62,
    ensures
        r == x as int / vstd::arithmetic::power2::pow2(n as nat) as int,
{
    let r = x >> n;
    proof {
        vstd::bits::lemma_u64_shr_is_div(x, n as u64);
    }
    r
}

impl BitsLedger {
    /// No discovered key twice, no attempts key twice.
    pub open spec fn wf(&self) -> bool {
        &&& distinct_strings(self.discovered@)
        &&& unique_keys(self.identified@)
    }

    /// The empty ledger.
    pub fn new() -> (r: Self)
        ensures
            r.wf(),
            r@.total_bits == 0,
            r@.discovered == Set::<Seq<char>>::empty(),
            r@.identified == Map::<Seq<char>, u32>::empty(),
    {
        let r = BitsLedger { total_bits: 0, discovered: Vec::new(), identified: Vec::new() };
        assert(r@.discovered =~= Set::<Seq<char>>::empty());
        assert(keyed_map(r.identified@) =~= Map::<Seq<char>, u32>::empty());
        r
    }

    /// Credits the first discovery of `term` in `pack`: `⌊b⌋` bits, at least
    /// one, given `floor_bps = ⌊b⌋`. Returns the bits credited, 0 for an entry
    /// discovered before.
    pub fn discover(&mut self, pack: &str, term: &str, floor_bps: u64) -> (r: u64)
        requires
            old(self).wf(),
            old(self).total_bits + (if floor_bps == 0 {
                1
            } else {
                floor_bps as int
            }) <= u64::MAX,
        ensures
            final(self).wf(),
            final(self)@.identified == old(self)@.identified,
            old(self)@.discovered.contains(entry_key(pack@, term@)) ==> {
                &&& r == 0
                &&& final(self)@.total_bits == old(self)@.total_bits
                &&& final(self)@.discovered == old(self)@.discovered
            },
            !old(self)@.discovered.contains(entry_key(pack@, term@)) ==> {
                &&& r == (if floor_bps == 0 {
                    1
                } else {
                    floor_bps
                })
                &&& final(self)@.total_bits == old(self)@.total_bits + r
                &&& final(self)@.discovered == old(self)@.discovered.insert(entry_key(pack@, term@))
            },
    {
        let key = key_of(pack, term);
        if find_string(&self.discovered, key.as_str()) {
            return 0;
        }
        let credit = if floor_bps == 0 {
            1
        } else {
            floor_bps
        };
        self.total_bits = self.total_bits + credit;
        let ghost s = self.discovered@;
        let ghost k = key@;
        self.discovered.push(key);
        proof {
            let t = self.discovered@;
            assert forall|i: int, j: int|
                0 <= i < t.len() && 0 <= j < t.len() && i != j implies #[trigger] t[i]@ != #[trigger] t[j]@ by {
                if i < s.len() && j < s.len() {
                    assert(s[i]@ != s[j]@);
                } else if i < s.len() {
                    assert(t[i] == s[i]);
                    assert(!listed_key(s, k));
                } else {
                    assert(t[j] == s[j]);
                    assert(!listed_key(s, k));
                }
            }
            assert forall|x: Seq<char>| listed_key(t, x) <==> (listed_key(s, x) || x == k) by {
                if listed_key(t, x) {
                    let i = choose|i: int| 0 <= i < t.len() && #[trigger] t[i]@ == x;
                    if i < s.len() {
                        assert(s[i] == t[i]);
                    }
                }
                if listed_key(s, x) {
                    let i = choose|i: int| 0 <= i < s.len() && #[trigger] s[i]@ == x;
                    assert(t[i] == s[i]);
                }
                if x == k {
                    assert(t[s.len() as int]@ == k);
                }
            }
            assert(self@.discovered =~= old(self)@.discovered.insert(k));
        }
        credit
    }

    /// Records an attempt to identify `term` of `pack`, right when `answer`
    /// matches `correct_term`, and credits the bonus for a right one, given
    /// `twice_floor_bps = ⌊2b⌋`. Returns whether it was right and the bits
    /// credited.
    pub fn grade_attempt(
        &mut self,
        pack: &str,
        term: &str,
        answer: &str,
        correct_term: &str,
        twice_floor_bps: u64,
    ) -> (r: (bool, u64))
        requires
            old(self).wf(),
            attempts_of(old(self)@, entry_key(pack@, term@)) < u32::MAX,
            old(self).total_bits + (if twice_floor_bps == 0 {
                1
            } else {
                twice_floor_bps as int
            }) <= u64::MAX,
        ensures
            final(self).wf(),
            final(self)@.discovered == old(self)@.discovered,
            final(self)@.identified == old(self)@.identified.insert(
                entry_key(pack@, term@),
                (attempts_of(old(self)@, entry_key(pack@, term@)) + 1) as u32,
            ),
            r.0 == same_answer(answer@, correct_term@),
            r.0 ==> r.1 == bonus(twice_floor_bps, attempts_of(old(self)@, entry_key(pack@, term@))),
            !r.0 ==> r.1 == 0,
            final(self)@.total_bits == old(self)@.total_bits + r.1,
    {
        let key = key_of(pack, term);
        let attempts: u32 = match find_key(&self.identified, key.as_str()) {
            Some(i) => {
                proof {
                    crate::keyed::lemma_keyed_map_at(self.identified@, i as int);
                }
                self.identified[i].1
            },
            None => 0,
        };
        let ghost k = key@;
        put(&mut self.identified, key, attempts + 1);
        let ta = trim_chars(str_chars(answer).as_slice());
        let tc = trim_chars(str_chars(correct_term).as_slice());
        let sa = string_of(ta.as_slice());
        let sc = string_of(tc.as_slice());
        let la = to_lowercase_string(sa.as_str());
        let lc = to_lowercase_string(sc.as_str());
        let correct = str_eq(la.as_str(), lc.as_str());
        if !correct {
            return (false, 0);
        }
        let bonus: u64 = if attempts == 0 {
            if twice_floor_bps == 0 {
                1
            } else {
                twice_floor_bps
            }
        } else {
            let m: u32 = if attempts > 62 {
                62
            } else {
                attempts
            };
            let b = shift_right(twice_floor_bps, m);
            proof {
                assert(vstd::arithmetic::power2::pow2(m as nat) >= 1) by {
                    vstd::arithmetic::power2::lemma_pow2_pos(m as nat);
                }
                vstd::arithmetic::div_mod::lemma_div_is_ordered_by_denominator(
                    twice_floor_bps as int,
                    1,
                    vstd::arithmetic::power2::pow2(m as nat) as int,
                );
            }
            b
        };
        self.total_bits = self.total_bits + bonus;
        (true, bonus)
    }

    /// Pays for revealing a hidden gloss: `⌈b⌉` bits, at least one, given
    /// `ceil_bps = ⌈b⌉`. `Ok(cost)` when the balance covers it, else
    /// `Err(cost)` with the balance unchanged.
    pub fn reveal_gloss(&mut self, pack: &str, term: &str, ceil_bps: u64) -> (r: Result<u64, u64>)
        ensures
            final(self)@.discovered == old(self)@.discovered,
            final(self)@.identified == old(self)@.identified,
            final(self).discovered == old(self).discovered,
            final(self).identified == old(self).identified,
            ({
                let cost = if ceil_bps == 0 {
                    1
                } else {
                    ceil_bps
                };
                if old(self).total_bits < cost {
                    r == Err::<u64, u64>(cost) && final(self).total_bits == old(self).total_bits
                } else {
                    r == Ok::<u64, u64>(cost) && final(self).total_bits == old(self).total_bits - cost
                }
            }),
    {
        let cost = if ceil_bps == 0 {
            1
        } else {
            ceil_bps
        };
        if self.total_bits < cost {
            return Err(cost);
        }
        self.total_bits = self.total_bits - cost;
        Ok(cost)
    }
}

} // verus!

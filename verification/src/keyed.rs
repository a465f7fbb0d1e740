//! A map from string keys to values, kept as a list of `(key, value)` pairs
//! with no key twice. Its model is a `Map` from the key's characters to the
//! value's view.
use vstd::prelude::*;
use crate::text::str_eq;

verus! {

/// Some pair of the list has the key `k`.
pub open spec fn has_key<V>(s: Seq<(String, V)>, k: Seq<char>) -> bool {
    exists|i: int| 0 <= i < s.len() && #[trigger] s[i].0@ == k
}

/// No key occurs twice.
pub open spec fn unique_keys<V>(s: Seq<(String, V)>) -> bool {
    forall|i: int, j: int|
        0 <= i < s.len() && 0 <= j < s.len() && i != j ==> #[trigger] s[i].0@ != #[trigger] s[j].0@
}

/// The position of the pair with key `k`.
pub open spec fn key_index<V>(s: Seq<(String, V)>, k: Seq<char>) -> int {
    choose|i: int| 0 <= i < s.len() && #[trigger] s[i].0@ == k
}

/// The list as a map from keys to the views of their values.
pub open spec fn keyed_map<V: View>(s: Seq<(String, V)>) -> Map<Seq<char>, V::V> {
    Map::new(|k: Seq<char>| has_key(s, k), |k: Seq<char>| s[key_index(s, k)].1@)
}

/// With unique keys, the pair at `i` is the one that its key finds.
pub proof fn lemma_key_index<V>(s: Seq<(String, V)>, i: int)
    requires
        unique_keys(s),
        0 <= i < s.len(),
    ensures
        has_key(s, s[i].0@),
        key_index(s, s[i].0@) == i,
{
    let k = s[i].0@;
    assert(s[i].0@ == k);
    let j = key_index(s, k);
    assert(0 <= j < s.len() && s[j].0@ == k);
    if j != i {
        assert(s[i].0@ != s[j].0@);
    }
}

/// With unique keys, the map gives each pair's value at its key.
pub proof fn lemma_keyed_map_at<V: View>(s: Seq<(String, V)>, i: int)
    requires
        unique_keys(s),
        0 <= i < s.len(),
    ensures
        keyed_map(s).dom().contains(s[i].0@),
        keyed_map(s)[s[i].0@] == s[i].1@,
{
    lemma_key_index(s, i);
}

/// The position of the pair with key `k`, if there is one.
pub fn find_key<V>(v: &Vec<(String, V)>, k: &str) -> (r: Option<usize>)
    ensures
        match r {
            Some(i) => i < v@.len() && v@[i as int].0@ == k@,
            None => !has_key(v@, k@),
        },
{
    let mut i: usize = 0;
    while i < v.len()
        invariant
            i <= v@.len(),
            forall|j: int| 0 <= j < i ==> #[trigger] v@[j].0@ != k@,
        decreases v@.len() - i,
    {
        if str_eq(v[i].0.as_str(), k) {
            return Some(i);
        }
        i = i + 1;
    }
    None
}

/// The map after `s` has its pair at `i` replaced by one with the same key.
pub proof fn lemma_keyed_set<V: View>(s: Seq<(String, V)>, i: int, p: (String, V))
    requires
        unique_keys(s),
        0 <= i < s.len(),
        p.0@ == s[i].0@,
    ensures
        unique_keys(s.update(i, p)),
        keyed_map(s.update(i, p)) == keyed_map(s).insert(p.0@, p.1@),
{
    let t = s.update(i, p);
    assert forall|a: int, b: int|
        0 <= a < t.len() && 0 <= b < t.len() && a != b implies #[trigger] t[a].0@ != #[trigger] t[b].0@ by {
        assert(t[a].0@ == s[a].0@);
        assert(t[b].0@ == s[b].0@);
        assert(s[a].0@ != s[b].0@);
    }
    assert forall|k: Seq<char>| has_key(t, k) <==> has_key(s, k) by {
        if has_key(t, k) {
            let j = key_index(t, k);
            assert(s[j].0@ == k);
        }
        if has_key(s, k) {
            let j = key_index(s, k);
            assert(t[j].0@ == k);
        }
    }
    assert forall|k: Seq<char>| #[trigger] keyed_map(t).dom().contains(k) implies keyed_map(t)[k]
        == keyed_map(s).insert(p.0@, p.1@)[k] by {
        let j = key_index(t, k);
        lemma_key_index(t, j);
        if j == i {
        } else {
            assert(s[j].0@ == k);
            lemma_key_index(s, j);
        }
    }
    assert(keyed_map(t).dom() =~= keyed_map(s).insert(p.0@, p.1@).dom());
    assert(keyed_map(t) =~= keyed_map(s).insert(p.0@, p.1@));
}

/// The map after a pair with a new key is pushed.
pub proof fn lemma_keyed_push<V: View>(s: Seq<(String, V)>, p: (String, V))
    requires
        unique_keys(s),
        !has_key(s, p.0@),
    ensures
        unique_keys(s.push(p)),
        keyed_map(s.push(p)) == keyed_map(s).insert(p.0@, p.1@),
{
    let t = s.push(p);
    let n = s.len() as int;
    assert forall|a: int, b: int|
        0 <= a < t.len() && 0 <= b < t.len() && a != b implies #[trigger] t[a].0@ != #[trigger] t[b].0@ by {
        if a < n && b < n {
            assert(s[a].0@ != s[b].0@);
        } else if a < n {
            assert(s[a].0@ == t[a].0@);
        } else {
            assert(s[b].0@ == t[b].0@);
        }
    }
    assert forall|k: Seq<char>| has_key(t, k) <==> (has_key(s, k) || k == p.0@) by {
        if has_key(t, k) {
            let j = key_index(t, k);
            if j < n {
                assert(s[j].0@ == k);
            }
        }
        if has_key(s, k) {
            let j = key_index(s, k);
            assert(t[j].0@ == k);
        }
        if k == p.0@ {
            assert(t[n].0@ == k);
        }
    }
    assert forall|k: Seq<char>| #[trigger] keyed_map(t).dom().contains(k) implies keyed_map(t)[k]
        == keyed_map(s).insert(p.0@, p.1@)[k] by {
        let j = key_index(t, k);
        lemma_key_index(t, j);
        if j < n {
            assert(s[j].0@ == k);
            lemma_key_index(s, j);
        }
    }
    assert(keyed_map(t).dom() =~= keyed_map(s).insert(p.0@, p.1@).dom());
    assert(keyed_map(t) =~= keyed_map(s).insert(p.0@, p.1@));
}

/// The map after the pair at `i` is removed.
pub proof fn lemma_keyed_remove<V: View>(s: Seq<(String, V)>, i: int)
    requires
        unique_keys(s),
        0 <= i < s.len(),
    ensures
        unique_keys(s.remove(i)),
        keyed_map(s.remove(i)) == keyed_map(s).remove(s[i].0@),
{
    let t = s.remove(i);
    let k0 = s[i].0@;
    assert forall|a: int, b: int|
        0 <= a < t.len() && 0 <= b < t.len() && a != b implies #[trigger] t[a].0@ != #[trigger] t[b].0@ by {
        let sa = if a < i { a } else { a + 1 };
        let sb = if b < i { b } else { b + 1 };
        assert(t[a] == s[sa]);
        assert(t[b] == s[sb]);
        assert(s[sa].0@ != s[sb].0@);
    }
    assert forall|k: Seq<char>| has_key(t, k) <==> (has_key(s, k) && k != k0) by {
        if has_key(t, k) {
            let j = key_index(t, k);
            let sj = if j < i { j } else { j + 1 };
            assert(t[j] == s[sj]);
            assert(s[sj].0@ == k);
            assert(s[i].0@ != s[sj].0@);
        }
        if has_key(s, k) && k != k0 {
            let j = key_index(s, k);
            assert(j != i);
            let tj = if j < i { j } else { j - 1 };
            assert(t[tj] == s[j]);
            assert(t[tj].0@ == k);
        }
    }
    assert forall|k: Seq<char>| #[trigger] keyed_map(t).dom().contains(k) implies keyed_map(t)[k]
        == keyed_map(s).remove(k0)[k] by {
        let j = key_index(t, k);
        lemma_key_index(t, j);
        let sj = if j < i { j } else { j + 1 };
        assert(t[j] == s[sj]);
        lemma_key_index(s, sj);
    }
    assert(keyed_map(t).dom() =~= keyed_map(s).remove(k0).dom());
    assert(keyed_map(t) =~= keyed_map(s).remove(k0));
}

/// Sets the value of `k` to `val`: in place where the key is there, pushed at
/// the end where it is not.
pub fn put<V: View>(v: &mut Vec<(String, V)>, k: String, val: V)
    requires
        unique_keys(old(v)@),
    ensures
        unique_keys(final(v)@),
        keyed_map(final(v)@) == keyed_map(old(v)@).insert(k@, val@),
{
    let ghost kv = k@;
    let ghost vv = val@;
    match find_key(v, k.as_str()) {
        Some(i) => {
            proof {
                lemma_keyed_set(v@, i as int, (k, val));
            }
            v.set(i, (k, val));
        },
        None => {
            proof {
                lemma_keyed_push(v@, (k, val));
            }
            v.push((k, val));
        },
    }
}

/// Removes the pair with key `k`; `true` when there was one.
pub fn take_key<V: View>(v: &mut Vec<(String, V)>, k: &str) -> (r: bool)
    requires
        unique_keys(old(v)@),
    ensures
        unique_keys(final(v)@),
        r == keyed_map(old(v)@).dom().contains(k@),
        keyed_map(final(v)@) == keyed_map(old(v)@).remove(k@),
{
    match find_key(v, k) {
        Some(i) => {
            proof {
                lemma_keyed_remove(v@, i as int);
                lemma_key_index(v@, i as int);
            }
            v.remove(i);
            true
        },
        None => {
            assert(keyed_map(v@).remove(k@) =~= keyed_map(v@));
            false
        },
    }
}

} // verus!

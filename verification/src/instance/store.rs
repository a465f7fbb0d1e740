//! Where the instance store keeps things, and the names it gives them.
//!
//! Each instance is `<root>/<id>/instance.json`; attachments are content
//! addressed by their SHA-256 under `<root>/_blobs/<shard>/<hash>`, where the
//! shard is the hash's first two bytes. Paths are given as lists of
//! components under the root, joined one by one by whoever touches the disk.
use vstd::prelude::*;
use vstd::string::*;
use sha2::Digest;
use crate::text::{push_char, str_chars};

verus! {

/// The SHA-256 digest of `data`.
pub uninterp spec fn sha256_of(data: Seq<u8>) -> Seq<u8>;

/// `Sha256::digest` of the `sha2` crate (a fresh hasher, one update, then
/// finalize). The contract claims that the result is the digest of `data`,
/// named [`sha256_of`], and that it is 32 bytes long, the output size that
/// `sha2` declares for SHA-256.
#[verifier::external_body]
fn sha256(data: &[u8]) -> (r: Vec<u8>)
    ensures
        r@ == sha256_of(data@),
        r@.len() == 32,
{
    sha2::Sha256::digest(data).to_vec()
}

/// The lowercase hexadecimal digit of `n` (below 16).
pub open spec fn hex_digit(n: int) -> char {
    if n < 10 {
        (n + 48) as char
    } else {
        (n + 87) as char
    }
}

/// Lowercase hexadecimal of a byte string, two digits per byte.
pub open spec fn hex_of(d: Seq<u8>) -> Seq<char>
    decreases d.len(),
{
    if d.len() == 0 {
        seq![]
    } else {
        hex_of(d.drop_last()) + seq![hex_digit((d.last() / 16) as int), hex_digit((d.last() % 16) as int)]
    }
}

proof fn lemma_hex_len(d: Seq<u8>)
    ensures
        hex_of(d).len() == 2 * d.len(),
    decreases d.len(),
{
    if d.len() > 0 {
        lemma_hex_len(d.drop_last());
    }
}

fn hex_char(n: u8) -> (c: char)
    requires
        n < 16,
    ensures
        c == hex_digit(n as int),
{
    if n < 10 {
        (n + 48) as char
    } else {
        (n + 87) as char
    }
}

/// Writes bytes as lowercase hexadecimal, two digits per byte.
pub fn hex_string(d: &[u8]) -> (r: String)
    ensures
        r@ == hex_of(d@),
        r@.len() == 2 * d@.len(),
{
    let mut r = String::new();
    let mut i: usize = 0;
    proof {
        assert(d@.take(0) =~= Seq::<u8>::empty());
    }
    while i < d.len()
        invariant
            i <= d@.len(),
            r@ == hex_of(d@.take(i as int)),
        decreases d@.len() - i,
    {
        let b = d[i];
        proof {
            assert(d@.take(i as int + 1).drop_last() =~= d@.take(i as int));
        }
        push_char(&mut r, hex_char(b / 16));
        push_char(&mut r, hex_char(b % 16));
        i = i + 1;
    }
    proof {
        assert(d@.take(d@.len() as int) =~= d@);
        lemma_hex_len(d@);
    }
    r
}

/// The number of bytes that UTF-8 takes for `c`.
pub open spec fn utf8_len(c: char) -> int {
    let u = c as u32;
    if u < 0x80 {
        1
    } else if u < 0x800 {
        2
    } else if u < 0x10000 {
        3
    } else {
        4
    }
}

/// The blob shard of `hash`: its first two bytes (the whole hash when it is
/// shorter), or `None` where byte 2 falls inside a character.
pub open spec fn shard_of(h: Seq<char>) -> Option<Seq<char>> {
    if h.len() == 0 {
        Some(h)
    } else if utf8_len(h[0]) == 2 {
        Some(h.take(1))
    } else if utf8_len(h[0]) == 1 {
        if h.len() == 1 {
            Some(h)
        } else if utf8_len(h[1]) == 1 {
            Some(h.take(2))
        } else {
            None
        }
    } else {
        None
    }
}

fn char_utf8_len(c: char) -> (n: usize)
    ensures
        n == utf8_len(c),
{
    let u = c as u32;
    if u < 0x80 {
        1
    } else if u < 0x800 {
        2
    } else if u < 0x10000 {
        3
    } else {
        4
    }
}

/// Position `i` occurs in `idx`.
pub open spec fn listed(idx: Seq<usize>, i: int) -> bool {
    exists|k: int| 0 <= k < idx.len() && #[trigger] idx[k] == i
}

/// The ordering of listings: positions sorted by `keys` from the largest
/// down, ties in their original order.
pub open spec fn newest_order(keys: Seq<i64>, idx: Seq<usize>) -> bool {
    &&& idx.len() == keys.len()
    &&& forall|k: int| 0 <= k < idx.len() ==> #[trigger] idx[k] < keys.len()
    &&& forall|i: int| 0 <= i < keys.len() ==> #[trigger] listed(idx, i)
    &&& forall|k: int, l: int|
        0 <= k < l < idx.len() ==> (keys[#[trigger] idx[k] as int] > keys[#[trigger] idx[l] as int] || (
        keys[idx[k] as int] == keys[idx[l] as int] && idx[k] < idx[l]))
}

/// The order in which a listing shows its items: by `keys` (the times of last
/// change) from the newest down, items changed at the same time in their
/// original order.
pub fn newest_first(keys: &Vec<i64>) -> (r: Vec<usize>)
    ensures
        newest_order(keys@, r@),
{
    let mut r: Vec<usize> = Vec::new();
    let mut i: usize = 0;
    while i < keys.len()
        invariant
            i <= keys@.len(),
            r@.len() == i,
            forall|k: int| 0 <= k < r@.len() ==> #[trigger] r@[k] < i,
            forall|j: int| 0 <= j < i ==> #[trigger] listed(r@, j),
            forall|k: int, l: int|
                0 <= k < l < r@.len() ==> (keys@[#[trigger] r@[k] as int] > keys@[#[trigger] r@[l] as int]
                    || (keys@[r@[k] as int] == keys@[r@[l] as int] && r@[k] < r@[l])),
        decreases keys@.len() - i,
    {
        let d = keys[i];
        let mut pos: usize = r.len();
        while pos > 0 && keys[r[pos - 1]] < d
            invariant
                pos <= r@.len(),
                i < keys@.len(),
                d == keys@[i as int],
                forall|k: int| 0 <= k < r@.len() ==> #[trigger] r@[k] < i,
                forall|k: int| pos <= k < r@.len() ==> keys@[#[trigger] r@[k] as int] < d,
            decreases pos,
        {
            pos = pos - 1;
        }
        let ghost old_r = r@;
        r.insert(pos, i);
        proof {
            assert forall|k: int| 0 <= k < r@.len() implies #[trigger] r@[k] < i + 1 by {
                if k < pos {
                    assert(r@[k] == old_r[k]);
                } else if k > pos {
                    assert(r@[k] == old_r[k - 1]);
                }
            }
            assert forall|j: int| 0 <= j < i + 1 implies #[trigger] listed(r@, j) by {
                if j == i {
                    assert(r@[pos as int] == j);
                } else {
                    assert(listed(old_r, j));
                    let k0 = choose|k: int| 0 <= k < old_r.len() && #[trigger] old_r[k] == j;
                    if k0 < pos {
                        assert(r@[k0] == j);
                    } else {
                        assert(r@[k0 + 1] == j);
                    }
                }
            }
            assert forall|k: int, l: int| 0 <= k < l < r@.len() implies (keys@[#[trigger] r@[k] as int]
                > keys@[#[trigger] r@[l] as int] || (keys@[r@[k] as int] == keys@[r@[l] as int] && r@[k]
                < r@[l])) by {
                if l < pos {
                    assert(r@[k] == old_r[k] && r@[l] == old_r[l]);
                } else if k > pos {
                    assert(r@[k] == old_r[k - 1] && r@[l] == old_r[l - 1]);
                } else if k == pos {
                    assert(r@[l] == old_r[l - 1]);
                    assert(keys@[old_r[l - 1] as int] < d);
                } else if l == pos {
                    assert(r@[k] == old_r[k]);
                    if pos > 0 {
                        assert(keys@[old_r[pos - 1] as int] >= d);
                        if k < pos - 1 {
                            assert(keys@[old_r[k] as int] >= keys@[old_r[pos - 1] as int]);
                        }
                    }
                    assert(old_r[k] < i);
                } else {
                    assert(r@[k] == old_r[k] && r@[l] == old_r[l - 1]);
                }
            }
        }
        i = i + 1;
    }
    r
}

/// The store of instances and their attachments.
pub struct InstanceStore {
    root: String,
}

impl InstanceStore {
    /// A store rooted at `root`.
    pub fn new(root: &str) -> (r: Self)
        ensures
            r.root_view() == root@,
    {
        InstanceStore { root: root.to_string() }
    }

    pub closed spec fn root_view(&self) -> Seq<char> {
        self.root@
    }

    /// The store's root.
    pub fn root(&self) -> (r: &str)
        ensures
            r@ == self.root_view(),
    {
        self.root.as_str()
    }

    /// The directory of instance `id`, under the root.
    pub fn instance_dir(id: &str) -> (r: Vec<String>)
        ensures
            r@.len() == 1,
            r@[0]@ == id@,
    {
        let mut r: Vec<String> = Vec::new();
        r.push(id.to_string());
        r
    }

    /// The file of instance `id`, under the root.
    pub fn instance_path(id: &str) -> (r: Vec<String>)
        ensures
            r@.len() == 2,
            r@[0]@ == id@,
            r@[1]@ == "instance.json"@,
    {
        let mut r = Self::instance_dir(id);
        r.push("instance.json".to_string());
        r
    }

    /// The file of the blob with hash `hash`, under the root.
    pub fn blob_path(hash: &str) -> (r: Vec<String>)
        requires
            shard_of(hash@) is Some,
        ensures
            r@.len() == 3,
            r@[0]@ == "_blobs"@,
            r@[1]@ == shard_of(hash@).unwrap(),
            r@[2]@ == hash@,
    {
        let cs = str_chars(hash);
        let mut shard = String::new();
        if cs.len() > 0 {
            let n0 = char_utf8_len(cs[0]);
            if n0 == 2 {
                push_char(&mut shard, cs[0]);
            } else {
                push_char(&mut shard, cs[0]);
                if cs.len() > 1 {
                    push_char(&mut shard, cs[1]);
                    proof {
                        assert(shard@ =~= hash@.take(2));
                    }
                } else {
                    proof {
                        assert(shard@ =~= hash@);
                    }
                }
            }
        } else {
            proof {
                assert(shard@ =~= hash@);
            }
        }
        proof {
            if cs@.len() > 0 && utf8_len(cs@[0]) == 2 {
                assert(shard@ =~= hash@.take(1));
            }
        }
        let mut r: Vec<String> = Vec::new();
        r.push("_blobs".to_string());
        r.push(shard);
        r.push(hash.to_string());
        r
    }

    /// The SHA-256 of `bytes` in lowercase hexadecimal: the name of the blob
    /// that holds them.
    pub fn hash_bytes(bytes: &[u8]) -> (r: String)
        ensures
            r@ == hex_of(sha256_of(bytes@)),
            r@.len() == 64,
    {
        let d = sha256(bytes);
        hex_string(d.as_slice())
    }
}

} // verus!

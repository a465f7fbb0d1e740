//! Where the room store keeps rooms and review queues.
//!
//! Each room is `<root>/<id>/room.json`; each user's review queue is
//! `<root>/_review/<user-slug>.json`. Paths are lists of components under
//! the root.
use vstd::prelude::*;
use vstd::string::*;
use super::lexicon::{slug_of, slugify};

verus! {

/// The store of rooms and review queues.
pub struct RoomStore {
    root: String,
}

impl RoomStore {
    /// A store rooted at `root`.
    pub fn new(root: &str) -> (r: Self)
        ensures
            r.root_view() == root@,
    {
        RoomStore { root: root.to_string() }
    }

    pub closed spec fn root_view(&self) -> Seq<char> {
        self.root@
    }

    /// The store's root.
    pub fn root(&self) -> (r: &str)
        ensures
            r@ == self.root_view(),
    {
        self.root.as_str()
    }

    /// The directory of room `id`, under the root.
    pub fn room_dir(id: &str) -> (r: Vec<String>)
        ensures
            r@.len() == 1,
            r@[0]@ == id@,
    {
        let mut r: Vec<String> = Vec::new();
        r.push(id.to_string());
        r
    }

    /// The file of room `id`, under the root.
    pub fn room_path(id: &str) -> (r: Vec<String>)
        ensures
            r@.len() == 2,
            r@[0]@ == id@,
            r@[1]@ == "room.json"@,
    {
        let mut r = Self::room_dir(id);
        r.push("room.json".to_string());
        r
    }

    /// The file of `user`'s review queue, under the root.
    pub fn review_path(user: &str) -> (r: Vec<String>)
        ensures
            r@.len() == 2,
            r@[0]@ == "_review"@,
            r@[1]@ == slug_of(user@) + ".json"@,
    {
        let mut file = slugify(user);
        file.append(".json");
        let mut r: Vec<String> = Vec::new();
        r.push("_review".to_string());
        r.push(file);
        r
    }
}

/// The store of the users' bit ledgers: `<root>/_score/<user-slug>.json`.
pub struct BitsLedgerStore {
    root: String,
}

impl BitsLedgerStore {
    /// A store rooted at `root`.
    pub fn new(root: &str) -> (r: Self)
        ensures
            r.root_view() == root@,
    {
        BitsLedgerStore { root: root.to_string() }
    }

    pub closed spec fn root_view(&self) -> Seq<char> {
        self.root@
    }

    /// The store's root.
    pub fn root(&self) -> (r: &str)
        ensures
            r@ == self.root_view(),
    {
        self.root.as_str()
    }

    /// The file of `user`'s ledger, under the root.
    pub fn score_path(user: &str) -> (r: Vec<String>)
        ensures
            r@.len() == 2,
            r@[0]@ == "_score"@,
            r@[1]@ == slug_of(user@) + ".json"@,
    {
        let mut file = slugify(user);
        file.append(".json");
        let mut r: Vec<String> = Vec::new();
        r.push("_score".to_string());
        r.push(file);
        r
    }
}

} // verus!

//! Shandara: a reader for the sections of a tabletop setting reference.
//!
//! A session points at one section, named by its slug; reading a section
//! that is not in the table is allowed and reads as absent. The text of each
//! section is kept outside the library, in the table's order.
use vstd::prelude::*;
use crate::sdk::UniverseManifest;
use crate::text::str_eq;

verus! {

/// The slugs of the sections, in table order.
pub open spec fn slugs() -> Seq<Seq<char>> {
    seq![
        "index"@,
        "mundo/forcas-primordiais"@,
        "mundo/grande-guerra"@,
        "povos/verdejantes"@,
        "povos/transmutos"@,
        "regras/atributos"@,
        "regras/criacao-personagem"@,
    ]
}

/// The slugs of the sections, in table order.
pub fn section_slugs() -> (r: Vec<&'static str>)
    ensures
        r@.len() == slugs().len(),
        forall|i: int| 0 <= i < r@.len() ==> (#[trigger] r@[i])@ == slugs()[i],
{
    let mut v: Vec<&'static str> = Vec::new();
    v.push("index");
    v.push("mundo/forcas-primordiais");
    v.push("mundo/grande-guerra");
    v.push("povos/verdejantes");
    v.push("povos/transmutos");
    v.push("regras/atributos");
    v.push("regras/criacao-personagem");
    v
}

/// Position `i` holds `s`, and no earlier one does.
pub open spec fn first_at(s: Seq<char>, i: int) -> bool {
    &&& 0 <= i < slugs().len()
    &&& slugs()[i] == s
    &&& forall|k: int| 0 <= k < i ==> slugs()[k] != s
}

/// The first table position whose slug is `s`.
pub open spec fn position_of(s: Seq<char>) -> Option<int> {
    if slugs().contains(s) {
        Some(choose|i: int| first_at(s, i))
    } else {
        None
    }
}

/// The position of a section in the table, if it is there.
pub fn lookup(section: &str) -> (r: Option<usize>)
    ensures
        match r {
            Some(i) => position_of(section@) == Some(i as int),
            None => position_of(section@) is None,
        },
{
    let table = section_slugs();
    let n = table.len();
    let mut i: usize = 0;
    while i < n
        invariant
            n == table@.len(),
            n == slugs().len(),
            forall|k: int| 0 <= k < n ==> (#[trigger] table@[k])@ == slugs()[k],
            i <= n,
            forall|k: int| 0 <= k < i ==> slugs()[k] != section@,
        decreases n - i,
    {
        if str_eq(table[i], section) {
            assert(slugs()[i as int] == section@);
            assert(first_at(section@, i as int));
            proof {
                let j = choose|j: int| first_at(section@, j);
                assert(j == i) by {
                    if j < i {
                        assert(slugs()[j] != section@);
                    } else if j > i {
                        assert(slugs()[i as int] != section@);
                    }
                }
            }
            return Some(i);
        }
        i = i + 1;
    }
    None
}

/// Every section in the table can be read.
pub proof fn lemma_listed_sections_resolve(i: int)
    requires
        0 <= i < slugs().len(),
    ensures
        position_of(slugs()[i]) is Some,
{
    assert(slugs().contains(slugs()[i]));
}

/// A reading session.
pub struct ShandaraReader {
    pub section: String,
}

impl ShandaraReader {
    /// A session at the given section, or at "index" when none is given.
    pub fn open(section: Option<&str>) -> (r: Self)
        ensures
            r.section@ == match section {
                Some(s) => s@,
                None => "index"@,
            },
    {
        match section {
            Some(s) => ShandaraReader { section: String::from_str(s) },
            None => ShandaraReader { section: String::from_str("index") },
        }
    }

    /// The reader's one action: "navigate" with a target moves to it;
    /// anything else leaves the session where it is.
    pub fn navigate(&mut self, action: Option<&str>, to: Option<&str>)
        ensures
            final(self).section@ == match (action, to) {
                (Some(a), Some(t)) => if a@ == "navigate"@ {
                    t@
                } else {
                    old(self).section@
                },
                _ => old(self).section@,
            },
    {
        match (action, to) {
            (Some(a), Some(t)) => {
                if str_eq(a, "navigate") {
                    self.section = String::from_str(t);
                }
            },
            _ => {},
        }
    }

    /// Where the session is: the section's slug and its table position,
    /// absent when the section is not in the table.
    pub fn position(&self) -> (r: Option<usize>)
        ensures
            match r {
                Some(i) => position_of(self.section@) == Some(i as int),
                None => position_of(self.section@) is None,
            },
    {
        lookup(self.section.as_str())
    }

    /// What the reader declares to the host; `version` is the build's.
    pub fn manifest(version: &str) -> (m: UniverseManifest)
        ensures
            m.name@ == "Shandara"@,
            m.version@ == version@,
            m.api_version == 1,
            m.max_players == 1,
            m.capabilities@.len() == 3,
            m.capabilities@[0]@ == "content"@,
            m.capabilities@[1]@ == "rpg"@,
            m.capabilities@[2]@ == "srd"@,
    {
        let mut caps: Vec<String> = Vec::new();
        caps.push(String::from_str("content"));
        caps.push(String::from_str("rpg"));
        caps.push(String::from_str("srd"));
        UniverseManifest {
            name: String::from_str("Shandara"),
            version: String::from_str(version),
            api_version: 1,
            max_players: 1,
            capabilities: caps,
        }
    }
}

} // verus!

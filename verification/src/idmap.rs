//! Small association maps keyed by commit identifiers.
//!
//! Entries are appended and the newest entry for a key wins, which models
//! `insert` on a mathematical map; lookups scan from the newest entry.

use vstd::prelude::*;
use vstd::string::*;
use crate::text::str_eq;

verus! {

/// The map denoted by an entry list: later entries shadow earlier ones.
pub open spec fn map_of(entries: Seq<(String, usize)>) -> Map<Seq<char>, usize>
    decreases entries.len(),
{
    if entries.len() == 0 {
        Map::empty()
    } else {
        map_of(entries.drop_last()).insert(entries.last().0@, entries.last().1)
    }
}

proof fn lemma_map_of_found(entries: Seq<(String, usize)>, k: Seq<char>, j: int)
    requires
        0 <= j < entries.len(),
        entries[j].0@ == k,
        forall|l: int| j < l < entries.len() ==> entries[l].0@ != k,
    ensures
        map_of(entries).contains_key(k),
        map_of(entries)[k] == entries[j].1,
    decreases entries.len(),
{
    if j == entries.len() - 1 {
    } else {
        lemma_map_of_found(entries.drop_last(), k, j);
    }
}

proof fn lemma_map_of_absent(entries: Seq<(String, usize)>, k: Seq<char>)
    requires
        forall|l: int| 0 <= l < entries.len() ==> entries[l].0@ != k,
    ensures
        !map_of(entries).contains_key(k),
    decreases entries.len(),
{
    if entries.len() > 0 {
        lemma_map_of_absent(entries.drop_last(), k);
    }
}

/// A map from commit identifier to a number (a row or a column).
pub struct IdMap {
    entries: Vec<(String, usize)>,
}

impl View for IdMap {
    type V = Map<Seq<char>, usize>;

    closed spec fn view(&self) -> Map<Seq<char>, usize> {
        map_of(self.entries@)
    }
}

impl IdMap {
    /// The empty map.
    pub fn new() -> (r: IdMap)
        ensures
            r@ == Map::<Seq<char>, usize>::empty(),
    {
        IdMap { entries: Vec::new() }
    }

    /// Binds `key` to `val`, shadowing any earlier binding.
    pub fn insert(&mut self, key: String, val: usize)
        ensures
            final(self)@ == old(self)@.insert(key@, val),
    {
        let ghost before = self.entries@;
        self.entries.push((key, val));
        proof {
            assert(self.entries@.drop_last() =~= before);
        }
    }

    /// Looks `key` up: the newest binding, if any.
    pub fn get(&self, key: &str) -> (r: Option<usize>)
        ensures
            match r {
                Some(v) => self@.contains_key(key@) && self@[key@] == v,
                None => !self@.contains_key(key@),
            },
    {
        let mut i: usize = self.entries.len();
        while i > 0
            invariant
                i <= self.entries.len(),
                forall|l: int| i <= l < self.entries@.len() ==> self.entries@[l].0@ != key@,
            decreases i,
        {
            i = i - 1;
            if str_eq(self.entries[i].0.as_str(), key) {
                proof {
                    lemma_map_of_found(self.entries@, key@, i as int);
                }
                return Some(self.entries[i].1);
            }
        }
        proof {
            lemma_map_of_absent(self.entries@, key@);
        }
        None
    }
}

/// The views of a sequence of strings.
pub open spec fn seq_views(s: Seq<String>) -> Seq<Seq<char>> {
    s.map_values(|x: String| x@)
}

/// The map denoted by a name-list entry list: later entries shadow earlier
/// ones.
pub open spec fn names_map_of(entries: Seq<(String, Vec<String>)>) -> Map<
    Seq<char>,
    Seq<Seq<char>>,
>
    decreases entries.len(),
{
    if entries.len() == 0 {
        Map::empty()
    } else {
        names_map_of(entries.drop_last()).insert(
            entries.last().0@,
            seq_views(entries.last().1@),
        )
    }
}

proof fn lemma_names_map_of_found(entries: Seq<(String, Vec<String>)>, k: Seq<char>, j: int)
    requires
        0 <= j < entries.len(),
        entries[j].0@ == k,
        forall|l: int| j < l < entries.len() ==> entries[l].0@ != k,
    ensures
        names_map_of(entries).contains_key(k),
        names_map_of(entries)[k] == seq_views(entries[j].1@),
    decreases entries.len(),
{
    if j == entries.len() - 1 {
    } else {
        lemma_names_map_of_found(entries.drop_last(), k, j);
    }
}

proof fn lemma_names_map_of_absent(entries: Seq<(String, Vec<String>)>, k: Seq<char>)
    requires
        forall|l: int| 0 <= l < entries.len() ==> entries[l].0@ != k,
    ensures
        !names_map_of(entries).contains_key(k),
    decreases entries.len(),
{
    if entries.len() > 0 {
        lemma_names_map_of_absent(entries.drop_last(), k);
    }
}

/// A map from commit identifier to the list of reference names bound to it.
pub struct NameIndex {
    entries: Vec<(String, Vec<String>)>,
}

impl View for NameIndex {
    type V = Map<Seq<char>, Seq<Seq<char>>>;

    closed spec fn view(&self) -> Map<Seq<char>, Seq<Seq<char>>> {
        names_map_of(self.entries@)
    }
}

impl NameIndex {
    /// The empty index.
    pub fn new() -> (r: NameIndex)
        ensures
            r@ == Map::<Seq<char>, Seq<Seq<char>>>::empty(),
    {
        NameIndex { entries: Vec::new() }
    }

    /// The names bound to `key`, in binding order; empty when none are.
    pub fn get(&self, key: &str) -> (r: Vec<String>)
        ensures
            self@.contains_key(key@) ==> seq_views(r@) == self@[key@],
            !self@.contains_key(key@) ==> r@.len() == 0,
    {
        let mut i: usize = self.entries.len();
        while i > 0
            invariant
                i <= self.entries.len(),
                forall|l: int| i <= l < self.entries@.len() ==> self.entries@[l].0@ != key@,
            decreases i,
        {
            i = i - 1;
            if str_eq(self.entries[i].0.as_str(), key) {
                proof {
                    lemma_names_map_of_found(self.entries@, key@, i as int);
                }
                let r = self.entries[i].1.clone();
                proof {
                    assert(r@ =~= self.entries@[i as int].1@);
                    assert(seq_views(r@) =~= seq_views(self.entries@[i as int].1@));
                }
                return r;
            }
        }
        proof {
            lemma_names_map_of_absent(self.entries@, key@);
        }
        Vec::new()
    }

    /// Appends `name` to the list bound to `key`, starting one when none is
    /// bound yet.
    pub fn add(&mut self, key: String, name: String)
        ensures
            final(self)@ == old(self)@.insert(
                key@,
                (if old(self)@.contains_key(key@) {
                    old(self)@[key@]
                } else {
                    Seq::<Seq<char>>::empty()
                }).push(name@),
            ),
    {
        let ghost nview = name@;
        let mut names = self.get(key.as_str());
        let ghost old_names = names@;
        names.push(name);
        proof {
            assert(seq_views(names@) =~= seq_views(old_names).push(nview));
            if !old(self)@.contains_key(key@) {
                assert(seq_views(old_names) =~= Seq::<Seq<char>>::empty());
            }
        }
        let ghost before = self.entries@;
        self.entries.push((key, names));
        proof {
            assert(self.entries@.drop_last() =~= before);
        }
    }
}

} // verus!

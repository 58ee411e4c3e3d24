//! The State Store: the authoritative mapping from entity identity to
//! last-known textual value.
//!
//! The same small map also serves as the Render Cache, which remembers
//! the last text actually sent to the renderer under each render key.
//! Entries live in a vector with unique keys; insertion order carries no
//! meaning, and the abstract value is the map of key views to value
//! views.

use vstd::prelude::*;

use crate::text::str_eq;

verus! {

/// No key occurs twice.
pub open spec fn keys_unique(es: Seq<(String, String)>) -> bool {
    forall|i: int, j: int| 0 <= i < j < es.len() ==> es[i].0@ != es[j].0@
}

/// The map an entry list stands for.
pub open spec fn assoc_map(es: Seq<(String, String)>) -> Map<Seq<char>, Seq<char>>
    decreases es.len(),
{
    if es.len() == 0 {
        Map::empty()
    } else {
        assoc_map(es.drop_last()).insert(es.last().0@, es.last().1@)
    }
}

/// A key is in the map exactly when some entry carries it.
proof fn lemma_assoc_contains(es: Seq<(String, String)>, k: Seq<char>)
    ensures
        assoc_map(es).contains_key(k) <==> exists|i: int| 0 <= i < es.len() && es[i].0@ == k,
    decreases es.len(),
{
    if es.len() > 0 {
        lemma_assoc_contains(es.drop_last(), k);
        if assoc_map(es).contains_key(k) {
            if es.last().0@ != k {
                let i = choose|i: int| 0 <= i < es.len() - 1 && es.drop_last()[i].0@ == k;
                assert(es[i].0@ == k);
            }
        }
        if exists|i: int| 0 <= i < es.len() && es[i].0@ == k {
            let i = choose|i: int| 0 <= i < es.len() && es[i].0@ == k;
            if i < es.len() - 1 {
                assert(es.drop_last()[i].0@ == k);
            }
        }
    }
}

/// With unique keys, each entry's key maps to that entry's value.
proof fn lemma_assoc_at(es: Seq<(String, String)>, i: int)
    requires
        keys_unique(es),
        0 <= i < es.len(),
    ensures
        assoc_map(es).contains_key(es[i].0@),
        assoc_map(es)[es[i].0@] == es[i].1@,
    decreases es.len(),
{
    if i == es.len() - 1 {
    } else {
        assert(keys_unique(es.drop_last()));
        assert(es.drop_last()[i] == es[i]);
        lemma_assoc_at(es.drop_last(), i);
        assert(es[i].0@ != es.last().0@);
    }
}

/// Replacing one entry's value, key kept, is one map insertion.
proof fn lemma_assoc_update(es: Seq<(String, String)>, k: int, p: (String, String))
    requires
        keys_unique(es),
        0 <= k < es.len(),
        p.0@ == es[k].0@,
    ensures
        assoc_map(es.update(k, p)) =~= assoc_map(es).insert(p.0@, p.1@),
    decreases es.len(),
{
    let es2 = es.update(k, p);
    if k == es.len() - 1 {
        assert(es2.drop_last() =~= es.drop_last());
        assert(es2.last() == p);
    } else {
        assert(keys_unique(es.drop_last()));
        assert(es.drop_last()[k] == es[k]);
        lemma_assoc_update(es.drop_last(), k, p);
        assert(es2.drop_last() =~= es.drop_last().update(k, p));
        assert(es2.last() == es.last());
        assert(es.last().0@ != p.0@);
    }
}

/// A mapping from textual names to textual values: the State Store, and,
/// under render keys, the Render Cache.
pub struct StateStore {
    entries: Vec<(String, String)>,
}

impl View for StateStore {
    type V = Map<Seq<char>, Seq<char>>;

    closed spec fn view(&self) -> Map<Seq<char>, Seq<char>> {
        assoc_map(self.entries@)
    }
}

impl StateStore {
    /// Keys stay unique.
    pub closed spec fn wf(self) -> bool {
        keys_unique(self.entries@)
    }

    /// An empty store.
    pub fn new() -> (s: StateStore)
        ensures
            s.wf(),
            s@ =~= Map::<Seq<char>, Seq<char>>::empty(),
    {
        StateStore { entries: Vec::new() }
    }

    /// Finds the position of a key, if present.
    fn find(&self, id: &str) -> (r: Option<usize>)
        requires
            self.wf(),
        ensures
            match r {
                Some(k) => k < self.entries@.len() && self.entries@[k as int].0@ == id@,
                None => !self@.contains_key(id@),
            },
            r is Some <==> self@.contains_key(id@),
    {
        let mut k: usize = 0;
        while k < self.entries.len()
            invariant
                k <= self.entries@.len(),
                forall|p: int| 0 <= p < k ==> self.entries@[p].0@ != id@,
            decreases self.entries@.len() - k,
        {
            if str_eq(self.entries[k].0.as_str(), id) {
                proof {
                    lemma_assoc_contains(self.entries@, id@);
                }
                return Some(k);
            }
            k += 1;
        }
        proof {
            lemma_assoc_contains(self.entries@, id@);
        }
        None
    }

    /// Whether the identity is tracked.
    pub fn contains(&self, id: &str) -> (r: bool)
        requires
            self.wf(),
        ensures
            r == self@.contains_key(id@),
    {
        self.find(id).is_some()
    }

    /// The tracked value of an identity.
    pub fn get(&self, id: &str) -> (r: Option<&String>)
        requires
            self.wf(),
        ensures
            match r {
                Some(v) => self@.contains_key(id@) && self@[id@] == v@,
                None => !self@.contains_key(id@),
            },
    {
        match self.find(id) {
            Some(k) => {
                proof {
                    lemma_assoc_at(self.entries@, k as int);
                }
                Some(&self.entries[k].1)
            },
            None => None,
        }
    }

    /// Sets an identity's value, tracked or not: this is how the store is
    /// seeded at bootstrap and how the cache learns what was drawn.
    pub fn insert(&mut self, id: &str, value: &str)
        requires
            old(self).wf(),
        ensures
            final(self).wf(),
            final(self)@ =~= old(self)@.insert(id@, value@),
    {
        match self.find(id) {
            Some(k) => {
                let p = (id.to_owned(), value.to_owned());
                proof {
                    lemma_assoc_update(self.entries@, k as int, p);
                }
                self.entries[k] = p;
                proof {
                    assert(keys_unique(self.entries@));
                }
            },
            None => {
                proof {
                    lemma_assoc_contains(self.entries@, id@);
                }
                self.entries.push((id.to_owned(), value.to_owned()));
                proof {
                    assert(self.entries@.drop_last() =~= old(self).entries@);
                    assert(keys_unique(self.entries@));
                }
            },
        }
    }

    /// Applies one remote delta: an update when the identity is tracked,
    /// reported as true; an untracked identity changes nothing and
    /// reports false.
    pub fn apply_delta(&mut self, id: &str, value: &str) -> (changed: bool)
        requires
            old(self).wf(),
        ensures
            final(self).wf(),
            changed == old(self)@.contains_key(id@),
            final(self)@ =~= if old(self)@.contains_key(id@) {
                old(self)@.insert(id@, value@)
            } else {
                old(self)@
            },
    {
        if self.contains(id) {
            self.insert(id, value);
            true
        } else {
            false
        }
    }
}

} // verus!

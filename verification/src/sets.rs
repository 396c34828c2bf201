//! Small value collections for paths and URL maps: a vector-backed set with
//! insertion order kept, and an association map whose first insertion of a
//! key wins. Both are viewed as plain sequences, so every contract over them
//! is exact.

use vstd::prelude::*;
use vstd::string::*;
use crate::paths::str_eq;

verus! {

/// Insert into a sequence acting as a set: a duplicate changes nothing.
pub open spec fn seq_set_insert(s: Seq<Seq<char>>, p: Seq<char>) -> Seq<Seq<char>> {
    if s.contains(p) {
        s
    } else {
        s.push(p)
    }
}

/// Insert into an association sequence: a key already present keeps its
/// first value.
pub open spec fn assoc_insert(
    m: Seq<(Seq<char>, Seq<char>)>,
    k: Seq<char>,
    v: Seq<char>,
) -> Seq<(Seq<char>, Seq<char>)> {
    if assoc_lookup(m, k) is Some {
        m
    } else {
        m.push((k, v))
    }
}

/// First match of a key in an association sequence.
pub open spec fn assoc_lookup(m: Seq<(Seq<char>, Seq<char>)>, k: Seq<char>) -> Option<Seq<char>>
    decreases m.len(),
{
    if m.len() == 0 {
        Option::None
    } else if m[0].0 == k {
        Option::Some(m[0].1)
    } else {
        assoc_lookup(m.drop_first(), k)
    }
}

/// A set of path strings, kept in insertion order.
pub struct PathSet {
    items: Vec<String>,
}

impl PathSet {
    /// The sequence of members, oldest first.
    pub closed spec fn view(&self) -> Seq<Seq<char>> {
        self.items.deep_view()
    }

    pub fn new() -> (r: PathSet)
        ensures
            r@ == Seq::<Seq<char>>::empty(),
    {
        let r = PathSet { items: Vec::new() };
        proof {
            assert(r@ =~= Seq::<Seq<char>>::empty());
        }
        r
    }

    pub fn len(&self) -> (r: usize)
        ensures
            r == self@.len(),
    {
        self.items.len()
    }

    pub fn contains(&self, p: &str) -> (r: bool)
        ensures
            r == self@.contains(p@),
    {
        let mut i: usize = 0;
        while i < self.items.len()
            invariant
                i <= self@.len(),
                self@.len() == self.items.len(),
                self@ == self.items.deep_view(),
                forall|j: int| 0 <= j < i ==> self@[j] != p@,
            decreases self.items.len() - i,
        {
            if str_eq(self.items[i].as_str(), p) {
                proof {
                    assert(self@[i as int] == self.items@[i as int].deep_view());
                    assert(self@[i as int] == p@);
                }
                return true;
            }
            i = i + 1;
        }
        false
    }

    /// Add a path; a path already present is left alone.
    pub fn insert(&mut self, p: String)
        ensures
            final(self)@ == seq_set_insert(old(self)@, p@),
    {
        let ghost before = self@;
        if !self.contains(p.as_str()) {
            self.items.push(p);
            proof {
                assert(self@ =~= before.push(p@));
            }
        }
    }

    pub fn get(&self, i: usize) -> (r: &String)
        requires
            i < self@.len(),
        ensures
            r@ == self@[i as int],
    {
        &self.items[i]
    }

    /// The members as a vector, in order.
    pub fn to_vec(&self) -> (r: Vec<String>)
        ensures
            r.deep_view() == self@,
    {
        clone_paths(&self.items)
    }

    /// Wrap a vector as-is; duplicates, if any, are kept.
    pub fn from_vec(items: Vec<String>) -> (r: PathSet)
        ensures
            r@ == items.deep_view(),
    {
        PathSet { items }
    }
}

/// Copy a vector of paths.
pub fn clone_paths(items: &Vec<String>) -> (r: Vec<String>)
    ensures
        r.deep_view() == items.deep_view(),
{
    let mut out: Vec<String> = Vec::new();
    let mut i: usize = 0;
    proof {
        assert(out.deep_view() =~= items.deep_view().take(0));
    }
    while i < items.len()
        invariant
            i <= items.len(),
            out.deep_view() =~= items.deep_view().take(i as int),
        decreases items.len() - i,
    {
        let ghost before = out.deep_view();
        out.push(items[i].clone());
        proof {
            assert(out.deep_view() =~= before.push(items.deep_view()[i as int]));
            assert(out.deep_view() =~= items.deep_view().take(i + 1));
        }
        i = i + 1;
    }
    proof {
        assert(items.deep_view().take(items.len() as int) =~= items.deep_view());
    }
    out
}

/// An association map from strings to strings; the first insertion of a key
/// is the one that stays.
pub struct PathMap {
    entries: Vec<(String, String)>,
}

impl PathMap {
    /// The entries in insertion order.
    pub closed spec fn view(&self) -> Seq<(Seq<char>, Seq<char>)> {
        self.entries.deep_view()
    }

    pub fn new() -> (r: PathMap)
        ensures
            r@ == Seq::<(Seq<char>, Seq<char>)>::empty(),
    {
        let r = PathMap { entries: Vec::new() };
        proof {
            assert(r@ =~= Seq::<(Seq<char>, Seq<char>)>::empty());
        }
        r
    }

    pub fn len(&self) -> (r: usize)
        ensures
            r == self@.len(),
    {
        self.entries.len()
    }

    pub fn get(&self, k: &str) -> (r: Option<&String>)
        ensures
            match r {
                Option::Some(v) => assoc_lookup(self@, k@) == Option::Some(v@),
                Option::None => assoc_lookup(self@, k@) == Option::<Seq<char>>::None,
            },
    {
        let ghost all = self@;
        let mut i: usize = 0;
        proof {
            assert(all.skip(0) =~= all);
        }
        while i < self.entries.len()
            invariant
                i <= all.len(),
                all.len() == self.entries.len(),
                all == self.entries.deep_view(),
                assoc_lookup(all, k@) == assoc_lookup(all.skip(i as int), k@),
            decreases self.entries.len() - i,
        {
            proof {
                assert(all.skip(i as int)[0] == all[i as int]);
                assert(all.skip(i as int).drop_first() =~= all.skip(i + 1));
            }
            if str_eq(self.entries[i].0.as_str(), k) {
                return Option::Some(&self.entries[i].1);
            }
            i = i + 1;
        }
        proof {
            assert(all.skip(self.entries.len() as int) =~= Seq::<(Seq<char>, Seq<char>)>::empty());
        }
        Option::None
    }

    pub fn contains_key(&self, k: &str) -> (r: bool)
        ensures
            r == (assoc_lookup(self@, k@) is Some),
    {
        match self.get(k) {
            Option::Some(_) => true,
            Option::None => false,
        }
    }

    /// Insert a pair; a key already present keeps its first value.
    pub fn insert(&mut self, k: String, v: String)
        ensures
            final(self)@ == assoc_insert(old(self)@, k@, v@),
    {
        let ghost before = self@;
        let ghost gk = k@;
        let ghost gv = v@;
        if !self.contains_key(k.as_str()) {
            self.entries.push((k, v));
            proof {
                assert(self@ =~= before.push((gk, gv)));
            }
        }
    }

    pub fn entry(&self, i: usize) -> (r: (&String, &String))
        requires
            i < self@.len(),
        ensures
            r.0@ == self@[i as int].0,
            r.1@ == self@[i as int].1,
    {
        (&self.entries[i].0, &self.entries[i].1)
    }
}

} // verus!

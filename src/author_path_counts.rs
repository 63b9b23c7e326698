//! Per-author counts of added and deleted lines.
use crate::author_counts::is_resolved_entry;
use crate::fx::{fx_get, fx_insert, fx_keys, fx_remove};
use crate::stringcache::StringCache;
use fxhash::FxHashMap;
use vstd::prelude::*;

verus! {

/// Lines added and deleted by one author.
#[derive(Clone, Copy, Debug, PartialEq, Eq, Structural)]
pub struct Modifications {
    pub additions: u32,
    pub deletions: u32,
}

/// The modifications of an author who has none recorded.
pub open spec fn no_modifications() -> Modifications {
    Modifications { additions: 0, deletions: 0 }
}

/// The modifications under `a` in `m`, zero where there are none.
pub open spec fn modifications_of(m: Map<usize, Modifications>, a: usize) -> Modifications {
    if m.contains_key(a) {
        m[a]
    } else {
        no_modifications()
    }
}

impl Default for Modifications {
    fn default() -> (r: Self)
        ensures
            r == no_modifications(),
    {
        Modifications::new()
    }
}

impl Modifications {
    /// No modifications.
    pub fn new() -> (r: Self)
        ensures
            r == no_modifications(),
    {
        Modifications { additions: 0, deletions: 0 }
    }

    /// Counts `additions` more added lines.
    pub fn add_additions(&mut self, additions: u32)
        requires
            old(self).additions + additions <= u32::MAX,
        ensures
            final(self).additions == old(self).additions + additions,
            final(self).deletions == old(self).deletions,
    {
        self.additions = self.additions + additions;
    }

    /// Counts `deletions` more deleted lines.
    pub fn add_deletions(&mut self, deletions: u32)
        requires
            old(self).deletions + deletions <= u32::MAX,
        ensures
            final(self).deletions == old(self).deletions + deletions,
            final(self).additions == old(self).additions,
    {
        self.deletions = self.deletions + deletions;
    }
}

/// Modifications per author id.
pub struct AuthorPathCounts(FxHashMap<usize, Modifications>);

impl View for AuthorPathCounts {
    type V = Map<usize, Modifications>;

    closed spec fn view(&self) -> Map<usize, Modifications> {
        self.0@
    }
}

impl Default for AuthorPathCounts {
    fn default() -> (r: Self)
        ensures
            r@ == Map::<usize, Modifications>::empty(),
    {
        AuthorPathCounts::new()
    }
}

impl AuthorPathCounts {
    /// No modifications.
    pub fn new() -> (r: Self)
        ensures
            r@ == Map::<usize, Modifications>::empty(),
    {
        AuthorPathCounts(FxHashMap::default())
    }

    fn take_author(&mut self, author: usize) -> (r: Modifications)
        ensures
            r == modifications_of(old(self)@, author),
            final(self)@ == old(self)@.remove(author),
    {
        match fx_remove(&mut self.0, author) {
            Some(m) => m,
            None => Modifications::new(),
        }
    }

    /// Counts `additions` more lines added by `author`.
    pub fn add_additions(&mut self, author: usize, additions: u32)
        requires
            modifications_of(old(self)@, author).additions + additions <= u32::MAX,
        ensures
            final(self)@ == old(self)@.insert(
                author,
                Modifications {
                    additions: (modifications_of(old(self)@, author).additions + additions) as u32,
                    deletions: modifications_of(old(self)@, author).deletions,
                },
            ),
    {
        let mut m = self.take_author(author);
        m.add_additions(additions);
        fx_insert(&mut self.0, author, m);
        proof {
            assert(self@ =~= old(self)@.insert(author, m));
        }
    }

    /// Counts `deletions` more lines deleted by `author`.
    pub fn add_deletions(&mut self, author: usize, deletions: u32)
        requires
            modifications_of(old(self)@, author).deletions + deletions <= u32::MAX,
        ensures
            final(self)@ == old(self)@.insert(
                author,
                Modifications {
                    additions: modifications_of(old(self)@, author).additions,
                    deletions: (modifications_of(old(self)@, author).deletions + deletions) as u32,
                },
            ),
    {
        let mut m = self.take_author(author);
        m.add_deletions(deletions);
        fx_insert(&mut self.0, author, m);
        proof {
            assert(self@ =~= old(self)@.insert(author, m));
        }
    }

    /// The modifications of `author`, who must have some.
    pub fn index(&self, author: usize) -> (r: Modifications)
        requires
            self@.contains_key(author),
        ensures
            r == self@[author],
    {
        *fx_get(&self.0, author).unwrap()
    }

    /// Every author with their modifications once, with names resolved through `cache`.
    pub fn into_resolving_iter(self, cache: &StringCache) -> (r: Vec<(&str, Modifications)>)
        requires
            forall|k: usize| self@.contains_key(k) ==> k < cache@.len(),
        ensures
            r@.len() == self@.len(),
            forall|i: int|
                0 <= i < r@.len() ==> is_resolved_entry(self@, cache@, (#[trigger] r@[i]).0@, r@[i].1),
            forall|k: usize|
                self@.contains_key(k) ==> exists|i: int|
                    0 <= i < r@.len() && (#[trigger] r@[i]).0@ == cache@[k as int] && r@[i].1
                        == self@[k],
    {
        let keys = fx_keys(&self.0);
        proof {
            keys@.unique_seq_to_set();
        }
        let mut r: Vec<(&str, Modifications)> = Vec::new();
        for i in 0..keys.len()
            invariant
                keys@.to_set() == self@.dom(),
                forall|k: usize| self@.contains_key(k) ==> k < cache@.len(),
                r@.len() == i,
                forall|j: int|
                    0 <= j < i ==> (#[trigger] r@[j]).0@ == cache@[keys@[j] as int] && r@[j].1
                        == self@[keys@[j]],
        {
            let k = keys[i];
            assert(keys@.to_set().contains(k));
            r.push((cache.index(k), self.index(k)));
        }
        proof {
            assert forall|i: int| 0 <= i < r@.len() implies is_resolved_entry(
                self@,
                cache@,
                (#[trigger] r@[i]).0@,
                r@[i].1,
            ) by {
                assert(keys@.to_set().contains(keys@[i]));
            }
            assert forall|k: usize| self@.contains_key(k) implies exists|i: int|
                0 <= i < r@.len() && (#[trigger] r@[i]).0@ == cache@[k as int] && r@[i].1
                    == self@[k] by {
                assert(keys@.to_set().contains(k));
                let i = choose|i: int| 0 <= i < keys@.len() && keys@[i] == k;
                assert(r@[i].0@ == cache@[k as int]);
            }
        }
        r
    }
}

} // verus!

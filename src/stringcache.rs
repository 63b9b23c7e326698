//! Interning of author names: each distinct string gets a dense id, in first-seen order.
use fxhash::FxBuildHasher;
use indexmap::IndexSet;
use vstd::prelude::*;

verus! {

/// `indexmap::IndexSet`, held opaque.
#[verifier::external_type_specification]
#[verifier::external_body]
#[verifier::reject_recursive_types(T)]
#[verifier::reject_recursive_types(S)]
pub struct ExIndexSet<T, S>(IndexSet<T, S>);

/// The strings that an index set holds, in their order of insertion.
pub uninterp spec fn set_items(set: IndexSet<String, FxBuildHasher>) -> Seq<Seq<char>>;

/// Relies on `IndexSet::default`: a new set is empty.
#[verifier::external_body]
fn new_set() -> (r: IndexSet<String, FxBuildHasher>)
    ensures
        set_items(r) == Seq::<Seq<char>>::empty(),
{
    IndexSet::default()
}

/// Relies on `IndexSet::get_index_of`: the position of an item equal to `s`, or `None`
/// when the set holds no such item.
#[verifier::external_body]
fn set_index_of(set: &IndexSet<String, FxBuildHasher>, s: &str) -> (r: Option<usize>)
    ensures
        match r {
            Some(i) => i < set_items(*set).len() && set_items(*set)[i as int] == s@,
            None => !set_items(*set).contains(s@),
        },
{
    set.get_index_of(s)
}

/// Relies on `IndexSet::insert_full`: an item that the set does not hold yet is appended,
/// and its index is the former length.
#[verifier::external_body]
fn set_insert_new(set: &mut IndexSet<String, FxBuildHasher>, s: String) -> (r: usize)
    requires
        !set_items(*old(set)).contains(s@),
    ensures
        set_items(*final(set)) == set_items(*old(set)).push(s@),
        r == set_items(*old(set)).len(),
{
    set.insert_full(s).0
}

/// Relies on `IndexSet::get_index`: the item at position `i`, or `None` past the end.
#[verifier::external_body]
fn set_get_index(set: &IndexSet<String, FxBuildHasher>, i: usize) -> (r: Option<&str>)
    ensures
        match r {
            Some(s) => i < set_items(*set).len() && s@ == set_items(*set)[i as int],
            None => i >= set_items(*set).len(),
        },
{
    set.get_index(i).map(|s| s.as_str())
}

/// Relies on `IndexSet::len`: the number of items.
#[verifier::external_body]
fn set_len(set: &IndexSet<String, FxBuildHasher>) -> (r: usize)
    ensures
        r == set_items(*set).len(),
{
    set.len()
}

/// The id that interning `s` yields when the cache holds `items`.
pub open spec fn intern_id(items: Seq<Seq<char>>, s: Seq<char>) -> int {
    if items.contains(s) {
        items.index_of(s)
    } else {
        items.len() as int
    }
}

/// The strings that the cache holds after interning `s` into `items`.
pub open spec fn intern_items(items: Seq<Seq<char>>, s: Seq<char>) -> Seq<Seq<char>> {
    if items.contains(s) {
        items
    } else {
        items.push(s)
    }
}

/// The authoritative set of interned strings. Its view lists them by ascending id.
pub struct StringCache {
    index_set: IndexSet<String, FxBuildHasher>,
}

impl View for StringCache {
    type V = Seq<Seq<char>>;

    closed spec fn view(&self) -> Seq<Seq<char>> {
        set_items(self.index_set)
    }
}

impl StringCache {
    /// No string is held twice.
    pub open spec fn wf(&self) -> bool {
        self@.no_duplicates()
    }

    /// An empty cache.
    pub fn new() -> (r: Self)
        ensures
            r@ == Seq::<Seq<char>>::empty(),
            r.wf(),
    {
        StringCache { index_set: new_set() }
    }

    /// The id of `k`: the one it already has, or the next free one, under which it is stored.
    pub fn intern(&mut self, k: &str) -> (r: usize)
        requires
            old(self).wf(),
        ensures
            r == intern_id(old(self)@, k@),
            final(self)@ == intern_items(old(self)@, k@),
            final(self).wf(),
    {
        match set_index_of(&self.index_set, k) {
            Some(i) => {
                proof {
                    let items = self@;
                    assert(items.contains(k@));
                    let j = items.index_of(k@);
                    assert(items[j] == k@);
                }
                i
            },
            None => {
                let owned = k.to_owned();
                proof {
                    let items = self@;
                    assert forall|a: int, b: int|
                        0 <= a < b < items.len() + 1 implies items.push(k@)[a] != items.push(k@)[b] by {
                        if b == items.len() {
                            assert(items[a] != k@);
                        }
                    }
                }
                set_insert_new(&mut self.index_set, owned)
            },
        }
    }

    /// The string with id `idx`, or `None` for an id that was never issued.
    pub fn get(&self, idx: usize) -> (r: Option<&str>)
        ensures
            match r {
                Some(s) => idx < self@.len() && s@ == self@[idx as int],
                None => idx >= self@.len(),
            },
    {
        set_get_index(&self.index_set, idx)
    }

    /// The string with id `idx`, which must have been issued.
    pub fn index(&self, idx: usize) -> (r: &str)
        requires
            idx < self@.len(),
        ensures
            r@ == self@[idx as int],
    {
        match set_get_index(&self.index_set, idx) {
            Some(s) => s,
            None => "",
        }
    }

    /// The id of `name`, if it was interned.
    pub fn lookup(&self, name: &str) -> (r: Option<usize>)
        ensures
            match r {
                Some(i) => i < self@.len() && self@[i as int] == name@,
                None => !self@.contains(name@),
            },
    {
        set_index_of(&self.index_set, name)
    }

    /// How many strings the cache holds.
    pub fn len(&self) -> (r: usize)
        ensures
            r == self@.len(),
    {
        set_len(&self.index_set)
    }

    /// All interned strings, by ascending id.
    pub fn values(&self) -> (r: Vec<&str>)
        ensures
            r@.len() == self@.len(),
            forall|i: int| 0 <= i < r@.len() ==> (#[trigger] r@[i])@ == self@[i],
    {
        let n = set_len(&self.index_set);
        let mut r: Vec<&str> = Vec::new();
        for i in 0..n
            invariant
                n == self@.len(),
                r@.len() == i,
                forall|j: int| 0 <= j < i ==> (#[trigger] r@[j])@ == self@[j],
        {
            r.push(self.index(i));
        }
        r
    }
}

/// Interning is stable: interning `s` a second time returns the id of the first time and
/// leaves the cache unchanged, and that id resolves back to `s`.
pub proof fn lemma_intern_idempotent(items: Seq<Seq<char>>, s: Seq<char>)
    requires
        items.no_duplicates(),
    ensures
        intern_items(intern_items(items, s), s) == intern_items(items, s),
        intern_id(intern_items(items, s), s) == intern_id(items, s),
        0 <= intern_id(items, s) < intern_items(items, s).len(),
        intern_items(items, s)[intern_id(items, s)] == s,
{
    let after = intern_items(items, s);
    if items.contains(s) {
        let j = items.index_of(s);
        assert(items[j] == s);
    } else {
        assert(after[items.len() as int] == s);
        assert(after.contains(s));
        let j = after.index_of(s);
        assert(after[j] == s);
        if j < items.len() {
            assert(items[j] == s);
        }
    }
}

/// Distinct strings get distinct ids: interning `s1` and then `s2 != s1` yields two ids
/// that differ.
pub proof fn lemma_intern_distinct(items: Seq<Seq<char>>, s1: Seq<char>, s2: Seq<char>)
    requires
        items.no_duplicates(),
        s1 != s2,
    ensures
        intern_id(items, s1) != intern_id(intern_items(items, s1), s2),
{
    lemma_intern_idempotent(items, s1);
    let after = intern_items(items, s1);
    let i1 = intern_id(items, s1);
    if after.contains(s2) {
        let j = after.index_of(s2);
        assert(after[j] == s2);
    }
}

} // verus!

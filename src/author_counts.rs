//! Per-author pairing statistics, built from (driver, navigator) pairs of author ids.
use crate::fx::{fx_get, fx_insert, fx_keys, fx_remove};
use crate::stringcache::StringCache;
use fxhash::FxHashMap;
use vstd::prelude::*;

verus! {

/// How often one author was paired with one co-author: as the driver, and in all.
#[derive(Clone, Copy, Debug, PartialEq, Eq, Structural)]
pub struct PairedWith {
    pub as_driver: u32,
    pub total: u32,
}

/// The counts of a pairing that was never recorded.
pub open spec fn no_pairing() -> PairedWith {
    PairedWith { as_driver: 0, total: 0 }
}

/// `p` after one more pairing; `as_driver` counts it only when the subject drove.
pub open spec fn bumped(p: PairedWith, as_driver: bool) -> PairedWith {
    PairedWith {
        as_driver: if as_driver {
            (p.as_driver + 1) as u32
        } else {
            p.as_driver
        },
        total: (p.total + 1) as u32,
    }
}

/// The counts under `b` in a subject's table, the zero counts where there are none.
pub open spec fn pair_entry(m: Map<usize, PairedWith>, b: usize) -> PairedWith {
    if m.contains_key(b) {
        m[b]
    } else {
        no_pairing()
    }
}

impl PairedWith {
    /// A driver count never exceeds the total.
    pub open spec fn wf(&self) -> bool {
        self.as_driver <= self.total
    }

    /// Zero counts.
    pub fn new() -> (r: Self)
        ensures
            r == no_pairing(),
    {
        PairedWith { as_driver: 0, total: 0 }
    }

    /// One more pairing in which the subject drove.
    pub fn inc_driver(&mut self)
        requires
            old(self).as_driver < u32::MAX,
            old(self).total < u32::MAX,
        ensures
            *final(self) == bumped(*old(self), true),
            old(self).wf() ==> final(self).wf(),
    {
        self.as_driver = self.as_driver + 1;
        self.total = self.total + 1;
    }

    /// One more pairing in which the subject navigated.
    pub fn inc_navigator(&mut self)
        requires
            old(self).total < u32::MAX,
        ensures
            *final(self) == bumped(*old(self), false),
            old(self).wf() ==> final(self).wf(),
    {
        self.total = self.total + 1;
    }
}

impl Default for PairedWith {
    fn default() -> (r: Self)
        ensures
            r == no_pairing(),
    {
        PairedWith::new()
    }
}

/// The pairings of one subject author, keyed by co-author id.
pub struct PairingCounts(FxHashMap<usize, PairedWith>);

impl View for PairingCounts {
    type V = Map<usize, PairedWith>;

    closed spec fn view(&self) -> Map<usize, PairedWith> {
        self.0@
    }
}

impl Default for PairingCounts {
    fn default() -> (r: Self)
        ensures
            r@ == Map::<usize, PairedWith>::empty(),
    {
        PairingCounts::new()
    }
}

impl PairingCounts {
    /// No pairings.
    pub fn new() -> (r: Self)
        ensures
            r@ == Map::<usize, PairedWith>::empty(),
    {
        PairingCounts(FxHashMap::default())
    }

    /// Records one more pairing with `author`, driven by the subject when `as_driver` holds.
    fn record(&mut self, author: usize, as_driver: bool)
        requires
            pair_entry(old(self)@, author).total < u32::MAX,
            as_driver ==> pair_entry(old(self)@, author).as_driver < u32::MAX,
        ensures
            final(self)@ == old(self)@.insert(author, bumped(pair_entry(old(self)@, author), as_driver)),
    {
        let mut p = match fx_remove(&mut self.0, author) {
            Some(p) => p,
            None => PairedWith::new(),
        };
        if as_driver {
            p.inc_driver();
        } else {
            p.inc_navigator();
        }
        fx_insert(&mut self.0, author, p);
        proof {
            assert(self@ =~= old(self)@.insert(author, bumped(pair_entry(old(self)@, author), as_driver)));
        }
    }

    /// The counts with `author`, if the subject was ever paired with them.
    pub fn get(&self, author: usize) -> (r: Option<PairedWith>)
        ensures
            match r {
                Some(p) => self@.contains_key(author) && p == self@[author],
                None => !self@.contains_key(author),
            },
    {
        match fx_get(&self.0, author) {
            Some(p) => Some(*p),
            None => None,
        }
    }

    /// The counts with `author`, who must have been paired with the subject.
    pub fn index(&self, author: usize) -> (r: PairedWith)
        requires
            self@.contains_key(author),
        ensures
            r == self@[author],
    {
        match fx_get(&self.0, author) {
            Some(p) => *p,
            None => PairedWith::new(),
        }
    }

    /// Every (co-author id, counts) entry once, in no particular order.
    pub fn entries(&self) -> (r: Vec<(usize, PairedWith)>)
        ensures
            r@.len() == self@.len(),
            forall|i: int|
                0 <= i < r@.len() ==> self@.contains_key(#[trigger] r@[i].0) && self@[r@[i].0]
                    == r@[i].1,
            forall|i: int, j: int| 0 <= i < j < r@.len() ==> r@[i].0 != r@[j].0,
            forall|k: usize| self@.contains_key(k) ==> exists|i: int| 0 <= i < r@.len() && r@[i].0 == k,
    {
        let keys = fx_keys(&self.0);
        proof {
            keys@.unique_seq_to_set();
        }
        let mut r: Vec<(usize, PairedWith)> = Vec::new();
        for i in 0..keys.len()
            invariant
                keys@.to_set() == self@.dom(),
                keys@.no_duplicates(),
                r@.len() == i,
                forall|j: int| 0 <= j < i ==> (#[trigger] r@[j]).0 == keys@[j] && r@[j].1 == self@[keys@[j]],
        {
            assert(keys@.to_set().contains(keys@[i as int]));
            r.push((keys[i], self.index(keys[i])));
        }
        proof {
            assert forall|k: usize| self@.contains_key(k) implies exists|i: int|
                0 <= i < r@.len() && r@[i].0 == k by {
                assert(keys@.to_set().contains(k));
                let i = choose|i: int| 0 <= i < keys@.len() && keys@[i] == k;
                assert(r@[i].0 == k);
            }
            assert forall|i: int| 0 <= i < r@.len() implies self@.contains_key(#[trigger] r@[i].0)
                && self@[r@[i].0] == r@[i].1 by {
                assert(keys@.to_set().contains(keys@[i]));
            }
        }
        r
    }

    /// The number of co-authors.
    pub fn len(&self) -> (r: usize)
        ensures
            r == self@.len(),
    {
        let keys = fx_keys(&self.0);
        proof {
            keys@.unique_seq_to_set();
        }
        keys.len()
    }

    /// The largest `total` over all co-authors, zero when there are none.
    pub fn max_value(&self) -> (r: u32)
        ensures
            forall|k: usize| self@.contains_key(k) ==> self@[k].total <= r,
            self@.dom().is_empty() ==> r == 0,
            !self@.dom().is_empty() ==> exists|k: usize| self@.contains_key(k) && self@[k].total == r,
    {
        let keys = fx_keys(&self.0);
        let mut best: u32 = 0;
        for i in 0..keys.len()
            invariant
                keys@.to_set() == self@.dom(),
                forall|j: int| 0 <= j < i ==> self@[#[trigger] keys@[j]].total <= best,
                i == 0 ==> best == 0,
                i > 0 ==> exists|j: int| 0 <= j < i && self@[keys@[j]].total == best,
        {
            assert(keys@.to_set().contains(keys@[i as int]));
            let t = self.index(keys[i]).total;
            if i == 0 || t > best {
                best = t;
            }
        }
        proof {
            assert forall|k: usize| self@.contains_key(k) implies self@[k].total <= best by {
                assert(keys@.to_set().contains(k));
                let j = choose|j: int| 0 <= j < keys@.len() && keys@[j] == k;
                assert(self@[keys@[j]].total <= best);
            }
            if keys@.len() > 0 {
                assert(keys@.to_set().contains(keys@[0]));
                assert(self@.dom().contains(keys@[0]));
            }
            if !self@.dom().is_empty() {
                let k = self@.dom().choose();
                assert(self@.dom().contains(k));
                assert(keys@.to_set().contains(k));
                let j = choose|j: int| 0 <= j < keys@.len() && keys@[j] == k;
                assert(keys@.len() > 0);
                let w = choose|w: int| 0 <= w < keys@.len() && self@[keys@[w]].total == best;
                assert(keys@.to_set().contains(keys@[w]));
            }
        }
        best
    }
}

/// `name` and `p` are the resolved name and the counts of some entry of `m`.
pub open spec fn is_resolved_entry<T>(m: Map<usize, T>, names: Seq<Seq<char>>, name: Seq<char>, p: T) -> bool {
    exists|k: usize| m.contains_key(k) && name == names[k as int] && p == m[k]
}

impl PairingCounts {
    /// Every (co-author name, counts) entry once, with names resolved through `cache`.
    pub fn resolving_iter<'n>(&self, cache: &'n StringCache) -> (r: Vec<(&'n str, PairedWith)>)
        requires
            forall|k: usize| self@.contains_key(k) ==> k < cache@.len(),
        ensures
            r@.len() == self@.len(),
            forall|i: int|
                0 <= i < r@.len() ==> is_resolved_entry(self@, cache@, (#[trigger] r@[i]).0@, r@[i].1),
            forall|k: usize|
                self@.contains_key(k) ==> exists|i: int|
                    0 <= i < r@.len() && (#[trigger] r@[i]).0@ == cache@[k as int] && r@[i].1
                        == self@[k],
    {
        let entries = self.entries();
        let mut r: Vec<(&'n str, PairedWith)> = Vec::new();
        for i in 0..entries.len()
            invariant
                forall|k: usize| self@.contains_key(k) ==> k < cache@.len(),
                forall|j: int|
                    0 <= j < entries@.len() ==> self@.contains_key(#[trigger] entries@[j].0)
                        && self@[entries@[j].0] == entries@[j].1,
                r@.len() == i,
                forall|j: int|
                    0 <= j < i ==> (#[trigger] r@[j]).0@ == cache@[entries@[j].0 as int] && r@[j].1
                        == entries@[j].1,
        {
            let (k, p) = entries[i];
            assert(self@.contains_key(entries@[i as int].0));
            r.push((cache.index(k), p));
        }
        proof {
            assert forall|i: int| 0 <= i < r@.len() implies is_resolved_entry(
                self@,
                cache@,
                (#[trigger] r@[i]).0@,
                r@[i].1,
            ) by {
                let k = entries@[i].0;
                assert(self@.contains_key(k));
                assert(self@[k] == r@[i].1);
            }
            assert forall|k: usize| self@.contains_key(k) implies exists|i: int|
                0 <= i < r@.len() && (#[trigger] r@[i]).0@ == cache@[k as int] && r@[i].1
                    == self@[k] by {
                let i = choose|i: int| 0 <= i < entries@.len() && entries@[i].0 == k;
                assert(r@[i].0@ == cache@[k as int]);
            }
        }
        r
    }
}

/// The table of subject `a`, empty where `a` has none.
pub open spec fn counts_of(m: Map<usize, Map<usize, PairedWith>>, a: usize) -> Map<usize, PairedWith> {
    if m.contains_key(a) {
        m[a]
    } else {
        Map::empty()
    }
}

/// The counts of subject `a` with co-author `b`, zero where none were recorded.
pub open spec fn entry_of(m: Map<usize, Map<usize, PairedWith>>, a: usize, b: usize) -> PairedWith {
    pair_entry(counts_of(m, a), b)
}

/// `m` after one more pairing of subject `a` with co-author `b`.
pub open spec fn recorded(m: Map<usize, Map<usize, PairedWith>>, a: usize, b: usize, as_driver: bool) -> Map<
    usize,
    Map<usize, PairedWith>,
> {
    m.insert(a, counts_of(m, a).insert(b, bumped(entry_of(m, a, b), as_driver)))
}

/// `m` after the pair (`driver`, `navigator`): both directional entries updated, or nothing
/// at all when the two are the same author.
pub open spec fn pair_added(m: Map<usize, Map<usize, PairedWith>>, driver: usize, navigator: usize) -> Map<
    usize,
    Map<usize, PairedWith>,
> {
    if driver == navigator {
        m
    } else {
        recorded(recorded(m, driver, navigator, true), navigator, driver, false)
    }
}

/// No count that the pair (`driver`, `navigator`) increments is at the top of its range.
pub open spec fn can_add_pair(m: Map<usize, Map<usize, PairedWith>>, driver: usize, navigator: usize) -> bool {
    driver == navigator || {
        &&& entry_of(m, driver, navigator).as_driver < u32::MAX
        &&& entry_of(m, driver, navigator).total < u32::MAX
        &&& entry_of(m, navigator, driver).total < u32::MAX
    }
}

/// Every recorded entry has `as_driver <= total`.
pub open spec fn counts_wf(m: Map<usize, Map<usize, PairedWith>>) -> bool {
    forall|a: usize, b: usize|
        m.contains_key(a) && #[trigger] m[a].contains_key(b) ==> (#[trigger] m[a][b]).wf()
}

/// Every subject and co-author id in `m` is below `n`: issued by a cache of `n` strings.
pub open spec fn ids_below(m: Map<usize, Map<usize, PairedWith>>, n: int) -> bool {
    forall|a: usize|
        #[trigger] m.contains_key(a) ==> a < n && forall|b: usize| #[trigger]
            m[a].contains_key(b) ==> b < n
}

/// The full aggregation: for each subject author, their pairings.
pub struct AuthorCounts(FxHashMap<usize, PairingCounts>);

impl View for AuthorCounts {
    type V = Map<usize, Map<usize, PairedWith>>;

    closed spec fn view(&self) -> Map<usize, Map<usize, PairedWith>> {
        self.0@.map_values(|p: PairingCounts| p@)
    }
}

impl Default for AuthorCounts {
    fn default() -> (r: Self)
        ensures
            r@ == Map::<usize, Map<usize, PairedWith>>::empty(),
    {
        AuthorCounts::new()
    }
}

impl AuthorCounts {
    /// No pairings.
    pub fn new() -> (r: Self)
        ensures
            r@ == Map::<usize, Map<usize, PairedWith>>::empty(),
    {
        let r = AuthorCounts(FxHashMap::default());
        assert(r@ =~= Map::<usize, Map<usize, PairedWith>>::empty());
        r
    }

    fn record(&mut self, a: usize, b: usize, as_driver: bool)
        requires
            as_driver ==> entry_of(old(self)@, a, b).as_driver < u32::MAX,
            entry_of(old(self)@, a, b).total < u32::MAX,
        ensures
            final(self)@ == recorded(old(self)@, a, b, as_driver),
    {
        let mut pc = match fx_remove(&mut self.0, a) {
            Some(pc) => pc,
            None => PairingCounts::new(),
        };
        pc.record(b, as_driver);
        fx_insert(&mut self.0, a, pc);
        proof {
            assert(self@ =~= recorded(old(self)@, a, b, as_driver));
        }
    }

    /// Records that `driver` made a commit with `navigator`: the driver's entry for the
    /// navigator gains one pairing as driver, the navigator's entry for the driver one
    /// pairing in all. Nothing happens when the two are the same author.
    pub fn add_pair(&mut self, driver: usize, navigator: usize)
        requires
            can_add_pair(old(self)@, driver, navigator),
        ensures
            final(self)@ == pair_added(old(self)@, driver, navigator),
            counts_wf(old(self)@) ==> counts_wf(final(self)@),
            forall|n: int|
                ids_below(old(self)@, n) && driver < n && navigator < n ==> #[trigger] ids_below(
                    final(self)@,
                    n,
                ),
    {
        if driver != navigator {
            self.record(driver, navigator, true);
            self.record(navigator, driver, false);
        }
    }

    /// Whether `add_pair(driver, navigator)` keeps every count within `u32`.
    pub fn can_add_pair(&self, driver: usize, navigator: usize) -> (r: bool)
        ensures
            r == can_add_pair(self@, driver, navigator),
    {
        if driver == navigator {
            return true;
        }
        let d = match self.author(driver) {
            Some(pc) => match pc.get(navigator) {
                Some(p) => p,
                None => PairedWith::new(),
            },
            None => PairedWith::new(),
        };
        let n = match self.author(navigator) {
            Some(pc) => match pc.get(driver) {
                Some(p) => p,
                None => PairedWith::new(),
            },
            None => PairedWith::new(),
        };
        d.as_driver < u32::MAX && d.total < u32::MAX && n.total < u32::MAX
    }

    /// Every subject id once, in no particular order.
    pub fn authors(&self) -> (r: Vec<usize>)
        ensures
            r@.to_set() == self@.dom(),
            r@.no_duplicates(),
    {
        let r = fx_keys(&self.0);
        assert(self@.dom() =~= self.0@.dom());
        r
    }

    /// The pairings of subject `author`, if any were recorded.
    pub fn author(&self, author: usize) -> (r: Option<&PairingCounts>)
        ensures
            match r {
                Some(pc) => self@.contains_key(author) && pc@ == self@[author],
                None => !self@.contains_key(author),
            },
    {
        fx_get(&self.0, author)
    }

    /// The pairings of subject `author`, who must have some.
    pub fn index(&self, author: usize) -> (r: &PairingCounts)
        requires
            self@.contains_key(author),
        ensures
            r@ == self@[author],
    {
        fx_get(&self.0, author).unwrap()
    }

    /// Every subject with their pairings once, with names resolved through `cache`.
    pub fn into_resolving_iter(self, cache: &StringCache) -> (r: Vec<(&str, PairingCounts)>)
        requires
            forall|k: usize| self@.contains_key(k) ==> k < cache@.len(),
        ensures
            r@.len() == self@.len(),
            forall|i: int|
                0 <= i < r@.len() ==> is_resolved_entry(self@, cache@, (#[trigger] r@[i]).0@, r@[i].1@),
            forall|k: usize|
                self@.contains_key(k) ==> exists|i: int|
                    0 <= i < r@.len() && (#[trigger] r@[i]).0@ == cache@[k as int] && r@[i].1@
                        == self@[k],
    {
        let ghost v = self@;
        let keys = fx_keys(&self.0);
        proof {
            keys@.unique_seq_to_set();
            assert(v.dom() =~= self.0@.dom());
        }
        let mut m = self.0;
        let mut r: Vec<(&str, PairingCounts)> = Vec::new();
        for i in 0..keys.len()
            invariant
                keys@.to_set() == v.dom(),
                keys@.no_duplicates(),
                forall|k: usize| v.contains_key(k) ==> k < cache@.len(),
                forall|j: int|
                    i <= j < keys@.len() ==> m@.contains_key(#[trigger] keys@[j]) && m@[keys@[j]]@
                        == v[keys@[j]],
                r@.len() == i,
                forall|j: int|
                    0 <= j < i ==> (#[trigger] r@[j]).0@ == cache@[keys@[j] as int] && r@[j].1@
                        == v[keys@[j]],
        {
            let k = keys[i];
            assert(keys@.to_set().contains(k));
            let pc = fx_remove(&mut m, k).unwrap();
            r.push((cache.index(k), pc));
        }
        proof {
            assert forall|i: int| 0 <= i < r@.len() implies is_resolved_entry(
                v,
                cache@,
                (#[trigger] r@[i]).0@,
                r@[i].1@,
            ) by {
                assert(keys@.to_set().contains(keys@[i]));
            }
            assert forall|k: usize| v.contains_key(k) implies exists|i: int|
                0 <= i < r@.len() && (#[trigger] r@[i]).0@ == cache@[k as int] && r@[i].1@ == v[k] by {
                assert(keys@.to_set().contains(k));
                let i = choose|i: int| 0 <= i < keys@.len() && keys@[i] == k;
                assert(r@[i].0@ == cache@[k as int]);
            }
        }
        r
    }
}

/// One pair of distinct authors: the driver's entry for the navigator gains exactly one
/// pairing as driver and one in all, the navigator's entry for the driver gains one in all
/// and keeps its driver count, and every other entry stays as it was.
pub proof fn lemma_add_pair_updates_both_sides(
    m: Map<usize, Map<usize, PairedWith>>,
    driver: usize,
    navigator: usize,
)
    requires
        driver != navigator,
        can_add_pair(m, driver, navigator),
    ensures
        entry_of(pair_added(m, driver, navigator), driver, navigator).as_driver == entry_of(
            m,
            driver,
            navigator,
        ).as_driver + 1,
        entry_of(pair_added(m, driver, navigator), driver, navigator).total == entry_of(
            m,
            driver,
            navigator,
        ).total + 1,
        entry_of(pair_added(m, driver, navigator), navigator, driver).as_driver == entry_of(
            m,
            navigator,
            driver,
        ).as_driver,
        entry_of(pair_added(m, driver, navigator), navigator, driver).total == entry_of(
            m,
            navigator,
            driver,
        ).total + 1,
        forall|a: usize, b: usize|
            !(a == driver && b == navigator) && !(a == navigator && b == driver) ==> #[trigger] entry_of(
                pair_added(m, driver, navigator),
                a,
                b,
            ) == entry_of(m, a, b),
{
}

/// Pairing an author with themselves changes nothing.
pub proof fn lemma_self_pair_is_noop(m: Map<usize, Map<usize, PairedWith>>, author: usize)
    ensures
        pair_added(m, author, author) == m,
        can_add_pair(m, author, author),
{
}

/// `m` after the pair (`driver`, `navigator`) was added `k` times.
pub open spec fn pair_added_times(
    m: Map<usize, Map<usize, PairedWith>>,
    driver: usize,
    navigator: usize,
    k: nat,
) -> Map<usize, Map<usize, PairedWith>>
    decreases k,
{
    if k == 0 {
        m
    } else {
        pair_added(pair_added_times(m, driver, navigator, (k - 1) as nat), driver, navigator)
    }
}

/// Adding the same pair of distinct authors `k` times to empty counts gives the driver
/// `k` pairings as driver and `k` in all, and the navigator none as driver and `k` in all;
/// every step stays within `u32`.
pub proof fn lemma_repeated_pair(driver: usize, navigator: usize, k: nat)
    requires
        driver != navigator,
        k <= u32::MAX,
    ensures
        entry_of(pair_added_times(Map::empty(), driver, navigator, k), driver, navigator)
            == (PairedWith { as_driver: k as u32, total: k as u32 }),
        entry_of(pair_added_times(Map::empty(), driver, navigator, k), navigator, driver)
            == (PairedWith { as_driver: 0, total: k as u32 }),
        k < u32::MAX ==> can_add_pair(
            pair_added_times(Map::empty(), driver, navigator, k),
            driver,
            navigator,
        ),
    decreases k,
{
    if k > 0 {
        let prev = pair_added_times(Map::empty(), driver, navigator, (k - 1) as nat);
        lemma_repeated_pair(driver, navigator, (k - 1) as nat);
        lemma_add_pair_updates_both_sides(prev, driver, navigator);
    }
}

} // verus!

use git_stats::author_counts::{AuthorCounts, PairedWith};
use git_stats::stringcache::StringCache;

fn entry(counts: &AuthorCounts, a: usize, b: usize) -> PairedWith {
    counts.author(a).and_then(|pc| pc.get(b)).unwrap_or_default()
}

#[test]
fn add_pair_updates_driver_and_navigator() {
    let mut counts = AuthorCounts::new();
    counts.add_pair(0, 1);
    assert_eq!(entry(&counts, 0, 1), PairedWith { as_driver: 1, total: 1 });
    assert_eq!(entry(&counts, 1, 0), PairedWith { as_driver: 0, total: 1 });
    counts.add_pair(1, 0);
    assert_eq!(entry(&counts, 0, 1), PairedWith { as_driver: 1, total: 2 });
    assert_eq!(entry(&counts, 1, 0), PairedWith { as_driver: 1, total: 2 });
}

#[test]
fn add_pair_with_self_is_noop() {
    let mut counts = AuthorCounts::new();
    counts.add_pair(4, 4);
    assert!(counts.author(4).is_none());
    assert!(counts.authors().is_empty());
    counts.add_pair(4, 5);
    counts.add_pair(4, 4);
    assert_eq!(entry(&counts, 4, 5), PairedWith { as_driver: 1, total: 1 });
    assert!(counts.author(4).unwrap().get(4).is_none());
}

#[test]
fn repeated_pair_counts_n_times() {
    let mut counts = AuthorCounts::new();
    for _ in 0..7 {
        assert!(counts.can_add_pair(2, 3));
        counts.add_pair(2, 3);
    }
    assert_eq!(entry(&counts, 2, 3), PairedWith { as_driver: 7, total: 7 });
    assert_eq!(entry(&counts, 3, 2), PairedWith { as_driver: 0, total: 7 });
}

#[test]
fn other_entries_untouched() {
    let mut counts = AuthorCounts::new();
    counts.add_pair(0, 1);
    counts.add_pair(0, 2);
    assert_eq!(entry(&counts, 0, 1), PairedWith { as_driver: 1, total: 1 });
    assert_eq!(entry(&counts, 0, 2), PairedWith { as_driver: 1, total: 1 });
    assert_eq!(entry(&counts, 2, 0), PairedWith { as_driver: 0, total: 1 });
    assert!(counts.author(1).unwrap().get(2).is_none());
    assert_eq!(counts.index(0).len(), 2);
}

#[test]
fn max_value_is_largest_total() {
    let mut counts = AuthorCounts::new();
    counts.add_pair(0, 1);
    counts.add_pair(0, 1);
    counts.add_pair(2, 0);
    counts.add_pair(0, 2);
    counts.add_pair(0, 2);
    assert_eq!(counts.index(0).max_value(), 3);
    assert_eq!(counts.index(1).max_value(), 2);
    assert_eq!(git_stats::author_counts::PairingCounts::new().max_value(), 0);
}

#[test]
fn pairing_resolving_iter_names_co_authors() {
    let mut cache = StringCache::new();
    let alice = cache.intern("Alice");
    let bob = cache.intern("Bob");
    let carol = cache.intern("Carol");
    let mut counts = AuthorCounts::new();
    counts.add_pair(alice, bob);
    counts.add_pair(carol, alice);
    let mut entries = counts.index(alice).resolving_iter(&cache);
    entries.sort_by(|x, y| x.0.cmp(y.0));
    assert_eq!(
        entries,
        vec![
            ("Bob", PairedWith { as_driver: 1, total: 1 }),
            ("Carol", PairedWith { as_driver: 0, total: 1 }),
        ]
    );
}

#[test]
fn author_counts_resolving_iter_lists_subjects() {
    let mut cache = StringCache::new();
    let alice = cache.intern("Alice");
    let bob = cache.intern("Bob");
    let mut counts = AuthorCounts::new();
    counts.add_pair(alice, bob);
    let mut subjects: Vec<(&str, usize)> = counts
        .into_resolving_iter(&cache)
        .into_iter()
        .map(|(name, pc)| (name, pc.len()))
        .collect();
    subjects.sort();
    assert_eq!(subjects, vec![("Alice", 1), ("Bob", 1)]);
}

#[test]
fn paired_with_increments() {
    let mut p = PairedWith::new();
    p.inc_driver();
    p.inc_navigator();
    p.inc_navigator();
    assert_eq!(p, PairedWith { as_driver: 1, total: 3 });
}

use git_stats::stringcache::StringCache;

#[test]
fn intern_twice_yields_same_id() {
    let mut cache = StringCache::new();
    let first = cache.intern("Alice");
    let second = cache.intern("Alice");
    assert_eq!(first, second);
    assert_eq!(cache.len(), 1);
    assert_eq!(cache.index(first), "Alice");
}

#[test]
fn distinct_strings_get_distinct_dense_ids() {
    let mut cache = StringCache::new();
    assert_eq!(cache.intern("Alice"), 0);
    assert_eq!(cache.intern("Bob"), 1);
    assert_eq!(cache.intern("alice"), 2);
    assert_eq!(cache.intern("Bob"), 1);
    assert_ne!(cache.intern("Alice"), cache.intern("Bob"));
}

#[test]
fn resolve_returns_interned_text() {
    let mut cache = StringCache::new();
    let id = cache.intern("Charlie Brown");
    assert_eq!(cache.get(id), Some("Charlie Brown"));
    assert_eq!(cache.index(id), "Charlie Brown");
}

#[test]
fn resolve_unknown_id_fails() {
    let mut cache = StringCache::new();
    let _ = cache.intern("Alice");
    assert_eq!(cache.get(1), None);
    assert_eq!(StringCache::new().get(0), None);
}

#[test]
fn values_in_id_order_and_restartable() {
    let mut cache = StringCache::new();
    let _ = cache.intern("b");
    let _ = cache.intern("a");
    let _ = cache.intern("b");
    let _ = cache.intern("c");
    assert_eq!(cache.values(), vec!["b", "a", "c"]);
    assert_eq!(cache.values(), vec!["b", "a", "c"]);
}

#[test]
fn lookup_finds_only_interned() {
    let mut cache = StringCache::new();
    let id = cache.intern("Dora");
    assert_eq!(cache.lookup("Dora"), Some(id));
    assert_eq!(cache.lookup("dora"), None);
}

#[test]
fn empty_string_is_interned_like_any_other() {
    let mut cache = StringCache::new();
    let _ = cache.intern("x");
    let id = cache.intern("");
    assert_eq!(id, 1);
    assert_eq!(cache.intern(""), 1);
    assert_eq!(cache.index(1), "");
}

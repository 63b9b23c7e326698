use git_stats::author_counts::{AuthorCounts, PairedWith};
use git_stats::repo::{
    add_commit, author_id, get_navigators, parse_key_val, solo_cache, KeyValError, Replacements,
    HAN_SOLO,
};
use git_stats::stringcache::StringCache;
use std::borrow::Cow;

fn entry(counts: &AuthorCounts, a: usize, b: usize) -> PairedWith {
    counts.author(a).and_then(|pc| pc.get(b)).unwrap_or_default()
}

#[test]
fn normalize_folds_umlauts() {
    let rules = Replacements(Vec::new());
    let n = rules.normalize_author_name("Müller");
    assert_eq!(n, "Mueller");
    assert!(n.contains("ue"));
    assert_eq!(Replacements::replace_umlauts("ÄäÖöÜüß"), "AeaeOeoeUeuess");
}

#[test]
fn normalize_without_umlauts_borrows() {
    let rules = Replacements(Vec::new());
    assert!(matches!(rules.normalize_author_name("Alice"), Cow::Borrowed("Alice")));
    assert!(matches!(Replacements::replace_umlauts(""), Cow::Borrowed("")));
    assert!(matches!(Replacements::replace_umlauts("Zoë"), Cow::Borrowed("Zoë")));
}

#[test]
fn first_matching_rule_wins_without_chaining() {
    let rules = Replacements(vec![
        ("al".to_string(), "Alice".to_string()),
        ("Alice".to_string(), "Mallory".to_string()),
        ("al".to_string(), "Other".to_string()),
        ("joerg".to_string(), "Jörg".to_string()),
    ]);
    assert_eq!(rules.normalize_author_name("al"), "Alice");
    assert_eq!(rules.normalize_author_name("Alice"), "Mallory");
    assert_eq!(rules.normalize_author_name("AL"), "AL");
    assert_eq!(rules.normalize_author_name("joerg"), "Joerg");
}

#[test]
fn navigators_from_trailers() {
    let msg = "Fix things\n\nCo-authored-by: Alice <a@x.org>\r\nco-authored-by: Bob\nCo-authored-by: <c@x.org>\n";
    assert_eq!(get_navigators(msg), vec!["Alice", "Bob"]);
}

#[test]
fn navigators_pad_with_solo() {
    assert_eq!(get_navigators("Just me\n\nno trailers here"), vec![HAN_SOLO]);
    assert_eq!(get_navigators(""), vec![HAN_SOLO]);
}

#[test]
fn author_id_normalizes_then_interns() {
    let rules = Replacements(vec![("jm".to_string(), "Jürgen Müller".to_string())]);
    let mut cache = solo_cache();
    let a = author_id(&rules, &mut cache, "jm");
    let b = author_id(&rules, &mut cache, "Juergen Mueller");
    assert_eq!(a, 1);
    assert_eq!(a, b);
    assert_eq!(cache.index(a), "Juergen Mueller");
}

#[test]
fn commit_without_trailers_pairs_with_solo() {
    let rules = Replacements(Vec::new());
    let mut cache = solo_cache();
    let mut counts = AuthorCounts::new();
    assert!(add_commit(&rules, &mut cache, &mut counts, "Alice", "Solo work"));
    let alice = cache.lookup("Alice").unwrap();
    let solo = cache.lookup(HAN_SOLO).unwrap();
    assert_eq!(solo, 0);
    assert_eq!(entry(&counts, alice, solo), PairedWith { as_driver: 1, total: 1 });
    assert_eq!(entry(&counts, solo, alice), PairedWith { as_driver: 0, total: 1 });
}

#[test]
fn commit_with_trailers_pairs_each_navigator() {
    let rules = Replacements(Vec::new());
    let mut cache = solo_cache();
    let mut counts = AuthorCounts::new();
    let msg = "Pair work\n\nCo-authored-by: Bob <b@x.org>\nCo-authored-by: Carol <c@x.org>";
    assert!(add_commit(&rules, &mut cache, &mut counts, "Alice", msg));
    assert!(add_commit(&rules, &mut cache, &mut counts, "Bob", "x\nCo-authored-by: Alice"));
    let alice = cache.lookup("Alice").unwrap();
    let bob = cache.lookup("Bob").unwrap();
    let carol = cache.lookup("Carol").unwrap();
    assert_eq!(entry(&counts, alice, bob), PairedWith { as_driver: 1, total: 2 });
    assert_eq!(entry(&counts, bob, alice), PairedWith { as_driver: 1, total: 2 });
    assert_eq!(entry(&counts, alice, carol), PairedWith { as_driver: 1, total: 1 });
    assert_eq!(entry(&counts, carol, alice), PairedWith { as_driver: 0, total: 1 });
    assert!(counts.author(0).is_none());
}

#[test]
fn commit_naming_its_own_author_records_nothing_for_that_pair() {
    let rules = Replacements(Vec::new());
    let mut cache = solo_cache();
    let mut counts = AuthorCounts::new();
    assert!(add_commit(&rules, &mut cache, &mut counts, "Alice", "x\nCo-authored-by: Alice"));
    assert!(counts.authors().is_empty());
}

#[test]
fn parse_key_val_splits_at_first_equals() {
    assert_eq!(parse_key_val("a=b=c"), Ok(("a".to_string(), "b=c".to_string())));
    assert_eq!(parse_key_val("=x"), Ok((String::new(), "x".to_string())));
    assert_eq!(parse_key_val("Jürgen="), Ok(("Jürgen".to_string(), String::new())));
}

#[test]
fn parse_key_val_without_equals_fails() {
    assert_eq!(parse_key_val("no equals"), Err(KeyValError::MissingEquals));
    assert_eq!(parse_key_val(""), Err(KeyValError::MissingEquals));
}

#[test]
fn solo_cache_holds_solo_first() {
    let cache: StringCache = solo_cache();
    assert_eq!(cache.values(), vec![HAN_SOLO]);
}

use win_timer::server::{scope_is_all, split_located, ListCache, CACHE_TTL_NANOS};
use win_timer::text::push_decimal;

#[test]
fn split_located_cases() {
    assert_eq!(split_located("\\Foo"), ("\\".to_string(), "Foo".to_string()));
    assert_eq!(split_located("\\A\\B\\Task"), ("\\A\\B\\".to_string(), "Task".to_string()));
    assert_eq!(split_located("Task"), ("\\".to_string(), "Task".to_string()));
    assert_eq!(split_located("\\A\\"), ("\\".to_string(), "\\A\\".to_string()));
    assert_eq!(split_located(""), ("\\".to_string(), "".to_string()));
    assert_eq!(split_located("\\目录\\任务"), ("\\目录\\".to_string(), "任务".to_string()));
}

#[test]
fn scope_selection() {
    assert!(scope_is_all(Some("all")));
    assert!(!scope_is_all(Some("All")));
    assert!(!scope_is_all(Some("root")));
    assert!(!scope_is_all(None));
}

#[test]
fn cache_serves_fresh_lists_only() {
    let mut c: ListCache<Vec<u32>> = ListCache::new();
    assert_eq!(c.lookup(false, 0), None);
    let g = c.generation();
    c.store(false, g, 100, vec![1, 2]);
    assert_eq!(c.lookup(false, 100 + CACHE_TTL_NANOS - 1), Some(&vec![1, 2]));
    assert_eq!(c.lookup(false, 100 + CACHE_TTL_NANOS), None);
    // The other scope is untouched.
    assert_eq!(c.lookup(true, 100), None);
    // A clock reading earlier than the fetch counts as no time elapsed.
    assert_eq!(c.lookup(false, 50), Some(&vec![1, 2]));
}

#[test]
fn cache_invalidation_drops_lists_and_stale_stores() {
    let mut c: ListCache<&str> = ListCache::new();
    let g = c.generation();
    c.store(true, g, 0, "old");
    assert_eq!(c.lookup(true, 1), Some(&"old"));
    // A fetch starts, then a write happens before it finishes.
    let seen = c.generation();
    c.invalidate();
    assert_eq!(c.lookup(true, 1), None);
    c.store(true, seen, 2, "stale");
    assert_eq!(c.lookup(true, 3), None);
    // A fetch that starts after the write is stored.
    let now = c.generation();
    assert_eq!(now, seen + 1);
    c.store(true, now, 4, "fresh");
    assert_eq!(c.lookup(true, 5), Some(&"fresh"));
}

#[test]
fn decimal_rendering() {
    let mut s = String::from("n=");
    push_decimal(&mut s, 0);
    assert_eq!(s, "n=0");
    let mut s = String::new();
    push_decimal(&mut s, u64::MAX);
    assert_eq!(s, u64::MAX.to_string());
    let mut s = String::new();
    push_decimal(&mut s, 1000);
    assert_eq!(s, "1000");
}

#[test]
fn split_located_rejoins() {
    for s in ["\\A\\B", "\\x", "a\\b\\c", "\\目录\\任务"] {
        let (p, n) = split_located(s);
        assert_eq!(format!("{p}{n}"), s);
        assert!(p.ends_with('\\'));
        assert!(!n.contains('\\'));
    }
}

#[test]
fn cache_scopes_are_independent() {
    let mut c: ListCache<u8> = ListCache::new();
    let g = c.generation();
    c.store(false, g, 10, 1);
    c.store(true, g, 10, 2);
    assert_eq!(c.lookup(false, 11), Some(&1));
    assert_eq!(c.lookup(true, 11), Some(&2));
    c.store(true, g, 12, 3);
    assert_eq!(c.lookup(false, 13), Some(&1));
    assert_eq!(c.lookup(true, 13), Some(&3));
    c.invalidate();
    assert_eq!(c.lookup(false, 13), None);
    assert_eq!(c.lookup(true, 13), None);
}

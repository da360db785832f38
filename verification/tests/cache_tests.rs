use doomsday_rs::cache::{Cache, CacheDiff, CacheStats};
use doomsday_rs::types::{CacheItem, CacheObject, PathObject};

fn now() -> i64 {
    chrono::Utc::now().timestamp()
}

fn create_test_object(subject: &str, days_from_now: i64) -> CacheObject {
    CacheObject {
        subject: subject.to_string(),
        not_after: now() + days_from_now * 86400,
        sha1: format!("sha1_{}", subject),
        paths: vec![PathObject {
            backend: "test".to_string(),
            path: format!("/test/{}", subject),
        }],
    }
}

fn object_at(sha1: &str, subject: &str, not_after: i64, backend: &str, path: &str) -> CacheObject {
    CacheObject {
        subject: subject.to_string(),
        not_after,
        sha1: sha1.to_string(),
        paths: vec![PathObject { backend: backend.to_string(), path: path.to_string() }],
    }
}

fn subjects(items: &[CacheItem]) -> Vec<String> {
    items.iter().map(|i| i.subject.clone()).collect()
}

#[test]
fn test_cache_operations() {
    let mut cache = Cache::new();

    let obj = create_test_object("test.com", 30);
    let sha1 = "test_sha1".to_string();

    cache.insert(sha1.clone(), obj.clone());

    assert_eq!(cache.len(), 1);
    assert!(!cache.is_empty());

    let retrieved = cache.get(&sha1).unwrap();
    assert_eq!(retrieved.subject, obj.subject);

    let removed = cache.remove(&sha1).unwrap();
    assert_eq!(removed.subject, obj.subject);
    assert_eq!(cache.len(), 0);
    assert!(cache.is_empty());
}

#[test]
fn test_cache_stats() {
    let mut cache = Cache::new();

    // Add certificates with different expiry dates
    cache.insert("1".to_string(), create_test_object("expired.com", -10));
    cache.insert("2".to_string(), create_test_object("soon.com", 15));
    cache.insert("3".to_string(), create_test_object("ok.com", 100));

    let stats = cache.get_stats();
    assert_eq!(stats.total, 3);
    assert_eq!(stats.expired, 1);
    assert_eq!(stats.expiring_soon, 1);
    assert_eq!(stats.ok, 1);
}

#[test]
fn test_cache_list_filtered() {
    let mut cache = Cache::new();

    cache.insert("1".to_string(), create_test_object("a.com", 30));
    cache.insert("2".to_string(), create_test_object("b.com", 60));
    cache.insert("3".to_string(), create_test_object("c.com", 90));

    let filtered = cache.list_filtered(|item| item.subject.starts_with("a"));
    assert_eq!(filtered.len(), 1);
    assert_eq!(filtered[0].subject, "a.com");
}

#[test]
fn new_cache_is_empty() {
    let cache = Cache::new();
    assert_eq!(cache.len(), 0);
    assert!(cache.is_empty());
    assert!(cache.get("anything").is_none());
    assert!(cache.list().is_empty());
    let cache = Cache::default();
    assert!(cache.is_empty());
}

#[test]
fn insert_replaces_entry_under_same_key() {
    let mut cache = Cache::new();
    cache.insert("k".to_string(), object_at("k", "old", 10, "b", "/p"));
    cache.insert("k".to_string(), object_at("k", "new", 20, "b", "/q"));
    assert_eq!(cache.len(), 1);
    let got = cache.get("k").unwrap();
    assert_eq!(got.subject, "new");
    assert_eq!(got.not_after, 20);
    assert_eq!(got.paths[0].path, "/q");
}

#[test]
fn remove_of_unknown_key_changes_nothing() {
    let mut cache = Cache::new();
    cache.insert("k".to_string(), object_at("k", "s", 10, "b", "/p"));
    assert!(cache.remove("other").is_none());
    assert_eq!(cache.len(), 1);
}

#[test]
fn clear_removes_everything() {
    let mut cache = Cache::new();
    cache.insert("1".to_string(), object_at("1", "a", 10, "b", "/p"));
    cache.insert("2".to_string(), object_at("2", "b", 20, "b", "/q"));
    cache.clear();
    assert!(cache.is_empty());
    assert_eq!(cache.len(), 0);
}

#[test]
fn list_is_sorted_by_expiry() {
    let mut cache = Cache::new();
    let times = [50i64, -3, 17, 1000, 0, 17, 42, -100];
    for (i, t) in times.iter().enumerate() {
        let key = format!("k{}", i);
        cache.insert(key.clone(), object_at(&key, &format!("s{}", i), *t, "b", "/p"));
    }
    let items = cache.list();
    assert_eq!(items.len(), times.len());
    for pair in items.windows(2) {
        assert!(pair[0].not_after <= pair[1].not_after);
    }
    let mut expected: Vec<i64> = times.to_vec();
    expected.sort();
    let got: Vec<i64> = items.iter().map(|i| i.not_after).collect();
    assert_eq!(got, expected);
    let mut names = subjects(&items);
    names.sort();
    let mut all: Vec<String> = (0..times.len()).map(|i| format!("s{}", i)).collect();
    all.sort();
    assert_eq!(names, all);
}

#[test]
fn list_shows_subject_expiry_and_paths() {
    let mut cache = Cache::new();
    let mut object = object_at("fp", "CN=a", 99, "vault", "/a");
    object.paths.push(PathObject { backend: "credhub".to_string(), path: "/b".to_string() });
    cache.insert("fp".to_string(), object);
    let items = cache.list();
    assert_eq!(items.len(), 1);
    assert_eq!(items[0].subject, "CN=a");
    assert_eq!(items[0].not_after, 99);
    assert_eq!(items[0].paths.len(), 2);
    assert_eq!(items[0].paths[0].backend, "vault");
    assert_eq!(items[0].paths[1].path, "/b");
}

#[test]
fn entries_lists_each_entry_with_its_key() {
    let mut cache = Cache::new();
    cache.insert("1".to_string(), object_at("1", "a", 10, "b", "/p"));
    cache.insert("2".to_string(), object_at("2", "b", 20, "b", "/q"));
    let mut entries = cache.entries();
    entries.sort_by(|a, b| a.0.cmp(&b.0));
    assert_eq!(entries.len(), 2);
    assert_eq!(entries[0].0, "1");
    assert_eq!(entries[0].1.subject, "a");
    assert_eq!(entries[1].0, "2");
    assert_eq!(entries[1].1.not_after, 20);
}

#[test]
fn list_filtered_keeps_order() {
    let mut cache = Cache::new();
    for t in [5i64, 1, 4, 2, 3] {
        let key = format!("k{}", t);
        cache.insert(key.clone(), object_at(&key, "s", t, "b", "/p"));
    }
    let even = cache.list_filtered(|item| item.not_after % 2 == 0);
    let got: Vec<i64> = even.iter().map(|i| i.not_after).collect();
    assert_eq!(got, vec![2, 4]);
    let none = cache.list_filtered(|_| false);
    assert!(none.is_empty());
    let all = cache.list_filtered(|_| true);
    assert_eq!(all.len(), 5);
}

#[test]
fn diff_removes_then_adds() {
    let mut cache = Cache::new();
    cache.insert("a".to_string(), object_at("a", "old a", 1, "b", "/a"));
    cache.insert("b".to_string(), object_at("b", "old b", 2, "b", "/b"));
    cache.insert("c".to_string(), object_at("c", "old c", 3, "b", "/c"));
    let diff = CacheDiff {
        added: vec![
            ("a".to_string(), object_at("a", "new a", 10, "b", "/a")),
            ("d".to_string(), object_at("d", "new d", 40, "b", "/d")),
        ],
        removed: vec!["a".to_string(), "b".to_string(), "zzz".to_string()],
    };
    assert!(cache.update_from_diff(diff).is_ok());
    assert_eq!(cache.len(), 3);
    assert_eq!(cache.get("a").unwrap().subject, "new a");
    assert!(cache.get("b").is_none());
    assert_eq!(cache.get("c").unwrap().subject, "old c");
    assert_eq!(cache.get("d").unwrap().not_after, 40);
}

#[test]
fn diff_with_repeated_key_keeps_last() {
    let mut cache = Cache::new();
    let diff = CacheDiff {
        added: vec![
            ("a".to_string(), object_at("a", "first", 1, "b", "/a")),
            ("a".to_string(), object_at("a", "second", 2, "b", "/a")),
        ],
        removed: vec![],
    };
    cache.update_from_diff(diff).unwrap();
    assert_eq!(cache.len(), 1);
    assert_eq!(cache.get("a").unwrap().subject, "second");
}

fn sample_diff() -> CacheDiff {
    CacheDiff {
        added: vec![
            ("a".to_string(), object_at("a", "new a", 10, "b", "/a")),
            ("d".to_string(), object_at("d", "new d", 40, "b", "/d")),
        ],
        removed: vec!["b".to_string(), "d".to_string()],
    }
}

fn snapshot(cache: &Cache) -> Vec<(String, String, i64, usize)> {
    let mut all: Vec<(String, String, i64, usize)> = cache
        .entries()
        .into_iter()
        .map(|(k, v)| (k, v.subject, v.not_after, v.paths.len()))
        .collect();
    all.sort();
    all
}

#[test]
fn applying_a_diff_twice_is_applying_it_once() {
    let mut cache = Cache::new();
    cache.insert("a".to_string(), object_at("a", "old a", 1, "b", "/a"));
    cache.insert("b".to_string(), object_at("b", "old b", 2, "b", "/b"));
    cache.insert("c".to_string(), object_at("c", "old c", 3, "b", "/c"));
    cache.update_from_diff(sample_diff()).unwrap();
    let once = snapshot(&cache);
    cache.update_from_diff(sample_diff()).unwrap();
    let twice = snapshot(&cache);
    assert_eq!(once, twice);
    assert_eq!(once.len(), 3);
}

#[test]
fn empty_diff_changes_nothing() {
    let mut cache = Cache::new();
    cache.insert("a".to_string(), object_at("a", "s", 1, "b", "/a"));
    let diff = CacheDiff::new();
    assert!(diff.is_empty());
    cache.update_from_diff(diff).unwrap();
    assert_eq!(cache.len(), 1);
    assert!(!sample_diff().is_empty());
    let only_removed = CacheDiff { added: vec![], removed: vec!["x".to_string()] };
    assert!(!only_removed.is_empty());
}

#[test]
fn every_entry_stands_under_its_fingerprint() {
    let mut cache = Cache::new();
    cache.insert("a".to_string(), object_at("a", "s", 1, "b", "/a"));
    cache.update_from_diff(sample_diff()).unwrap();
    for (key, entry) in cache.entries() {
        assert_eq!(entry.sha1, key);
        assert!(!entry.paths.is_empty());
    }
}

#[test]
fn stats_at_boundaries() {
    let now = 1_000_000i64;
    let thirty_days = 30 * 86400;
    let mut cache = Cache::new();
    cache.insert("1".to_string(), object_at("1", "just expired", now - 1, "b", "/1"));
    cache.insert("2".to_string(), object_at("2", "expires now", now, "b", "/2"));
    cache.insert("3".to_string(), object_at("3", "last soon", now + thirty_days, "b", "/3"));
    cache.insert("4".to_string(), object_at("4", "first ok", now + thirty_days + 1, "b", "/4"));
    cache.insert("5".to_string(), object_at("5", "long gone", i64::MIN, "b", "/5"));
    cache.insert("6".to_string(), object_at("6", "far away", i64::MAX, "b", "/6"));
    let stats = cache.stats_at(now);
    assert_eq!(stats, CacheStats { total: 6, ok: 2, expiring_soon: 2, expired: 2 });
    assert_eq!(stats.total, stats.ok + stats.expiring_soon + stats.expired);
}

#[test]
fn stats_of_empty_cache() {
    let cache = Cache::new();
    assert_eq!(cache.stats_at(0), CacheStats::new());
    assert_eq!(CacheStats::new(), CacheStats { total: 0, ok: 0, expiring_soon: 0, expired: 0 });
    assert_eq!(CacheStats::default(), CacheStats::new());
    let stats = cache.get_stats();
    assert_eq!(stats.total, 0);
}

#[test]
fn stats_with_extreme_instants() {
    let mut cache = Cache::new();
    cache.insert("1".to_string(), object_at("1", "s", i64::MAX, "b", "/1"));
    cache.insert("2".to_string(), object_at("2", "s", i64::MIN, "b", "/2"));
    let early = cache.stats_at(i64::MIN);
    assert_eq!(early, CacheStats { total: 2, ok: 1, expiring_soon: 1, expired: 0 });
    let late = cache.stats_at(i64::MAX);
    assert_eq!(late, CacheStats { total: 2, ok: 0, expiring_soon: 1, expired: 1 });
}

#[test]
fn object_shows_as_item() {
    let object = object_at("fp", "CN=x", 7, "b", "/p");
    let item = object.to_item();
    assert_eq!(item.subject, "CN=x");
    assert_eq!(item.not_after, 7);
    assert_eq!(item.paths.len(), 1);
    assert_eq!(item.paths[0].backend, "b");
    let copy = item.clone();
    assert_eq!(copy.subject, item.subject);
}

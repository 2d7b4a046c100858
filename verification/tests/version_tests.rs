use muxi_rust::version_check::{
    check_update, is_newer_version, last_notified_secs, mark_notified, notified_recently, sdk_update_available,
    update_latest_version, VersionCache, VersionEntry,
};

fn entry(current: Option<&str>, latest: Option<&str>, last: Option<&str>) -> VersionEntry {
    VersionEntry {
        current: current.map(String::from),
        latest: latest.map(String::from),
        last_notified: last.map(String::from),
    }
}

fn cache_of(name: &str, e: VersionEntry) -> VersionCache {
    let mut c = VersionCache::new();
    c.insert(name.to_string(), e);
    c
}

#[test]
fn newer_is_string_order() {
    assert!(is_newer_version("0.2.0", "0.1.0"));
    assert!(!is_newer_version("0.1.0", "0.1.0"));
    assert!(!is_newer_version("0.0.9", "0.1.0"));
    assert!(is_newer_version("0.1.0-rc", "0.1.0"));
    assert!(!is_newer_version("0.10.0", "0.9.0"));
}

#[test]
fn update_announced_by_headers() {
    let h = vec![("x-muxi-sdk-latest".to_string(), "0.2.0".to_string())];
    assert_eq!(sdk_update_available(&h), Some("0.2.0".to_string()));
    let h = vec![("X-Muxi-SDK-Latest".to_string(), "9.9.9".to_string())];
    assert_eq!(sdk_update_available(&h), Some("9.9.9".to_string()));
    let h = vec![("x-muxi-sdk-latest".to_string(), "0.1.0".to_string())];
    assert_eq!(sdk_update_available(&h), None);
    assert_eq!(sdk_update_available(&vec![]), None);
}

#[test]
fn recording_latest_and_notices() {
    let mut cache = cache_of("python", entry(Some("1"), None, None));
    update_latest_version(&mut cache, "0.2.0");
    assert_eq!(cache.entries().len(), 2);
    assert_eq!(cache.entries()[1].0, "rust");
    assert_eq!(cache.entries()[1].1.current.as_deref(), Some("0.1.0"));
    assert_eq!(cache.entries()[1].1.latest.as_deref(), Some("0.2.0"));
    assert_eq!(cache.entries()[0].1.current.as_deref(), Some("1"));
    assert!(!notified_recently(&cache, 1000));
    mark_notified(&mut cache, 1000);
    assert_eq!(cache.entries()[1].1.last_notified.as_deref(), Some("1000"));
    assert_eq!(last_notified_secs(&cache), Some(1000));
    assert!(notified_recently(&cache, 1000));
    assert!(notified_recently(&cache, 1000 + 43199));
    assert!(!notified_recently(&cache, 1000 + 43200));
    update_latest_version(&mut cache, "0.3.0");
    assert_eq!(cache.entries().len(), 2);
    assert_eq!(cache.entries()[1].1.latest.as_deref(), Some("0.3.0"));
    assert_eq!(cache.entries()[1].1.last_notified.as_deref(), Some("1000"));
}

#[test]
fn notice_without_entry_is_not_recorded() {
    let mut cache = VersionCache::new();
    mark_notified(&mut cache, 5);
    assert!(cache.entries().is_empty());
    let cache = cache_of("rust", entry(None, None, Some("junk")));
    assert_eq!(last_notified_secs(&cache), Some(0));
    assert!(!notified_recently(&cache, 50_000));
}

#[test]
fn recorded_names_stay_distinct() {
    let mut cache = cache_of("go", entry(None, None, None));
    for i in 0..3u64 {
        update_latest_version(&mut cache, "9.0.0");
        mark_notified(&mut cache, i);
    }
    let mut names: Vec<&str> = cache.entries().iter().map(|(n, _)| n.as_str()).collect();
    names.sort();
    names.dedup();
    assert_eq!(names.len(), cache.entries().len());
    assert_eq!(cache.entries().len(), 2);
}

#[test]
fn update_check_records_and_tells_once_per_twelve_hours() {
    let newer = vec![("x-muxi-sdk-latest".to_string(), "0.2.0".to_string())];
    let mut cache = VersionCache::new();
    assert_eq!(check_update(&mut cache, &newer, 1_000_000), Some(("0.2.0".to_string(), true)));
    assert_eq!(cache.entries().len(), 1);
    assert_eq!(cache.entries()[0].1.latest.as_deref(), Some("0.2.0"));
    assert_eq!(cache.entries()[0].1.last_notified.as_deref(), Some("1000000"));
    // Within twelve hours: recorded, not told again.
    assert_eq!(check_update(&mut cache, &newer, 1_000_000 + 43_199), Some(("0.2.0".to_string(), false)));
    assert_eq!(cache.entries()[0].1.last_notified.as_deref(), Some("1000000"));
    // Twelve hours later: told again.
    assert_eq!(check_update(&mut cache, &newer, 1_000_000 + 43_200), Some(("0.2.0".to_string(), true)));
    assert_eq!(cache.entries()[0].1.last_notified.as_deref(), Some("1043200"));
    // Nothing newer announced: the cache is left alone.
    let same = vec![("x-muxi-sdk-latest".to_string(), "0.1.0".to_string())];
    let before = cache.entries().len();
    assert_eq!(check_update(&mut cache, &same, 0), None);
    assert_eq!(check_update(&mut cache, &vec![], 0), None);
    assert_eq!(cache.entries().len(), before);
    assert_eq!(cache.entries()[0].1.last_notified.as_deref(), Some("1043200"));
}

#[test]
fn insert_replaces_an_entry_of_the_same_name() {
    let mut c = VersionCache::new();
    c.insert("rust".to_string(), entry(Some("1"), None, None));
    c.insert("go".to_string(), entry(Some("2"), None, None));
    c.insert("rust".to_string(), entry(Some("3"), None, None));
    assert_eq!(c.entries().len(), 2);
    assert_eq!(c.entries()[0].0, "rust");
    assert_eq!(c.entries()[0].1.current.as_deref(), Some("3"));
    assert_eq!(c.entries()[1].0, "go");
}

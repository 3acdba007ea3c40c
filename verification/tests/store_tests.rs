use cargo_cleans::record::PathInfo;
use cargo_cleans::store::PathInfoStore;

const DAY: u64 = 86400;

fn info(path: &str, project: &str, last_modified_secs: u64, size: u64) -> PathInfo {
    PathInfo {
        path: String::from(path),
        project: String::from(project),
        last_modified_secs,
        size,
    }
}

#[test]
fn new_converts_megabytes_to_bytes() {
    let store = PathInfoStore::new(3, 5);
    assert_eq!(store.keep_days, 3);
    assert_eq!(store.keep_size, 5 * 1024 * 1024);
    assert!(store.projects.is_empty());
    assert!(store.ignores.is_empty());
}

#[test]
fn size_exactly_at_threshold_is_ignored() {
    let mut store = PathInfoStore::new(0, 5);
    let now: u64 = 1_700_000_000;
    store.push(info("/a/target", "a", now - 100 * DAY, 5 * 1024 * 1024), now);
    assert_eq!(store.ignores.len(), 1);
    assert_eq!(store.projects.len(), 0);
}

#[test]
fn size_one_byte_over_threshold_is_selected() {
    let mut store = PathInfoStore::new(0, 5);
    let now: u64 = 1_700_000_000;
    store.push(info("/a/target", "a", now - 100 * DAY, 5 * 1024 * 1024 + 1), now);
    assert_eq!(store.ignores.len(), 0);
    assert_eq!(store.projects.len(), 1);
}

#[test]
fn age_exactly_at_threshold_is_a_candidate() {
    let mut store = PathInfoStore::new(10, 0);
    let now: u64 = 1_700_000_000;
    store.push(info("/a/target", "a", now - 10 * DAY, 1), now);
    assert_eq!(store.projects.len(), 1);
    assert_eq!(store.ignores.len(), 0);
}

#[test]
fn age_one_day_younger_is_ignored() {
    let mut store = PathInfoStore::new(10, 0);
    let now: u64 = 1_700_000_000;
    store.push(info("/a/target", "a", now - 9 * DAY, 1), now);
    assert_eq!(store.projects.len(), 0);
    assert_eq!(store.ignores.len(), 1);
}

#[test]
fn future_timestamp_counts_as_age_zero() {
    let mut store = PathInfoStore::new(1, 0);
    let now: u64 = 1_700_000_000;
    store.push(info("/a/target", "a", now + 5 * DAY, 1), now);
    assert_eq!(store.ignores.len(), 1);
}

#[test]
fn push_all_partitions_in_arrival_order() {
    let mut store = PathInfoStore::new(0, 1);
    let now: u64 = 1_700_000_000;
    let mb = 1024 * 1024;
    let records = vec![
        info("/a/target", "a", now - DAY, 2 * mb),
        info("/b/target", "b", now - DAY, 1),
        info("/c/target", "c", now - DAY, 3 * mb),
        info("/d/target", "d", now - DAY, mb),
    ];
    store.push_all(records, now);
    assert_eq!(store.projects.len(), 2);
    assert_eq!(store.projects[0].path, "/a/target");
    assert_eq!(store.projects[1].path, "/c/target");
    assert_eq!(store.ignores.len(), 2);
    assert_eq!(store.ignores[0].path, "/b/target");
    assert_eq!(store.ignores[1].path, "/d/target");
}

#[test]
fn arrival_order_does_not_change_membership() {
    let now: u64 = 1_700_000_000;
    let mb = 1024 * 1024;
    let a = || info("/a/target", "a", now - DAY, 2 * mb);
    let b = || info("/b/target", "b", now - DAY, 1);
    let c = || info("/c/target", "c", now - DAY, 3 * mb);
    let mut store_one = PathInfoStore::new(0, 1);
    store_one.push_all(vec![a(), b(), c()], now);
    let mut store_two = PathInfoStore::new(0, 1);
    store_two.push_all(vec![c(), a(), b()], now);
    let sorted_paths = |records: &Vec<cargo_cleans::record::PathInfo>| {
        let mut paths: Vec<String> = records.iter().map(|p| p.path.clone()).collect();
        paths.sort();
        paths
    };
    assert_eq!(sorted_paths(&store_one.projects), sorted_paths(&store_two.projects));
    assert_eq!(sorted_paths(&store_one.ignores), sorted_paths(&store_two.ignores));
    assert_eq!(sorted_paths(&store_one.projects), vec!["/a/target", "/c/target"]);
    assert_eq!(sorted_paths(&store_one.ignores), vec!["/b/target"]);
}

#[test]
fn freeable_size_sums_selected_only() {
    let mut store = PathInfoStore::new(0, 0);
    let now: u64 = 1_700_000_000;
    store.push(info("/a/target", "a", now - DAY, 10), now);
    store.push(info("/b/target", "b", now - DAY, 32), now);
    assert_eq!(store.freeable_size(), Some(42));
}

#[test]
fn freeable_size_overflow_is_reported() {
    let mut store = PathInfoStore::new(0, 0);
    let now: u64 = 1_700_000_000;
    store.push(info("/a/target", "a", now - DAY, u64::MAX), now);
    store.push(info("/b/target", "b", now - DAY, 1), now);
    assert_eq!(store.freeable_size(), None);
    assert!(store.report().is_none());
}

#[test]
fn clean_on_missing_directory_names_the_path() {
    let mut store = PathInfoStore::new(0, 0);
    let now: u64 = 1_700_000_000;
    store.push(
        info("/nonexistent_cargo_cleans_test_dir/target", "x", now - DAY, 1),
        now,
    );
    store.push(
        info("/another_nonexistent_cargo_cleans_dir/target", "y", now - DAY, 1),
        now,
    );
    let err = store.clean().unwrap_err();
    // The walk stops at the first failure, so the error names the first
    // selected record.
    assert_eq!(err.path, "/nonexistent_cargo_cleans_test_dir/target");
}

#[test]
fn clean_with_nothing_selected_succeeds() {
    let store = PathInfoStore::new(0, 0);
    assert!(store.clean().is_ok());
}

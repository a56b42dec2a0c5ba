use remote_backup::retention::{evict_if_over_limit, BackupObject};

fn obj(name: &str, mtime: u64) -> BackupObject {
    BackupObject { name: name.to_string(), mtime }
}

#[test]
fn over_limit_evicts_oldest() {
    let list = vec![obj("backup-b", 30), obj("backup-a", 10), obj("backup-c", 20)];
    assert_eq!(evict_if_over_limit(&list, 2), Some(1));
}

#[test]
fn at_limit_evicts_one() {
    let list = vec![obj("backup-2", 200), obj("backup-1", 100)];
    assert_eq!(evict_if_over_limit(&list, 2), Some(1));
}

#[test]
fn under_limit_keeps_all() {
    let list = vec![obj("backup-2", 200), obj("backup-1", 100)];
    assert_eq!(evict_if_over_limit(&list, 3), None);
    assert_eq!(evict_if_over_limit(&list, 5), None);
    assert_eq!(evict_if_over_limit(&Vec::new(), 1), None);
}

#[test]
fn empty_listing_with_zero_limit() {
    assert_eq!(evict_if_over_limit(&Vec::new(), 0), None);
}

#[test]
fn equal_times_break_ties_by_name() {
    let list = vec![obj("backup-b", 50), obj("backup-c", 50), obj("backup-a", 50), obj("z", 60)];
    assert_eq!(evict_if_over_limit(&list, 1), Some(2));
    let list = vec![obj("ab", 5), obj("a", 5)];
    assert_eq!(evict_if_over_limit(&list, 2), Some(1));
}

#[test]
fn identical_entries_pick_first() {
    let list = vec![obj("x", 1), obj("x", 1)];
    assert_eq!(evict_if_over_limit(&list, 0), Some(0));
}

#[test]
fn large_listing_single_eviction() {
    let list: Vec<BackupObject> =
        (0..10u64).map(|i| obj(&format!("backup-{}", i), 1000 - i)).collect();
    assert_eq!(evict_if_over_limit(&list, 3), Some(9));
}

use lx_music_sync::data::snapshot::{info_write_due, SnapshotInfo};
use lx_music_sync::utils::crypto::to_md5;

#[test]
fn snapshot_keys_per_client() {
    let mut info = SnapshotInfo::new();
    assert_eq!(info.get_snapshot_key(&"a".to_string()), None);
    assert_eq!(info.update_snapshot_key("a".to_string(), 1), None);
    assert_eq!(info.update_snapshot_key("b".to_string(), 1), None);
    assert_eq!(info.get_snapshot_key(&"a".to_string()), Some(1));
    // `a` moves on; `b` still uses 1, so nothing is stale.
    assert_eq!(info.update_snapshot_key("a".to_string(), 2), None);
    // `b` moves on; nobody uses 1 any more.
    assert_eq!(info.update_snapshot_key("b".to_string(), 2), Some(1));
    // Same key again: the old key is still in use by `b` itself.
    assert_eq!(info.update_snapshot_key("b".to_string(), 2), None);
}

#[test]
fn latest_snapshot_recording() {
    let mut info = SnapshotInfo::new();
    assert!(info.record_latest(7));
    assert!(!info.record_latest(7));
    assert_eq!(info.latest_key, Some(7));
    let (key, fresh) = info.create_snapshot(b"data").unwrap();
    assert_eq!(key, to_md5(b"data").unwrap());
    assert!(fresh);
    assert_eq!(info.create_snapshot(b"data"), Some((key, false)));
}

#[test]
fn commit_client_moves_client_and_latest() {
    let mut info = SnapshotInfo::new();
    let first = info.commit_client("a".to_string(), b"one").unwrap();
    assert_eq!(first.key, to_md5(b"one").unwrap());
    assert!(first.is_new);
    assert_eq!(first.stale, None);
    let second = info.commit_client("a".to_string(), b"two").unwrap();
    assert_eq!(second.stale, Some(first.key));
    assert_eq!(info.latest_key, Some(second.key));
    assert_eq!(info.get_snapshot_key(&"a".to_string()), Some(second.key));
}

#[test]
fn snapshot_info_entries_roundtrip() {
    let info = SnapshotInfo::from_entries(
        Some(3),
        vec![("a".to_string(), 1), ("b".to_string(), 2), ("a".to_string(), 3)],
        vec![2, 3],
    );
    assert_eq!(info.snapshot_keys(), vec![2, 3]);
    assert_eq!(info.get_snapshot_key(&"a".to_string()), Some(3));
    let mut entries = info.entries();
    entries.sort();
    assert_eq!(entries, vec![("a".to_string(), 3), ("b".to_string(), 2)]);
}

#[test]
fn snapshot_info_write_interval() {
    assert!(!info_write_due(119_999));
    assert!(info_write_due(120_000));
}

#[test]
fn stored_snapshots_in_order() {
    let mut info = SnapshotInfo::new();
    assert!(info.record_latest(1));
    assert!(info.record_latest(2));
    assert!(info.record_latest(1));
    assert_eq!(info.snapshot_keys(), vec![2, 1]);
    assert!(!info.record_latest(1));
    assert_eq!(info.snapshot_keys(), vec![2, 1]);
}

#[test]
fn retention_drops_oldest_beyond_limit() {
    let mut info = SnapshotInfo::new();
    for k in 1..=5u128 {
        info.record_latest(k);
    }
    assert_eq!(info.retain_snapshots(0), Vec::<u128>::new());
    assert_eq!(info.snapshot_keys(), vec![1, 2, 3, 4, 5]);
    assert_eq!(info.retain_snapshots(3), vec![1, 2]);
    assert_eq!(info.snapshot_keys(), vec![3, 4, 5]);
    assert_eq!(info.retain_snapshots(10), Vec::<u128>::new());
    assert_eq!(info.retain_snapshots(1), vec![3, 4]);
    assert_eq!(info.snapshot_keys(), vec![5]);
    assert_eq!(info.latest_key, Some(5));
}

#[test]
fn stale_snapshot_leaves_the_store() {
    let mut info = SnapshotInfo::new();
    let first = info.commit_client("a".to_string(), b"one").unwrap();
    let second = info.commit_client("a".to_string(), b"two").unwrap();
    assert_eq!(second.stale, Some(first.key));
    assert_eq!(info.snapshot_keys(), vec![second.key]);
}

#[test]
fn store_snapshot_keeps_newest_within_limit() {
    let mut info = SnapshotInfo::new();
    let (k1, new1, dropped1) = info.store_snapshot(b"one", 2).unwrap();
    assert!(new1);
    assert!(dropped1.is_empty());
    let (k2, _, _) = info.store_snapshot(b"two", 2).unwrap();
    let (k3, new3, dropped3) = info.store_snapshot(b"three", 2).unwrap();
    assert!(new3);
    assert_eq!(dropped3, vec![k1]);
    assert_eq!(info.snapshot_keys(), vec![k2, k3]);
    let (again, new_again, dropped_again) = info.store_snapshot(b"three", 2).unwrap();
    assert_eq!(again, k3);
    assert!(!new_again);
    assert!(dropped_again.is_empty());
}

#[test]
fn commit_client_snapshot_keeps_newest_within_limit() {
    let mut info = SnapshotInfo::new();
    info.store_snapshot(b"server", 1).unwrap();
    let (commit, dropped) = info.commit_client_snapshot("a".to_string(), b"device", 1).unwrap();
    assert!(commit.is_new);
    assert_eq!(dropped, vec![to_md5(b"server").unwrap()]);
    assert_eq!(info.snapshot_keys(), vec![commit.key]);
    assert_eq!(info.get_snapshot_key(&"a".to_string()), Some(commit.key));
}

#[test]
fn latest_snapshot_is_never_stale() {
    let mut info = SnapshotInfo::new();
    assert!(info.record_latest(1));
    assert_eq!(info.update_snapshot_key("a".to_string(), 1), None);
    assert_eq!(info.update_snapshot_key("a".to_string(), 2), None);
    assert_eq!(info.snapshot_keys(), vec![1]);
    assert_eq!(info.latest_key, Some(1));
}

#[test]
fn loaded_info_puts_latest_last() {
    let info = SnapshotInfo::from_entries(Some(7), vec![], vec![7, 1, 2]);
    assert_eq!(info.snapshot_keys(), vec![1, 2, 7]);
    let info = SnapshotInfo::from_entries(Some(7), vec![], vec![]);
    assert_eq!(info.snapshot_keys(), vec![7]);
    let info = SnapshotInfo::from_entries(None, vec![], vec![3]);
    assert_eq!(info.snapshot_keys(), vec![3]);
}

#[test]
fn store_snapshot_keeps_existing_latest() {
    let mut info = SnapshotInfo::new();
    let (k1, _, _) = info.store_snapshot(b"one", 0).unwrap();
    info.store_snapshot(b"two", 0).unwrap();
    info.store_snapshot(b"three", 0).unwrap();
    let (k3, is_new, dropped) = info.store_snapshot(b"three", 2).unwrap();
    assert!(!is_new);
    assert_eq!(dropped, vec![k1]);
    assert_eq!(info.snapshot_keys().len(), 2);
    assert_eq!(*info.snapshot_keys().last().unwrap(), k3);
}

//! Plain request and policy records of the storage and snapshot layers.
use rollout_coordinator::ids::RunId;
use rollout_coordinator::snapshot::{PrunePolicy, RetentionPolicy, SnapshotFilter};
use rollout_coordinator::storage::{KeyRange, StorageEvent, StorageKey};

fn key(ns: &str) -> StorageKey {
    StorageKey { namespace: ns.to_string(), run_id: None, path: vec!["a".to_string()] }
}

#[test]
fn snapshot_filter_default_restricts_nothing() {
    let f = SnapshotFilter::default();
    assert!(f.run_id.is_none() && f.kind.is_none() && f.label_contains.is_none() && f.limit.is_none());
}

#[test]
fn prune_policy_carries_default_retention() {
    let p = PrunePolicy { run_id: RunId(7), retention: RetentionPolicy::default() };
    assert_eq!(p.retention.keep_last, 3);
    assert!(p.retention.keep_labeled);
    assert!(p.retention.max_age.is_none());
}

#[test]
fn storage_records_compare_by_fields() {
    let r = KeyRange { prefix: key("work"), limit: Some(10) };
    assert_eq!(r.clone(), KeyRange { prefix: key("work"), limit: Some(10) });
    assert_ne!(StorageEvent::Put { key: key("work") }, StorageEvent::Delete { key: key("work") });
}

//! Worker registry and heartbeat ledger rows written by the coordinator.
use rollout_coordinator::ids::{RunId, WorkerId};
use rollout_coordinator::registry::{
    heartbeat_key, ms_parts, ms_to_systime, state_to_i32, worker_key, CoordinatorImpl, HeartbeatRecord,
};
use rollout_coordinator::clock::systime_ms;
use rollout_coordinator::storage::MemStorage;
use rollout_coordinator::worker::{Heartbeat, WorkerState};
use std::time::{Duration, UNIX_EPOCH};
use ulid::Ulid;

fn fresh_ids() -> (RunId, WorkerId) {
    (RunId(Ulid::new().0), WorkerId(Ulid::new().0))
}

fn beat(w: WorkerId, run: RunId, state: WorkerState, due: u128) -> Heartbeat {
    Heartbeat { worker_id: w, run_id: run, state, due_at_ms: due }
}

#[test]
fn register_persists_worker_to_storage() {
    let mut store = MemStorage::new();
    let (run_id, w1) = fresh_ids();
    let coord = CoordinatorImpl::new(run_id);
    let ev = coord.register(&mut store, w1, 1_234);
    assert_eq!(ev.topic, "worker_registered");
    let entry = store.workers.get(w1.0).expect("entry exists");
    assert_eq!(entry.worker_id, Ulid(w1.0).to_string());
    assert_eq!(entry.run_id, Ulid(run_id.0).to_string());
    assert_eq!(entry.registered_at_ms, 1_234);
}

#[test]
fn heartbeat_persists_to_storage() {
    let mut store = MemStorage::new();
    let (run_id, w1) = fresh_ids();
    let coord = CoordinatorImpl::new(run_id);
    coord.register(&mut store, w1, 10);
    let evs = coord.heartbeat(&mut store, beat(w1, run_id, WorkerState::Ready, 5_000), 4_000);
    assert_eq!(evs.len(), 1);
    assert_eq!(evs[0].topic, "worker_heartbeat");
    let rec: &HeartbeatRecord = store.heartbeats.get(w1.0).expect("heartbeat entry exists");
    assert_eq!(rec.worker_id, Ulid(w1.0).to_string());
    assert_eq!(rec.state, 2);
    assert_eq!(rec.due_at_ms, 5_000);
    assert_eq!(rec.received_at_ms, 4_000);
}

#[test]
fn deregister_removes_from_storage() {
    let mut store = MemStorage::new();
    let (run_id, w1) = fresh_ids();
    let coord = CoordinatorImpl::new(run_id);
    coord.register(&mut store, w1, 10);
    coord.heartbeat(&mut store, beat(w1, run_id, WorkerState::Ready, 20), 15);
    let ev = coord.deregister(&mut store, w1);
    assert_eq!(ev.topic, "worker_deregistered");
    assert!(store.workers.get(w1.0).is_none());
    assert!(store.heartbeats.get(w1.0).is_none());
}

#[test]
fn heartbeat_updates_existing_ledger_entry() {
    let mut store = MemStorage::new();
    let (run_id, w1) = fresh_ids();
    let coord = CoordinatorImpl::new(run_id);
    coord.register(&mut store, w1, 10);
    coord.heartbeat(&mut store, beat(w1, run_id, WorkerState::Ready, 1_000), 100);
    coord.heartbeat(&mut store, beat(w1, run_id, WorkerState::Running, 5_000), 200);
    let rec = store.heartbeats.get(w1.0).unwrap();
    assert_eq!(rec.due_at_ms, 5_000, "latest beat overwrites prior");
    assert_eq!(rec.state, 3);
}

#[test]
fn heartbeat_auto_registers_unknown_worker() {
    let mut store = MemStorage::new();
    let (run_id, w1) = fresh_ids();
    let coord = CoordinatorImpl::new(run_id);
    let evs = coord.heartbeat(&mut store, beat(w1, run_id, WorkerState::Init, 1_000), 7);
    assert!(store.workers.get(w1.0).is_some(), "first heartbeat auto-registers worker");
    assert_eq!(store.workers.get(w1.0).unwrap().registered_at_ms, 7);
    assert_eq!(evs.len(), 2);
    assert_eq!(evs[0].topic, "worker_registered");
    assert_eq!(evs[1].topic, "worker_heartbeat");
}

#[test]
fn worker_state_codes() {
    assert_eq!(state_to_i32(WorkerState::Init), 1);
    assert_eq!(state_to_i32(WorkerState::Ready), 2);
    assert_eq!(state_to_i32(WorkerState::Running), 3);
    assert_eq!(state_to_i32(WorkerState::Draining), 4);
}

#[test]
fn registry_keys_are_worker_scoped() {
    let w = WorkerId(Ulid::from_string("01ARZ3NDEKTSV4RRFFQ69G5FAV").unwrap().0);
    let k = worker_key(&w);
    assert_eq!(k.namespace, "workers");
    assert!(k.run_id.is_none());
    assert_eq!(k.path, vec!["01ARZ3NDEKTSV4RRFFQ69G5FAV".to_string()]);
    let h = heartbeat_key(&w);
    assert_eq!(h.namespace, "heartbeats");
    assert_eq!(h.path, vec!["01ARZ3NDEKTSV4RRFFQ69G5FAV".to_string()]);
}

#[test]
fn ms_parts_splits_seconds_and_nanos() {
    assert_eq!(ms_parts(1_234), (1, 234_000_000));
    assert_eq!(ms_parts(0), (0, 0));
}

#[test]
fn ms_to_systime_is_epoch_plus_millis() {
    assert_eq!(ms_to_systime(1_234), UNIX_EPOCH + Duration::from_millis(1_234));
    assert_eq!(ms_to_systime(0), UNIX_EPOCH);
}

#[test]
fn ms_to_systime_round_trips_through_unix_millis() {
    for ms in [0u128, 1, 999, 1_000, 1_234, 1_700_000_000_123] {
        assert_eq!(systime_ms(ms_to_systime(ms)), ms);
    }
    assert_eq!(systime_ms(UNIX_EPOCH - Duration::from_secs(5)), 0);
    assert_eq!(systime_ms(UNIX_EPOCH + Duration::from_micros(2_500)), 2);
}

//! Deadline-based health scan of the heartbeat ledger.
use rollout_coordinator::failure_scan::{is_failed, scan_once};
use rollout_coordinator::ids::{RunId, WorkerId};
use rollout_coordinator::observability::{EventAttrs, Level};
use rollout_coordinator::registry::HeartbeatRecord;
use rollout_coordinator::storage::MemStorage;
use ulid::Ulid;

const NOW: u128 = 1_700_000_000_000;
const SKEW: u128 = 250;
const TIMEOUT: u128 = 5_000;

fn write_heartbeat(store: &mut MemStorage, w: WorkerId, due_ms: u128) {
    let rec = HeartbeatRecord {
        worker_id: Ulid(w.0).to_string(),
        run_id: Ulid::new().to_string(),
        state: 2,
        due_at_ms: due_ms,
        received_at_ms: 0,
    };
    store.heartbeats.insert(w.0, rec);
}

#[test]
fn failure_scan_marks_late_workers() {
    let mut store = MemStorage::new();
    let w1 = WorkerId(Ulid::new().0);
    write_heartbeat(&mut store, w1, NOW - 10_000);
    let mut seen = Vec::new();
    let evs = scan_once(&store, SKEW, TIMEOUT, NOW, &mut seen);
    assert_eq!(evs.len(), 1);
    assert_eq!(evs[0].topic, "worker_failed");
    assert_eq!(evs[0].level, Level::Warn);
    assert_eq!(evs[0].worker_id, Some(w1));
    assert_eq!(evs[0].attrs, EventAttrs::DueAt(NOW - 10_000));
    assert_eq!(seen, vec![Ulid(w1.0).to_string()]);
}

#[test]
fn failure_scan_does_not_mark_healthy_workers() {
    let mut store = MemStorage::new();
    write_heartbeat(&mut store, WorkerId(Ulid::new().0), NOW + 10_000);
    let mut seen = Vec::new();
    assert!(scan_once(&store, SKEW, TIMEOUT, NOW, &mut seen).is_empty());
    assert!(seen.is_empty());
}

#[test]
fn failure_scan_respects_skew_budget() {
    let mut store = MemStorage::new();
    write_heartbeat(&mut store, WorkerId(Ulid::new().0), NOW - 50);
    let mut seen = Vec::new();
    assert!(scan_once(&store, SKEW, TIMEOUT, NOW, &mut seen).is_empty());
}

#[test]
fn failure_scan_loop_runs_periodically() {
    // Repeated scans report an overdue worker exactly once.
    let mut store = MemStorage::new();
    let w1 = WorkerId(Ulid::new().0);
    write_heartbeat(&mut store, w1, NOW - 10_000);
    let mut seen = Vec::new();
    let mut total = 0;
    for tick in 0..3u128 {
        total += scan_once(&store, SKEW, TIMEOUT, NOW + tick * 50, &mut seen).len();
    }
    assert_eq!(total, 1, "worker_failed emitted exactly once across scans");
}

#[test]
fn failure_boundary_is_strict() {
    let due = NOW;
    assert!(!is_failed(due + SKEW + TIMEOUT, due, SKEW, TIMEOUT));
    assert!(is_failed(due + SKEW + TIMEOUT + 1, due, SKEW, TIMEOUT));
    assert!(!is_failed(due - 1, due, SKEW, TIMEOUT));
}

#[test]
fn scan_reports_in_worker_order_and_decodes_ids() {
    let mut store = MemStorage::new();
    let a = WorkerId(5);
    let b = WorkerId(9);
    write_heartbeat(&mut store, b, NOW - 60_000);
    write_heartbeat(&mut store, a, NOW - 60_000);
    let mut seen = Vec::new();
    let evs = scan_once(&store, SKEW, TIMEOUT, NOW, &mut seen);
    assert_eq!(evs.len(), 2);
    assert_eq!(evs[0].worker_id, Some(a));
    assert_eq!(evs[1].worker_id, Some(b));
    assert!(evs[0].run_id.is_some());
    let _ = RunId(0);
}

#[test]
fn successive_scans_report_each_worker_once_as_time_passes() {
    let mut store = MemStorage::new();
    let early = WorkerId(Ulid::new().0);
    let late = WorkerId(Ulid::new().0);
    write_heartbeat(&mut store, early, NOW - 10_000);
    write_heartbeat(&mut store, late, NOW);
    let mut seen = Vec::new();
    let mut reported = Vec::new();
    for step in 0..6u128 {
        let at = NOW + step * 2_000;
        for e in scan_once(&store, SKEW, TIMEOUT, at, &mut seen) {
            reported.push(e.worker_id.unwrap());
        }
    }
    // `early` is overdue from the first scan; `late` once its deadline has
    // passed by more than skew + timeout (at NOW + 6_000).
    assert_eq!(reported, vec![early, late]);
    assert_eq!(seen, vec![Ulid(early.0).to_string(), Ulid(late.0).to_string()]);
}

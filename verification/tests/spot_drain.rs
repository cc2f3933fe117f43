//! Spot-preemption drain plan and the provider drain numbers.
use rollout_coordinator::cloud::QueueItemId;
use rollout_coordinator::drain::{drain, drain_next, drain_overrun_error, DrainAction, DrainConfig, DrainNext, SnapshotPlan};
use rollout_coordinator::errors::{CoreError, FatalError};
use rollout_coordinator::ids::RunId;
use rollout_coordinator::snapshot::SnapshotKind;

fn ids(n: usize) -> Vec<QueueItemId> {
    (0..n).map(|i| QueueItemId(i as u128 + 1)).collect()
}

fn plan(has: bool, budget: u64, cost: u64) -> SnapshotPlan {
    SnapshotPlan {
        has_snapshotter: has,
        remaining_budget_ms: budget,
        snapshot_cost_ms: cost,
        run_id: RunId(7),
        algorithm_id: "ppo".into(),
    }
}

#[test]
fn aws_and_gcp_use_two_numbers() {
    let aws = DrainConfig::aws();
    assert_eq!(aws.notice_lead_ms, 120 * 1000);
    assert_eq!(aws.drain_deadline_ms, 60 * 1000);
    let gcp = DrainConfig::gcp();
    assert_eq!(gcp.notice_lead_ms, 30 * 1000);
    assert_eq!(gcp.drain_deadline_ms, 15 * 1000);
    assert!(aws.drain_deadline_ms < aws.notice_lead_ms);
    assert!(gcp.drain_deadline_ms < gcp.notice_lead_ms);
}

#[test]
fn drain_uses_two_numbers() {
    let aws = DrainConfig::aws();
    let gcp = DrainConfig::gcp();
    assert_ne!(aws, gcp, "AWS and GCP use distinct drain numbers");
}

#[test]
fn spot_drain_completes_within_lead_time() {
    let in_flight = ids(3);
    let p = drain(&in_flight, &plan(true, 10_000, 100));
    assert_eq!(p.first(), Some(&DrainAction::StopPull), "stop-pull set first");
    assert_eq!(p.last(), Some(&DrainAction::Deregister), "deregistered last");
    let saves = p.iter().filter(|a| matches!(a, DrainAction::SaveSnapshot { .. })).count();
    assert_eq!(saves, 1, "one snapshot saved");
    match &p[4] {
        DrainAction::SaveSnapshot { run_id, algorithm_id, kind, label } => {
            assert_eq!(*run_id, RunId(7));
            assert_eq!(algorithm_id, "ppo");
            assert_eq!(*kind, SnapshotKind::TrainState);
            assert_eq!(label, "spot-drain");
        },
        other => panic!("expected snapshot, got {other:?}"),
    }
}

#[test]
fn drain_requeues_in_flight() {
    let in_flight = ids(4);
    let p = drain(&in_flight, &plan(false, 0, 0));
    assert_eq!(p.len(), 6);
    for (i, id) in in_flight.iter().enumerate() {
        assert_eq!(p[i + 1], DrainAction::Nack(*id), "in-flight id {id:?} was nacked");
    }
}

#[test]
fn drain_snapshot_skipped_when_budget_low() {
    let p = drain(&ids(2), &plan(true, 50, 100));
    assert!(!p.iter().any(|a| matches!(a, DrainAction::SaveSnapshot { .. })), "no snapshot on a low budget");
    assert_eq!(p.len(), 4);
    let q = drain(&ids(0), &plan(true, 100, 100));
    assert_eq!(q.len(), 3, "budget equal to the cost still snapshots");
}

#[test]
fn overrun_error_names_both_numbers() {
    match drain_overrun_error(&DrainConfig::aws()) {
        CoreError::Fatal(FatalError::Internal { msg }) => {
            assert_eq!(msg, "spot drain exceeded drain_deadline 60s (notice lead was 120s)");
        },
        other => panic!("unexpected {other:?}"),
    }
}

/// Drive the drain executor: the signal query answers `signal`, plan step
/// `k` answers `steps[k]` (its outcome and the elapsed window after it).
/// Returns the steps performed and the drain's result.
fn run_drain(
    plan_len: usize,
    signal: Result<(), CoreError>,
    mut steps: Vec<(Result<(), CoreError>, u64)>,
    cfg: &DrainConfig,
) -> (Vec<usize>, Result<(), CoreError>) {
    let mut performed = Vec::new();
    let mut done = 0usize;
    let mut last: Result<(), CoreError> = Ok(());
    let mut elapsed = 0u64;
    let mut signal = Some(signal);
    loop {
        match drain_next(plan_len, done, last, elapsed, cfg) {
            DrainNext::QuerySignal => {
                last = signal.take().unwrap();
                done += 1;
            },
            DrainNext::Perform(k) => {
                performed.push(k);
                let (r, t) = steps.remove(0);
                last = r;
                elapsed = t;
                done += 1;
            },
            DrainNext::Finished => return (performed, Ok(())),
            DrainNext::Abort(e) => return (performed, Err(e)),
        }
    }
}

fn ok_steps(n: usize, at: u64) -> Vec<(Result<(), CoreError>, u64)> {
    (0..n).map(|_| (Ok(()), at)).collect()
}

#[test]
fn drain_executor_runs_every_step_in_order() {
    let cfg = DrainConfig::gcp();
    let (performed, r) = run_drain(5, Ok(()), ok_steps(5, 1_000), &cfg);
    assert_eq!(performed, vec![0, 1, 2, 3, 4]);
    assert!(r.is_ok());
}

#[test]
fn drain_executor_stops_at_first_failing_step() {
    let cfg = DrainConfig::aws();
    let mut steps = ok_steps(5, 10);
    steps[1] = (Err(CoreError::Fatal(FatalError::Internal { msg: "nack failed".into() })), 10);
    let (performed, r) = run_drain(5, Ok(()), steps, &cfg);
    assert_eq!(performed, vec![0, 1], "no step after the failed nack, deregister included");
    match r {
        Err(CoreError::Fatal(FatalError::Internal { msg })) => assert_eq!(msg, "nack failed"),
        other => panic!("unexpected {other:?}"),
    }
}

#[test]
fn drain_executor_signal_error_stops_before_any_step() {
    let cfg = DrainConfig::aws();
    let (performed, r) =
        run_drain(3, Err(CoreError::Fatal(FatalError::Internal { msg: "imds".into() })), ok_steps(3, 0), &cfg);
    assert!(performed.is_empty());
    assert!(r.is_err());
}

#[test]
fn drain_executor_overrun_is_fatal_internal() {
    let cfg = DrainConfig::gcp();
    let mut steps = ok_steps(4, 100);
    steps[2] = (Ok(()), 15_001);
    let (performed, r) = run_drain(4, Ok(()), steps, &cfg);
    assert_eq!(performed, vec![0, 1, 2]);
    match r {
        Err(CoreError::Fatal(FatalError::Internal { msg })) => {
            assert_eq!(msg, "spot drain exceeded drain_deadline 15s (notice lead was 30s)");
        },
        other => panic!("unexpected {other:?}"),
    }
    let (_, at_deadline) = run_drain(1, Ok(()), ok_steps(1, 15_000), &cfg);
    assert!(at_deadline.is_ok(), "finishing exactly at the deadline is within it");
}

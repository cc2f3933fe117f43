//! Coordinator lease exclusion, epoch fencing, and stateless replay boot.
use rollout_coordinator::epoch::current_epoch;
use rollout_coordinator::fence::{fence_old_coordinator, FenceDecision};
use rollout_coordinator::ids::{ContentId, RunId, WorkerId};
use rollout_coordinator::lease::{CoordEpoch, StorageLease};
use rollout_coordinator::observability::{EventAttrs, Level};
use rollout_coordinator::run::{lease_renew_tick, replay_and_serve, RenewOutcome};
use rollout_coordinator::storage::MemStorage;
use rollout_coordinator::work_item::{try_claim, try_complete, WorkItemRecord, WorkState};
use ulid::Ulid;

const T0: u128 = 1_000_000;
const TTL: u128 = 50;

fn wid() -> WorkerId {
    WorkerId(Ulid::new().0)
}

#[test]
fn lease_exclusion_single_winner() {
    let mut store = MemStorage::new();
    let lease = StorageLease::new(RunId(Ulid::new().0));
    let (a, b) = (wid(), wid());
    let got_a = lease.try_acquire(&mut store, a, 5_000, T0);
    let got_b = lease.try_acquire(&mut store, b, 5_000, T0);
    assert!(got_a.is_some(), "first acquire wins");
    assert!(got_b.is_none(), "second acquire against live lease loses");
    let cur = lease.current(&store).unwrap();
    assert_eq!(cur.holder, a, "current() shows exactly one holder");
    assert_eq!(cur.epoch.0, 0);
}

#[test]
fn steal_advances_epoch() {
    let mut store = MemStorage::new();
    let lease = StorageLease::new(RunId(Ulid::new().0));
    let (a, b) = (wid(), wid());
    let held_a = lease.try_acquire(&mut store, a, TTL, T0).expect("A wins");
    assert_eq!(held_a.epoch.0, 0);
    assert!(lease.try_acquire(&mut store, b, TTL, T0 + TTL).is_none(), "still live at its expiry instant");
    let held_b = lease.try_acquire(&mut store, b, TTL, T0 + 100).expect("B steals");
    assert_eq!(held_b.epoch.0, 1, "steal advances epoch monotonically");
    assert_eq!(held_b.holder, b);
    assert_eq!(held_b.expires_at_ms, T0 + 100 + TTL);
}

#[test]
fn renew_keeps_epoch() {
    let mut store = MemStorage::new();
    let lease = StorageLease::new(RunId(Ulid::new().0));
    let a = wid();
    let held = lease.try_acquire(&mut store, a, TTL, T0).expect("A wins");
    assert!(lease.renew(&mut store, &held, TTL, T0 + 10), "incumbent renew succeeds");
    let cur = lease.current(&store).unwrap();
    assert_eq!(cur.epoch.0, held.epoch.0, "renew keeps epoch constant");
    assert_eq!(cur.holder, a);
    assert_eq!(cur.expires_at_ms, T0 + 10 + TTL);
}

#[test]
fn renew_after_steal_fails() {
    let mut store = MemStorage::new();
    let lease = StorageLease::new(RunId(Ulid::new().0));
    let (a, b) = (wid(), wid());
    let held_a = lease.try_acquire(&mut store, a, TTL, T0).expect("A wins");
    let _held_b = lease.try_acquire(&mut store, b, TTL, T0 + 100).expect("B steals");
    assert!(!lease.renew(&mut store, &held_a, TTL, T0 + 101), "old holder cannot renew after epoch advanced");
    let cur = lease.current(&store).unwrap();
    assert_eq!(cur.holder, b, "B still holds; A wrote nothing");
    assert_eq!(cur.epoch.0, 1);
}

#[test]
fn split_brain_old_coord_self_fences() {
    let mut store = MemStorage::new();
    let run = RunId(Ulid::new().0);
    let lease = StorageLease::new(run);
    let coord_a = wid();
    let held_a = lease.try_acquire(&mut store, coord_a, TTL, T0).expect("A wins");
    assert_eq!(held_a.epoch.0, 0);
    let coord_b = wid();
    let held_b = lease.try_acquire(&mut store, coord_b, TTL, T0 + 100).expect("B steals");
    assert_eq!(held_b.epoch.0, 1, "steal MUST advance epoch monotonically");
    assert!(!lease.renew(&mut store, &held_a, TTL, T0 + 100), "old coordinator must NOT renew after epoch advance");
    let (event, decision) = fence_old_coordinator(coord_a, run, held_a.epoch, held_b.epoch);
    assert_eq!(decision, FenceDecision::Abort, "fenced coord must abort");
    assert_eq!(event.topic, "coordinator_fenced");
    assert_eq!(event.level, Level::Error);
    assert_eq!(event.message.as_deref(), Some("coordinator fenced: stale_epoch=0 < observed_epoch=1"));
    assert_eq!(event.attrs, EventAttrs::Fence { stale: CoordEpoch(0), observed: CoordEpoch(1) });
    let cur = lease.current(&store).unwrap();
    assert_eq!(cur.holder, coord_b, "B still holds; A wrote nothing");
    assert_eq!(cur.epoch.0, 1);
}

#[test]
fn renew_tick_decides_renew_or_fence() {
    let mut store = MemStorage::new();
    let run = RunId(Ulid::new().0);
    let (a, b) = (wid(), wid());
    assert_eq!(lease_renew_tick(&mut store, run, a, CoordEpoch(0), TTL, T0), RenewOutcome::NoLease);
    let lease = StorageLease::new(run);
    lease.try_acquire(&mut store, a, TTL, T0).unwrap();
    assert_eq!(lease_renew_tick(&mut store, run, a, CoordEpoch(0), TTL, T0 + 10), RenewOutcome::Renewed);
    lease.try_acquire(&mut store, b, TTL, T0 + 200).unwrap();
    assert_eq!(
        lease_renew_tick(&mut store, run, a, CoordEpoch(0), TTL, T0 + 201),
        RenewOutcome::Fenced { stale: CoordEpoch(0), observed: CoordEpoch(1) }
    );
}

fn running(id: ContentId, w: WorkerId) -> WorkItemRecord {
    WorkItemRecord { id, state: WorkState::Running { worker_id: w, started_at_ms: 100 } }
}

#[test]
fn replay_reconstructs_in_flight() {
    let mut store = MemStorage::new();
    let run = RunId(Ulid::new().0);
    let w1 = wid();
    let (x, y, z) = (ContentId::of(b"X"), ContentId::of(b"Y"), ContentId::of(b"Z"));
    store.work.put(run, running(x, w1));
    store.work.put(run, WorkItemRecord { id: y, state: WorkState::Pending });
    store.work.put(run, WorkItemRecord { id: z, state: WorkState::Done { result_id: ContentId::of(b"resZ") } });
    let state = replay_and_serve(&mut store, run, wid(), 5_000, T0).expect("fresh coordinator wins the lease");
    assert_eq!(state.in_flight_owner(&x), Some(w1), "Running item reconstructed as in-flight under its owning worker");
    assert_eq!(state.pending, vec![y], "Pending item collected for dispatch");
    assert_eq!(state.terminal, 1, "Done item skipped as terminal");
    assert_eq!(store.work.get(run, &x).unwrap().state, running(x, w1).state, "the replayer must not requeue");
}

#[test]
fn replayer_adopts_advanced_epoch() {
    let mut store = MemStorage::new();
    let run = RunId(Ulid::new().0);
    let lease = StorageLease::new(run);
    let held_a = lease.try_acquire(&mut store, wid(), 20, T0).expect("A wins");
    assert_eq!(held_a.epoch.0, 0);
    let held_b = lease.try_acquire(&mut store, wid(), 20, T0 + 40).expect("B steals");
    assert_eq!(held_b.epoch.0, 1, "steal advanced epoch to 1");
    let state = replay_and_serve(&mut store, run, wid(), 20, T0 + 80).expect("fresh coordinator steals the expired lease");
    assert_eq!(state.epoch.0, 2, "fresh coordinator adopts (and advances) the epoch on a stolen lease");
    assert_eq!(current_epoch(&store, run).0, 2, "epoch row stamped by the winning lease");
}

#[test]
fn replay_loser_exits_cleanly() {
    let mut store = MemStorage::new();
    let run = RunId(Ulid::new().0);
    StorageLease::new(run).try_acquire(&mut store, wid(), 5_000, T0).unwrap();
    assert!(replay_and_serve(&mut store, run, wid(), 5_000, T0 + 1).is_none());
    assert_eq!(current_epoch(&store, RunId(run.0 + 1)).0, 0, "a run without a lease is at epoch 0");
}

#[test]
fn coord_restart_no_duplicates() {
    let mut store = MemStorage::new();
    let run = RunId(Ulid::new().0);
    let n = 12usize;
    let ids: Vec<ContentId> = (0..n).map(|k| ContentId::of(format!("item-{k}").as_bytes())).collect();
    for id in &ids {
        store.work.put(run, WorkItemRecord { id: *id, state: WorkState::Pending });
    }
    let state_a = replay_and_serve(&mut store, run, wid(), 5_000, T0).expect("A wins");
    assert_eq!(state_a.pending.len(), n, "all N pending on first boot");
    let workers: Vec<WorkerId> = (0..3).map(|_| wid()).collect();
    for (k, id) in ids.iter().enumerate() {
        let rec = WorkItemRecord { id: *id, state: WorkState::Pending };
        assert!(try_claim(&mut store, &run, &rec, workers[k % 3], 100), "claim wins");
    }
    let mut buffered = Vec::new();
    for (k, id) in ids.iter().enumerate() {
        let rec = running(*id, workers[k % 3]);
        let result = ContentId::of(format!("res-{k}").as_bytes());
        if k < n / 2 {
            assert!(try_complete(&mut store, &run, &rec, result), "ack wins for the first half");
        } else {
            buffered.push((rec, result));
        }
    }
    // a fresh coordinator boots over the same store after A's lease expired
    let state_b = replay_and_serve(&mut store, run, wid(), 5_000, T0 + 10_000).expect("B wins");
    assert_eq!(state_b.in_flight.len(), n - n / 2);
    assert_eq!(state_b.terminal, n / 2);
    for (rec, result) in &buffered {
        assert!(try_complete(&mut store, &run, rec, *result), "first replay of a buffered ack applies");
    }
    let (first_rec, first_res) = &buffered[0];
    assert!(!try_complete(&mut store, &run, first_rec, *first_res), "replayed ack is idempotent");
    let rows = store.work.scan(run);
    assert_eq!(rows.len(), n);
    assert!(rows.iter().all(|r| matches!(r.state, WorkState::Done { .. })));
}

#[test]
fn fence_writes_no_shared_state() {
    let mut store = MemStorage::new();
    let run = RunId(Ulid::new().0);
    let lease = StorageLease::new(run);
    let coord = wid();
    let held = lease.try_acquire(&mut store, coord, 5_000, T0).expect("acquire");
    let before = lease.current(&store);
    let _ = fence_old_coordinator(coord, run, held.epoch, held.epoch);
    assert_eq!(lease.current(&store), before, "fence is observability-only; no shared-state write");
}

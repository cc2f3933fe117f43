//! The CAS state machine of work items, dispatch queue, backlog, steal,
//! and the mock-backend run.
use rollout_coordinator::ids::{ContentId, RunId, WorkerId};
use rollout_coordinator::ledger::{backlog, busiest, dispatch, enqueue, next_pending};
use rollout_coordinator::mock_run::mock_run;
use rollout_coordinator::observability::EventAttrs;
use rollout_coordinator::steal::{handle_steal_request, MAX_STEAL_BATCH};
use rollout_coordinator::storage::MemStorage;
use rollout_coordinator::work_item::{try_claim, try_complete, try_repending, work_key, WorkItemRecord, WorkState};
use ulid::Ulid;

fn ids() -> (RunId, WorkerId, WorkerId) {
    (RunId(Ulid::new().0), WorkerId(Ulid::new().0), WorkerId(Ulid::new().0))
}

fn pending(id: ContentId) -> WorkItemRecord {
    WorkItemRecord { id, state: WorkState::Pending }
}

fn running(id: ContentId, w: WorkerId, at: u128) -> WorkItemRecord {
    WorkItemRecord { id, state: WorkState::Running { worker_id: w, started_at_ms: at } }
}

fn seed_running(store: &mut MemStorage, run: RunId, w: WorkerId, n: usize, tag: &str) {
    for k in 0..n {
        let id = ContentId::of(format!("{tag}-{k}").as_bytes());
        store.work.put(run, running(id, w, 1));
    }
}

fn state_of(store: &MemStorage, run: RunId, id: &ContentId) -> WorkState {
    store.work.get(run, id).expect("row exists").state
}

#[test]
fn pending_to_running_to_done_round_trip() {
    let mut store = MemStorage::new();
    let (run_id, worker_id, _) = ids();
    let id = ContentId::of(b"work-1");
    let rec = pending(id);
    store.work.put(run_id, rec.clone());
    assert!(try_claim(&mut store, &run_id, &rec, worker_id, 1_000));
    let result_id = ContentId::of(b"result-1");
    assert!(try_complete(&mut store, &run_id, &running(id, worker_id, 1_000), result_id));
    assert_eq!(state_of(&store, run_id, &id), WorkState::Done { result_id });
}

#[test]
fn second_claim_loses() {
    let mut store = MemStorage::new();
    let (run_id, w1, w2) = ids();
    let id = ContentId::of(b"work-2");
    let rec = pending(id);
    store.work.put(run_id, rec.clone());
    let first = try_claim(&mut store, &run_id, &rec, w1, 1_000);
    let second = try_claim(&mut store, &run_id, &rec, w2, 1_500);
    assert!(first && !second, "exactly one claim must win (single-winner)");
    assert_eq!(state_of(&store, run_id, &id), WorkState::Running { worker_id: w1, started_at_ms: 1_000 });
}

#[test]
fn repending_done_is_noop() {
    let mut store = MemStorage::new();
    let (run_id, _, _) = ids();
    let id = ContentId::of(b"work-3");
    let result_id = ContentId::of(b"result-3");
    let done = WorkItemRecord { id, state: WorkState::Done { result_id } };
    store.work.put(run_id, done.clone());
    assert!(!try_repending(&mut store, &run_id, &done), "try_repending on a Done record must return false");
    assert_eq!(state_of(&store, run_id, &id), WorkState::Done { result_id }, "state unchanged");
}

#[test]
fn concurrent_ack_and_steal_no_double_execute() {
    // Either order of {ack, re-pend} on the same Running record: exactly one wins.
    for ack_first in [true, false] {
        let mut store = MemStorage::new();
        let (run_id, victim, _) = ids();
        let id = ContentId::of(b"X");
        let rec = running(id, victim, 5);
        store.work.put(run_id, rec.clone());
        let result_id = ContentId::of(b"result");
        let (ack_won, steal_won) = if ack_first {
            let a = try_complete(&mut store, &run_id, &rec, result_id);
            (a, try_repending(&mut store, &run_id, &rec))
        } else {
            let s = try_repending(&mut store, &run_id, &rec);
            (try_complete(&mut store, &run_id, &rec, result_id), s)
        };
        assert_eq!(usize::from(ack_won) + usize::from(steal_won), 1);
        let st = state_of(&store, run_id, &id);
        if ack_won {
            assert_eq!(st, WorkState::Done { result_id });
        } else {
            assert_eq!(st, WorkState::Pending);
        }
    }
}

#[test]
fn final_state_consistent() {
    let mut store = MemStorage::new();
    let (run_id, victim, _) = ids();
    let id = ContentId::of(b"single");
    let rec = running(id, victim, 1);
    store.work.put(run_id, rec.clone());
    let a = try_complete(&mut store, &run_id, &rec, ContentId::of(b"r"));
    let b = try_repending(&mut store, &run_id, &rec);
    assert_eq!(usize::from(a) + usize::from(b), 1);
    let rows = store.work.scan(run_id);
    assert_eq!(rows.len(), 1, "exactly one ledger row for X");
    assert!(matches!(rows[0].state, WorkState::Done { .. } | WorkState::Pending));
}

#[test]
fn replayed_ack_applies_once() {
    let mut store = MemStorage::new();
    let (run_id, w, _) = ids();
    let id = ContentId::of(b"acked");
    let rec = running(id, w, 100);
    store.work.put(run_id, rec.clone());
    assert!(try_complete(&mut store, &run_id, &rec, ContentId::of(b"r1")));
    assert!(!try_complete(&mut store, &run_id, &rec, ContentId::of(b"r2")), "replayed ack is a no-op");
    assert_eq!(state_of(&store, run_id, &id), WorkState::Done { result_id: ContentId::of(b"r1") });
}

#[test]
fn queue_items_fifo_ulid_order() {
    let mut store = MemStorage::new();
    let (run_id, worker, _) = ids();
    for p in [b"alpha".to_vec(), b"bravo".to_vec(), b"charlie".to_vec()] {
        enqueue(&mut store, &run_id, p);
    }
    let mut dispatched = Vec::new();
    for _ in 0..3 {
        dispatched.push(dispatch(&mut store, &run_id, worker, 10).unwrap());
    }
    let expected = [ContentId::of(b"alpha"), ContentId::of(b"bravo"), ContentId::of(b"charlie")];
    assert_eq!(dispatched, expected, "dispatch must preserve enqueue order");
    assert!(dispatch(&mut store, &run_id, worker, 11).is_none(), "an empty queue dispatches nothing");
}

#[test]
fn queues_of_runs_are_separate() {
    let mut store = MemStorage::new();
    let (run_a, w, _) = ids();
    let run_b = RunId(run_a.0 + 1);
    enqueue(&mut store, &run_a, b"a1".to_vec());
    enqueue(&mut store, &run_b, b"b1".to_vec());
    enqueue(&mut store, &run_a, b"a2".to_vec());
    assert_eq!(next_pending(&store, &run_b).unwrap().0, ContentId::of(b"b1"));
    assert_eq!(dispatch(&mut store, &run_a, w, 1), Some(ContentId::of(b"a1")));
    assert_eq!(dispatch(&mut store, &run_a, w, 1), Some(ContentId::of(b"a2")));
    assert_eq!(next_pending(&store, &run_b).unwrap().1, b"b1".to_vec());
}

#[test]
fn backlog_count_by_worker() {
    let mut store = MemStorage::new();
    let (run_id, a, b) = ids();
    store.work.put(run_id, running(ContentId::of(b"x1"), a, 1));
    store.work.put(run_id, running(ContentId::of(b"x2"), a, 1));
    store.work.put(run_id, running(ContentId::of(b"y1"), b, 1));
    assert_eq!(backlog(&store, &run_id, a), 2);
    assert_eq!(backlog(&store, &run_id, b), 1);
    let other = WorkerId(Ulid::new().0);
    assert_eq!(busiest(&store, &run_id, other), Some((a, 2)));
    assert_eq!(busiest(&store, &run_id, a), Some((b, 1)));
    assert_eq!(busiest(&store, &run_id, b).map(|x| x.0), Some(a));
    let empty = MemStorage::new();
    assert_eq!(busiest(&empty, &run_id, other), None);
}

#[test]
fn busiest_breaks_ties_towards_larger_worker_id() {
    let mut store = MemStorage::new();
    let run_id = RunId(1);
    let small = WorkerId(10);
    let large = WorkerId(20);
    store.work.put(run_id, running(ContentId::of(b"s"), small, 1));
    store.work.put(run_id, running(ContentId::of(b"l"), large, 1));
    assert_eq!(busiest(&store, &run_id, WorkerId(0)), Some((large, 1)));
}

#[test]
fn dispatch_claims_pending() {
    let mut store = MemStorage::new();
    let (run_id, worker, _) = ids();
    enqueue(&mut store, &run_id, b"payload".to_vec());
    let work_id = dispatch(&mut store, &run_id, worker, 42).expect("dispatched a work id");
    assert_eq!(work_id, ContentId::of(b"payload"));
    assert!(matches!(state_of(&store, run_id, &work_id), WorkState::Running { worker_id, started_at_ms: 42 } if worker_id == worker));
    assert!(next_pending(&store, &run_id).is_none(), "queue entry must be deleted after a winning claim");
    let k = work_key(&run_id, &work_id);
    assert_eq!(k.namespace, "work");
    assert_eq!(k.path, vec!["item".to_string(), work_id.to_hex()]);
}

#[test]
fn steal_takes_ceil_half_capped() {
    let mut store = MemStorage::new();
    let (run_id, victim, thief) = ids();
    seed_running(&mut store, run_id, victim, 7, "v");
    let stolen = handle_steal_request(&mut store, &run_id, thief, 10);
    assert_eq!(stolen.len(), 4, "ceil(7/2) = 4 items stolen");
    assert_eq!(backlog(&store, &run_id, thief), 4);
    assert_eq!(backlog(&store, &run_id, victim), 3);

    let mut store2 = MemStorage::new();
    let (run2, victim2, thief2) = ids();
    seed_running(&mut store2, run2, victim2, 100, "w");
    let stolen2 = handle_steal_request(&mut store2, &run2, thief2, 10);
    assert_eq!(stolen2.len(), MAX_STEAL_BATCH, "capped at MAX_STEAL_BATCH");
}

#[test]
fn steal_only_when_local_empty() {
    let mut store = MemStorage::new();
    let (run_id, victim, thief) = ids();
    seed_running(&mut store, run_id, victim, 6, "v");
    seed_running(&mut store, run_id, thief, 1, "t");
    let stolen = handle_steal_request(&mut store, &run_id, thief, 10);
    assert!(stolen.is_empty(), "a non-idle thief steals nothing");
    assert_eq!(backlog(&store, &run_id, victim), 6);
}

#[test]
fn steal_reassigns_via_cas() {
    let mut store = MemStorage::new();
    let (run_id, victim, thief) = ids();
    seed_running(&mut store, run_id, victim, 2, "v");
    let stolen = handle_steal_request(&mut store, &run_id, thief, 99);
    assert_eq!(stolen.len(), 1, "ceil(2/2) = 1");
    let x = stolen[0];
    assert_eq!(state_of(&store, run_id, &x), WorkState::Running { worker_id: thief, started_at_ms: 99 });
}

#[test]
fn steal_takes_lowest_work_ids_first() {
    let mut store = MemStorage::new();
    let (run_id, victim, thief) = ids();
    seed_running(&mut store, run_id, victim, 5, "v");
    let mut all: Vec<ContentId> = store.work.scan(run_id).iter().map(|r| r.id).collect();
    all.sort_by(|a, b| a.0.cmp(&b.0));
    let stolen = handle_steal_request(&mut store, &run_id, thief, 3);
    assert_eq!(stolen, all[..3].to_vec());
}

#[test]
fn mock_run_completes_all_with_a_steal() {
    let mut store = MemStorage::new();
    let run_id = RunId(Ulid::new().0);
    let workers: Vec<WorkerId> = (0..3).map(|_| WorkerId(Ulid::new().0)).collect();
    let (done, events) = mock_run(&mut store, run_id, 8, &workers, 1_000);
    assert_eq!(done, 8, "every item reaches Done exactly once");
    assert_eq!(events.iter().filter(|e| e.topic == "work_dispatched").count(), 8);
    assert_eq!(events.iter().filter(|e| e.topic == "work_completed").count(), 8);
    let stolen = events.iter().filter(|e| e.topic == "work_stolen").count();
    assert!(stolen > 0, "the idle worker stole from the busiest peer");
    let last = events.last().unwrap();
    assert_eq!(last.topic, "run_done");
    assert_eq!(last.attrs, EventAttrs::RunDone { items: 8, done: 8, stolen });
    assert!(store.work.scan(run_id).iter().all(|r| matches!(r.state, WorkState::Done { .. })));
    for i in 0..8 {
        let id = ContentId::of(format!("work-item-{i}").as_bytes());
        assert!(matches!(store.work.get(run_id, &id).unwrap().state, WorkState::Done { .. }));
    }
    assert_eq!(store.work.scan(run_id).len(), 8);
}

#[test]
fn mock_run_dispatch_bias_and_steal_events() {
    let mut store = MemStorage::new();
    let run_id = RunId(Ulid::new().0);
    let workers: Vec<WorkerId> = (0..3).map(|_| WorkerId(Ulid::new().0)).collect();
    let (_, events) = mock_run(&mut store, run_id, 7, &workers, 5);
    // The first ceil(7 / 2) = 4 items go to the first worker, the rest
    // alternate over the other two.
    let slots = [0usize, 0, 0, 0, 1, 2, 1];
    for (j, slot) in slots.iter().enumerate() {
        let e = &events[j];
        assert_eq!(e.topic, "work_dispatched");
        assert_eq!(e.worker_id, Some(workers[*slot]));
        let hex = ContentId::of(format!("work-item-{j}").as_bytes()).to_hex();
        assert_eq!(e.attrs, EventAttrs::WorkId(hex));
    }
    let thief = workers[2];
    let stolen: Vec<_> = events.iter().filter(|e| e.topic == "work_stolen").collect();
    // The busiest peer held 4 items: ceil(4 / 2) = 2 are stolen.
    assert_eq!(stolen.len(), 2);
    for e in &stolen {
        assert_eq!(e.worker_id, Some(thief));
        match &e.attrs {
            EventAttrs::Stolen { work_id, thief: t } => {
                assert_eq!(t, &thief.to_text());
                let first_half: Vec<String> =
                    (0..4).map(|j| ContentId::of(format!("work-item-{j}").as_bytes()).to_hex()).collect();
                assert!(first_half.contains(work_id), "stolen from the first worker's items");
            },
            other => panic!("unexpected attrs {other:?}"),
        }
    }
    assert_eq!(events.last().unwrap().attrs, EventAttrs::RunDone { items: 7, done: 7, stolen: 2 });
}

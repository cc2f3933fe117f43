//! Deadline-based health scan of the `heartbeats` ledger.
//!
//! A worker is failed once its heartbeat deadline has passed by more than
//! the clock-skew budget plus the coordinator failure timeout. Each scan
//! reports every such worker not already reported (by worker text), so a
//! periodic scan reports an overdue worker exactly once.

use vstd::prelude::*;

use crate::ids::{ulid_decode, RunId, WorkerId};
use crate::observability::{DomainEvent, EventAttrs, Level};
use crate::registry::HeartbeatRecord;
use crate::storage::MemStorage;

verus! {

/// Whether a heartbeat due at `due_ms` is failed at `now_ms`: the deadline
/// has passed by more than `skew_ms + coord_timeout_ms`.
pub open spec fn failed_at(now_ms: u128, due_ms: u128, skew_ms: u128, coord_timeout_ms: u128) -> bool {
    now_ms > due_ms + skew_ms + coord_timeout_ms
}

/// Failure test: the deadline `due_ms` has passed by more than both the
/// clock-skew budget and the coordinator failure timeout.
pub fn is_failed(now_ms: u128, due_ms: u128, skew_ms: u128, coord_timeout_ms: u128) -> (r: bool)
    ensures
        r == failed_at(now_ms, due_ms, skew_ms, coord_timeout_ms),
        r <==> now_ms - due_ms > skew_ms + coord_timeout_ms,
{
    now_ms > due_ms && now_ms - due_ms > skew_ms && now_ms - due_ms - skew_ms > coord_timeout_ms
}

/// The heartbeat rows in key (worker) order.
pub open spec fn heartbeat_rows(store: &MemStorage) -> Seq<HeartbeatRecord> {
    Seq::new(
        store.heartbeats.key_seq().len(),
        |i: int| store.heartbeats.view()[store.heartbeats.key_seq()[i]],
    )
}

/// Scan `recs` in order against the already-reported worker texts `seen`:
/// the records newly found failed, and the updated reported set.
pub open spec fn newly_failed(
    recs: Seq<HeartbeatRecord>,
    seen: Seq<Seq<char>>,
    now_ms: u128,
    skew_ms: u128,
    coord_timeout_ms: u128,
) -> (Seq<HeartbeatRecord>, Seq<Seq<char>>)
    decreases recs.len(),
{
    if recs.len() == 0 {
        (Seq::empty(), seen)
    } else {
        let (out, s) = newly_failed(recs.drop_last(), seen, now_ms, skew_ms, coord_timeout_ms);
        let r = recs.last();
        if failed_at(now_ms, r.due_at_ms, skew_ms, coord_timeout_ms) && !s.contains(r.worker_id@) {
            (out.push(r), s.push(r.worker_id@))
        } else {
            (out, s)
        }
    }
}

/// Successive scans, each a ledger listing and its scan time, starting
/// from the reported set `seen`: every record reported, in order, and the
/// reported set at the end.
pub open spec fn scan_all(
    scans: Seq<(Seq<HeartbeatRecord>, u128)>,
    seen: Seq<Seq<char>>,
    skew_ms: u128,
    coord_timeout_ms: u128,
) -> (Seq<HeartbeatRecord>, Seq<Seq<char>>)
    decreases scans.len(),
{
    if scans.len() == 0 {
        (Seq::empty(), seen)
    } else {
        let (out, s) = scan_all(scans.drop_last(), seen, skew_ms, coord_timeout_ms);
        let (o2, s2) = newly_failed(scans.last().0, s, scans.last().1, skew_ms, coord_timeout_ms);
        (out + o2, s2)
    }
}

/// Worker texts of heartbeat records.
pub open spec fn worker_texts(recs: Seq<HeartbeatRecord>) -> Seq<Seq<char>> {
    recs.map_values(|r: HeartbeatRecord| r.worker_id@)
}

/// The `worker_failed` event for a failed heartbeat record: the worker and
/// run ids are those the record's texts decode to (absent if they do not
/// decode), level `Warn`, attribute `due_at_ms`.
pub open spec fn failed_event_matches(e: DomainEvent, r: HeartbeatRecord) -> bool {
    &&& e.topic@ == "worker_failed"@
    &&& e.level == Level::Warn
    &&& e.worker_id == match ulid_decode(r.worker_id@) {
        Some(v) => Some(WorkerId(v)),
        None => None::<WorkerId>,
    }
    &&& e.run_id == match ulid_decode(r.run_id@) {
        Some(v) => Some(RunId(v)),
        None => None::<RunId>,
    }
    &&& e.message is None
    &&& e.attrs == EventAttrs::DueAt(r.due_at_ms)
}

fn contains_text(seen: &Vec<String>, t: &String) -> (r: bool)
    ensures
        r == seen@.map_values(|s: String| s@).contains(t@),
{
    let mut i: usize = 0;
    while i < seen.len()
        invariant
            i <= seen@.len(),
            forall|j: int| 0 <= j < i ==> seen@[j]@ != t@,
        decreases seen@.len() - i,
    {
        if seen[i] == *t {
            proof {
                assert(seen@.map_values(|s: String| s@)[i as int] == t@);
            }
            return true;
        }
        i = i + 1;
    }
    proof {
        if seen@.map_values(|s: String| s@).contains(t@) {
            let m = seen@.map_values(|s: String| s@);
            let j = choose|j: int| 0 <= j < m.len() && #[trigger] m[j] == t@;
            assert(seen@[j]@ == t@);
        }
    }
    false
}

/// One scan of the heartbeat ledger at `now_ms`.
///
/// For each heartbeat row in worker order that is failed and whose worker
/// text is not yet in `already_failed`, records the text in
/// `already_failed` and returns a `worker_failed` event for it (in scan
/// order).
pub fn scan_once(
    store: &MemStorage,
    skew_ms: u128,
    coord_timeout_ms: u128,
    now_ms: u128,
    already_failed: &mut Vec<String>,
) -> (evs: Vec<DomainEvent>)
    requires
        store.wf(),
    ensures
        ({
            let (out, s) = newly_failed(
                heartbeat_rows(store),
                old(already_failed)@.map_values(|x: String| x@),
                now_ms,
                skew_ms,
                coord_timeout_ms,
            );
            &&& final(already_failed)@.map_values(|x: String| x@) == s
            &&& evs@.len() == out.len()
            &&& forall|i: int| 0 <= i < out.len() ==> failed_event_matches(#[trigger] evs@[i], out[i])
        }),
{
    let ghost seen0 = already_failed@.map_values(|x: String| x@);
    let ghost recs = heartbeat_rows(store);
    let mut evs: Vec<DomainEvent> = Vec::new();
    let ghost mut out: Seq<HeartbeatRecord> = Seq::empty();
    proof {
        store.heartbeats.lemma_keys();
        assert(recs.take(0) =~= Seq::<HeartbeatRecord>::empty());
    }
    let n = store.heartbeats.len();
    let mut i: usize = 0;
    while i < n
        invariant
            store.wf(),
            n == store.heartbeats.key_seq().len(),
            recs == heartbeat_rows(store),
            i <= n,
            (out, already_failed@.map_values(|x: String| x@)) == newly_failed(
                recs.take(i as int),
                seen0,
                now_ms,
                skew_ms,
                coord_timeout_ms,
            ),
            evs@.len() == out.len(),
            forall|k: int| 0 <= k < out.len() ==> failed_event_matches(#[trigger] evs@[k], out[k]),
        decreases n - i,
    {
        let rec = store.heartbeats.val_at(i);
        proof {
            let t = recs.take(i + 1);
            assert(t.drop_last() =~= recs.take(i as int));
            assert(t.last() == *rec);
        }
        if is_failed(now_ms, rec.due_at_ms, skew_ms, coord_timeout_ms) && !contains_text(
            already_failed,
            &rec.worker_id,
        ) {
            let ghost before = already_failed@;
            already_failed.push(rec.worker_id.clone());
            proof {
                assert(already_failed@.map_values(|x: String| x@) =~= before.map_values(|x: String| x@).push(
                    rec.worker_id@,
                ));
            }
            let ev = DomainEvent {
                topic: "worker_failed".to_owned(),
                level: Level::Warn,
                run_id: RunId::parse(rec.run_id.as_str()),
                worker_id: WorkerId::parse(rec.worker_id.as_str()),
                message: None,
                attrs: EventAttrs::DueAt(rec.due_at_ms),
            };
            evs.push(ev);
            proof {
                out = out.push(*rec);
            }
        }
        i = i + 1;
    }
    proof {
        assert(recs.take(n as int) =~= recs);
    }
    evs
}

} // verus!

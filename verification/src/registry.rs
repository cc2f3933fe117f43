//! Worker registry and heartbeat ledger (namespaces `workers` and
//! `heartbeats`), keyed by worker.

use vstd::prelude::*;

use std::time::SystemTime;

use crate::clock::{epoch_after, systime_ms_spec, unix_epoch, unix_epoch_checked_add, wall_clock_ms};
use crate::ids::{ulid_text, RunId, WorkerId};
use crate::observability::{domain_event, DomainEvent, EventAttrs, Level};
use crate::storage::{MemStorage, StorageKey};
use crate::worker::{Heartbeat, WorkerState};

verus! {

/// Persisted worker registry entry (namespace `workers`).
#[derive(Debug, Clone, PartialEq, Eq)]
pub struct WorkerRegistryEntry {
    /// Worker ULID as string.
    pub worker_id: String,
    /// Owning run ULID as string.
    pub run_id: String,
    /// First-registered timestamp (ms since UNIX epoch).
    pub registered_at_ms: u128,
}

/// Persisted heartbeat ledger entry (namespace `heartbeats`).
#[derive(Debug, Clone, PartialEq, Eq)]
pub struct HeartbeatRecord {
    /// Worker ULID as string.
    pub worker_id: String,
    /// Run ULID as string.
    pub run_id: String,
    /// Worker lifecycle state, encoded as i32 (see `state_to_i32`).
    pub state: i32,
    /// Deadline by which the next heartbeat must arrive (ms since UNIX epoch).
    pub due_at_ms: u128,
    /// When the coordinator received this beat (ms since UNIX epoch).
    pub received_at_ms: u128,
}

impl WorkerRegistryEntry {
    /// A field-for-field copy.
    pub fn duplicate(&self) -> (r: WorkerRegistryEntry)
        ensures
            r == *self,
    {
        WorkerRegistryEntry {
            worker_id: self.worker_id.clone(),
            run_id: self.run_id.clone(),
            registered_at_ms: self.registered_at_ms,
        }
    }
}

impl HeartbeatRecord {
    /// A field-for-field copy.
    pub fn duplicate(&self) -> (r: HeartbeatRecord)
        ensures
            r == *self,
    {
        HeartbeatRecord {
            worker_id: self.worker_id.clone(),
            run_id: self.run_id.clone(),
            state: self.state,
            due_at_ms: self.due_at_ms,
            received_at_ms: self.received_at_ms,
        }
    }
}

/// A key of the form `<namespace>/<worker ULID text>`, not run-scoped.
fn worker_scoped_key(namespace: &str, id: &WorkerId) -> (k: StorageKey)
    ensures
        k.namespace@ == namespace@,
        k.run_id is None,
        k.path@.len() == 1,
        k.path@[0]@ == ulid_text(id.0),
{
    let mut path: Vec<String> = Vec::new();
    path.push(id.to_text());
    StorageKey { namespace: namespace.to_owned(), run_id: None, path }
}

/// Build the `workers/<worker_id>` storage key.
pub fn worker_key(id: &WorkerId) -> (k: StorageKey)
    ensures
        k.namespace@ == "workers"@,
        k.run_id is None,
        k.path@.len() == 1,
        k.path@[0]@ == ulid_text(id.0),
{
    worker_scoped_key("workers", id)
}

/// Build the `heartbeats/<worker_id>` storage key.
pub fn heartbeat_key(id: &WorkerId) -> (k: StorageKey)
    ensures
        k.namespace@ == "heartbeats"@,
        k.run_id is None,
        k.path@.len() == 1,
        k.path@[0]@ == ulid_text(id.0),
{
    worker_scoped_key("heartbeats", id)
}

/// Current wall-clock time as ms since the UNIX epoch (0 before the epoch).
/// Nothing is claimed of the value: it is the machine's clock.
pub fn now_ms() -> u128 {
    wall_clock_ms()
}

/// Whole seconds of a millisecond count, 0 when they exceed `u64`.
pub open spec fn ms_secs(ms: u128) -> u64 {
    if ms / 1000 <= u64::MAX {
        (ms / 1000) as u64
    } else {
        0u64
    }
}

/// Sub-second nanoseconds of a millisecond count.
pub open spec fn ms_nanos(ms: u128) -> u32 {
    ((ms % 1000) * 1_000_000) as u32
}

/// Whole seconds and sub-second nanoseconds of a millisecond count; the
/// seconds fall back to 0 when they exceed `u64`.
pub fn ms_parts(ms: u128) -> (r: (u64, u32))
    ensures
        r.0 == ms_secs(ms),
        r.1 == ms_nanos(ms),
        r.1 == (ms % 1000) * 1_000_000,
        r.1 < 1_000_000_000,
{
    let q = ms / 1000;
    let secs: u64 = if q <= u64::MAX as u128 { q as u64 } else { 0 };
    let sub_nanos: u32 = ((ms % 1000) * 1_000_000) as u32;
    (secs, sub_nanos)
}

/// Convert ms-since-epoch back to a `SystemTime`: the epoch plus
/// `ms_parts(ms)`, or the epoch itself when that instant is outside the
/// platform's time range.
///
/// Where the seconds fit in `u64` and the instant is in range, this inverts
/// the Unix-milliseconds encoding: `systime_ms(ms_to_systime(ms)) == ms`.
pub fn ms_to_systime(ms: u128) -> (t: SystemTime)
    ensures
        t == match epoch_after(ms_secs(ms), ms_nanos(ms)) {
            Some(v) => v,
            None => epoch_after(0, 0)->0,
        },
        ms / 1000 <= u64::MAX && epoch_after(ms_secs(ms), ms_nanos(ms)) is Some ==> systime_ms_spec(t) == ms,
{
    let (secs, sub_nanos) = ms_parts(ms);
    match unix_epoch_checked_add(secs, sub_nanos) {
        Some(t) => {
            proof {
                assert(sub_nanos as u128 / 1_000_000 == ms % 1000);
                if ms / 1000 <= u64::MAX {
                    assert(secs as u128 * 1000 + sub_nanos as u128 / 1_000_000 == ms);
                }
            }
            t
        },
        None => unix_epoch(),
    }
}

/// Integer code of a `WorkerState` as stored in heartbeat rows.
pub open spec fn state_code(s: WorkerState) -> i32 {
    match s {
        WorkerState::Init => 1,
        WorkerState::Ready => 2,
        WorkerState::Running => 3,
        WorkerState::Draining => 4,
    }
}

/// Encode `WorkerState` for storage: Init 1, Ready 2, Running 3, Draining 4.
pub fn state_to_i32(s: WorkerState) -> (r: i32)
    ensures
        r == state_code(s),
        s is Init <==> r == 1,
        s is Ready <==> r == 2,
        s is Running <==> r == 3,
        s is Draining <==> r == 4,
{
    match s {
        WorkerState::Init => 1,
        WorkerState::Ready => 2,
        WorkerState::Running => 3,
        WorkerState::Draining => 4,
    }
}

/// `b` equals `a` except, possibly, the `workers` and `heartbeats` rows.
pub open spec fn same_except_registry(a: &MemStorage, b: &MemStorage) -> bool {
    &&& a.work == b.work
    &&& a.queue == b.queue
    &&& a.leases == b.leases
    &&& a.epochs == b.epochs
}

/// Coordinator control plane for one run: register / deregister /
/// heartbeat persisted in the store. Each call returns the domain events to
/// emit, in order.
#[derive(Debug, Clone, Copy)]
pub struct CoordinatorImpl {
    run_id: RunId,
}

/// The registry entry `register` writes.
pub open spec fn registry_entry_for(worker: WorkerId, run: RunId, now_ms: u128) -> (Seq<char>, Seq<char>, u128) {
    (ulid_text(worker.0), ulid_text(run.0), now_ms)
}

/// View of a registry entry as `(worker text, run text, registered_at_ms)`.
pub open spec fn entry_view(e: WorkerRegistryEntry) -> (Seq<char>, Seq<char>, u128) {
    (e.worker_id@, e.run_id@, e.registered_at_ms)
}

/// View of a heartbeat record as `(worker text, run text, state, due, received)`.
pub open spec fn beat_view(h: HeartbeatRecord) -> (Seq<char>, Seq<char>, i32, u128, u128) {
    (h.worker_id@, h.run_id@, h.state, h.due_at_ms, h.received_at_ms)
}

impl CoordinatorImpl {
    /// The run this coordinator serves.
    pub closed spec fn run(&self) -> RunId {
        self.run_id
    }

    /// Build a coordinator for `run_id`.
    pub fn new(run_id: RunId) -> (c: CoordinatorImpl)
        ensures
            c.run() == run_id,
    {
        CoordinatorImpl { run_id }
    }

    /// Register `worker` at `now_ms`: writes its `workers` row and returns
    /// one `worker_registered` event.
    pub fn register(&self, store: &mut MemStorage, worker: WorkerId, now_ms: u128) -> (ev: DomainEvent)
        requires
            old(store).wf(),
        ensures
            final(store).wf(),
            same_except_registry(old(store), final(store)),
            final(store).heartbeats == old(store).heartbeats,
            final(store).workers.view().dom() == old(store).workers.view().dom().insert(worker.0),
            forall|k: u128|
                k != worker.0 && #[trigger] old(store).workers.view().contains_key(k) ==> final(store).workers.view()[k] == old(store).workers.view()[k],
            entry_view(final(store).workers.view()[worker.0]) == registry_entry_for(
                worker,
                self.run(),
                now_ms,
            ),
            ev.topic@ == "worker_registered"@,
            ev.level == Level::Info,
            ev.run_id == Some(self.run()),
            ev.worker_id == Some(worker),
            ev.message is None,
            ev.attrs == EventAttrs::Empty,
    {
        let entry = WorkerRegistryEntry {
            worker_id: worker.to_text(),
            run_id: self.run_id.to_text(),
            registered_at_ms: now_ms,
        };
        store.workers.insert(worker.0, entry);
        domain_event("worker_registered", Level::Info, Some(self.run_id), Some(worker))
    }

    /// Deregister `worker`: deletes its `workers` and `heartbeats` rows and
    /// returns one `worker_deregistered` event.
    pub fn deregister(&self, store: &mut MemStorage, worker: WorkerId) -> (ev: DomainEvent)
        requires
            old(store).wf(),
        ensures
            final(store).wf(),
            same_except_registry(old(store), final(store)),
            final(store).workers.view() == old(store).workers.view().remove(worker.0),
            final(store).heartbeats.view() == old(store).heartbeats.view().remove(worker.0),
            ev.topic@ == "worker_deregistered"@,
            ev.level == Level::Info,
            ev.run_id == Some(self.run()),
            ev.worker_id == Some(worker),
            ev.message is None,
            ev.attrs == EventAttrs::Empty,
    {
        let _ = store.workers.remove(worker.0);
        let _ = store.heartbeats.remove(worker.0);
        domain_event("worker_deregistered", Level::Info, Some(self.run_id), Some(worker))
    }

    /// Accept a heartbeat received at `now_ms`.
    ///
    /// A first heartbeat from an unknown worker registers it (implicit
    /// registration). The beat's record — worker, run, state code,
    /// `due_at_ms`, and `received_at_ms = now_ms` — overwrites the worker's
    /// `heartbeats` row. Returns the events emitted: `worker_registered`
    /// (only on auto-registration), then `worker_heartbeat`.
    pub fn heartbeat(&self, store: &mut MemStorage, hb: Heartbeat, now_ms: u128) -> (evs: Vec<DomainEvent>)
        requires
            old(store).wf(),
        ensures
            final(store).wf(),
            same_except_registry(old(store), final(store)),
            final(store).workers.view().contains_key(hb.worker_id.0),
            old(store).workers.view().contains_key(hb.worker_id.0) ==> final(store).workers
                == old(store).workers,
            !old(store).workers.view().contains_key(hb.worker_id.0) ==> entry_view(
                final(store).workers.view()[hb.worker_id.0],
            ) == registry_entry_for(hb.worker_id, self.run(), now_ms),
            final(store).heartbeats.view().dom() == old(store).heartbeats.view().dom().insert(
                hb.worker_id.0,
            ),
            forall|k: u128|
                k != hb.worker_id.0 && #[trigger] old(store).heartbeats.view().contains_key(k)
                    ==> final(store).heartbeats.view()[k] == old(store).heartbeats.view()[k],
            beat_view(final(store).heartbeats.view()[hb.worker_id.0]) == (
                ulid_text(hb.worker_id.0),
                ulid_text(hb.run_id.0),
                state_code(hb.state),
                hb.due_at_ms,
                now_ms,
            ),
            evs@.len() == if old(store).workers.view().contains_key(hb.worker_id.0) {
                1int
            } else {
                2int
            },
            evs@.last().topic@ == "worker_heartbeat"@,
            evs@.last().level == Level::Info,
            evs@.last().worker_id == Some(hb.worker_id),
            evs@.last().run_id == Some(self.run()),
            evs@.last().message is None,
            evs@.last().attrs == EventAttrs::Empty,
            evs@.len() == 2 ==> evs@[0].topic@ == "worker_registered"@ && evs@[0].level == Level::Info
                && evs@[0].worker_id == Some(hb.worker_id) && evs@[0].run_id == Some(self.run())
                && evs@[0].message is None && evs@[0].attrs == EventAttrs::Empty,
    {
        let mut evs: Vec<DomainEvent> = Vec::new();
        let known = match store.workers.get(hb.worker_id.0) {
            Some(_) => true,
            None => false,
        };
        if !known {
            let ev = self.register(store, hb.worker_id, now_ms);
            evs.push(ev);
        }
        let rec = HeartbeatRecord {
            worker_id: hb.worker_id.to_text(),
            run_id: hb.run_id.to_text(),
            state: state_to_i32(hb.state),
            due_at_ms: hb.due_at_ms,
            received_at_ms: now_ms,
        };
        let ghost mid = store.heartbeats.view();
        store.heartbeats.insert(hb.worker_id.0, rec);
        proof {
            assert(store.heartbeats.view().dom() =~= mid.dom().insert(hb.worker_id.0));
        }
        evs.push(domain_event("worker_heartbeat", Level::Info, Some(self.run_id), Some(hb.worker_id)));
        evs
    }
}

} // verus!

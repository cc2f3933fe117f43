//! Structured storage keys, and the in-memory store that the coordinator
//! logic runs against: the `work` ledger, the `queue_items` dispatch queue,
//! the `coordinator_lease` and `epoch` rows, and the `workers` and
//! `heartbeats` namespaces. Each operation on the store is atomic.

use vstd::prelude::*;

use crate::errors::{CoreError, FatalError};
use crate::ids::RunId;
use crate::keyed::KeyedRows;
use crate::lease::{CoordEpoch, LeaseRecord};
use crate::registry::{HeartbeatRecord, WorkerRegistryEntry};
use crate::text::{dec_text, hex_text, push_decimal, push_hex, push_str};
use crate::work_table::WorkTable;

verus! {

/// Structured, typed key. Always namespace-prefixed.
#[derive(Debug, Clone, PartialEq, Eq, Hash)]
pub struct StorageKey {
    /// Top-level namespace (e.g. `"workers"`, `"heartbeats"`, `"work"`).
    pub namespace: String,
    /// Optional run scope for run-local keys.
    pub run_id: Option<RunId>,
    /// Hierarchical path segments inside the namespace.
    pub path: Vec<String>,
}

/// A prefix scan over the key space, optionally limited.
#[derive(Debug, Clone, PartialEq, Eq, Hash)]
pub struct KeyRange {
    /// Prefix that scan results must match.
    pub prefix: StorageKey,
    /// Optional maximum number of items to return.
    pub limit: Option<usize>,
}

/// Commit notification for a watched prefix.
#[derive(Debug, Clone, PartialEq, Eq, Hash)]
pub enum StorageEvent {
    /// A put committed against `key`.
    Put {
        /// Key that was written.
        key: StorageKey,
    },
    /// A delete committed against `key`.
    Delete {
        /// Key that was removed.
        key: StorageKey,
    },
}

/// Whether a byte lies in printable ASCII (`0x20..=0x7E`).
pub open spec fn printable(b: u8) -> bool {
    0x20 <= b <= 0x7E
}

/// UTF-8 bytes of a path component.
pub open spec fn component_bytes(c: String) -> Seq<u8> {
    vstd::utf8::encode_utf8(c@)
}

/// Whether every byte of a component is printable ASCII.
pub open spec fn component_ok(c: String) -> bool {
    forall|j: int| 0 <= j < component_bytes(c).len() ==> printable(#[trigger] component_bytes(c)[j])
}

/// The first offending `(component index, byte index)`, in path order, if any.
pub open spec fn first_unprintable(path: Seq<String>) -> Option<(int, int)> {
    if exists|i: int| 0 <= i < path.len() && !component_ok(#[trigger] path[i]) {
        let i = choose|i: int|
            0 <= i < path.len() && !component_ok(#[trigger] path[i]) && forall|i2: int|
                0 <= i2 < i ==> component_ok(#[trigger] path[i2]);
        let j = choose|j: int|
            0 <= j < component_bytes(path[i]).len() && !printable(
                #[trigger] component_bytes(path[i])[j],
            ) && forall|j2: int|
                0 <= j2 < j ==> printable(#[trigger] component_bytes(path[i])[j2]);
        Some((i, j))
    } else {
        None
    }
}

/// Message for a key component holding a non-printable byte.
pub open spec fn unprintable_msg(idx: nat, b: u8) -> Seq<char> {
    "StorageKey path["@ + dec_text(idx) + "] contains byte 0x"@ + hex_text(seq![b])
        + " outside printable ASCII (0x20-0x7E); hex-encode binary IDs for the Postgres backend (see rollout-core::traits::storage StorageKey rustdoc)"@
}

impl StorageKey {
    /// Reject path components that cannot round-trip through a Postgres
    /// `TEXT[]` column: every byte of every path component must lie in
    /// printable ASCII. The namespace is not checked.
    ///
    /// Returns `Fatal(ConfigInvalid)` naming the first offending component
    /// and byte.
    pub fn validate_for_postgres(&self) -> (r: Result<(), CoreError>)
        requires
            self.path@.len() <= u64::MAX,
        ensures
            match first_unprintable(self.path@) {
                None => r is Ok,
                Some((i, j)) => r matches Err(CoreError::Fatal(FatalError::ConfigInvalid { msg }))
                    && msg@ == unprintable_msg(i as nat, component_bytes(self.path@[i])[j]),
            },
    {
        let mut i: usize = 0;
        while i < self.path.len()
            invariant
                i <= self.path@.len(),
                self.path@.len() <= u64::MAX,
                forall|i2: int| 0 <= i2 < i ==> component_ok(#[trigger] self.path@[i2]),
            decreases self.path@.len() - i,
        {
            let bytes = self.path[i].as_str().as_bytes();
            match first_unprintable_byte(bytes) {
                None => {
                    proof {
                        assert(component_ok(self.path@[i as int]));
                    }
                },
                Some(j) => {
                    let b = bytes[j];
                    let mut msg = String::new();
                    push_str(&mut msg, "StorageKey path[");
                    push_decimal(&mut msg, i as u64);
                    push_str(&mut msg, "] contains byte 0x");
                    let one: [u8; 1] = [b];
                    push_hex(&mut msg, &one);
                    push_str(
                        &mut msg,
                        " outside printable ASCII (0x20-0x7E); hex-encode binary IDs for the Postgres backend (see rollout-core::traits::storage StorageKey rustdoc)",
                    );
                    proof {
                        reveal_strlit("StorageKey path[");
                        reveal_strlit("] contains byte 0x");
                        reveal_strlit(
                            " outside printable ASCII (0x20-0x7E); hex-encode binary IDs for the Postgres backend (see rollout-core::traits::storage StorageKey rustdoc)",
                        );
                        assert(one@ =~= seq![b]);
                        let p = self.path@;
                        assert(bytes@ == component_bytes(p[i as int]));
                        assert(!printable(component_bytes(p[i as int])[j as int]));
                        assert(!component_ok(p[i as int]));
                        let ci = choose|ci: int|
                            0 <= ci < p.len() && !component_ok(#[trigger] p[ci]) && forall|i2: int|
                                0 <= i2 < ci ==> component_ok(#[trigger] p[i2]);
                        assert(ci == i) by {
                            if ci < i {
                                assert(component_ok(p[ci]));
                            }
                            if ci > i {
                                assert(component_ok(p[i as int]));
                            }
                        }
                        let cj = choose|cj: int|
                            0 <= cj < component_bytes(p[ci]).len() && !printable(
                                #[trigger] component_bytes(p[ci])[cj],
                            ) && forall|j2: int|
                                0 <= j2 < cj ==> printable(#[trigger] component_bytes(p[ci])[j2]);
                        assert(cj == j) by {
                            if cj < j {
                                assert(printable(bytes@[cj]));
                            }
                            if cj > j {
                                assert(printable(component_bytes(p[ci])[j as int]));
                            }
                        }
                        assert(first_unprintable(p) == Some((i as int, j as int)));
                        assert(msg@ =~= unprintable_msg(i as nat, b));
                    }
                    return Err(CoreError::Fatal(FatalError::ConfigInvalid { msg }));
                },
            }
            i = i + 1;
        }
        proof {
            assert(!exists|i2: int| 0 <= i2 < self.path@.len() && !component_ok(#[trigger] self.path@[i2]));
        }
        Ok(())
    }
}

/// Index of the first byte outside printable ASCII, if any.
fn first_unprintable_byte(bytes: &[u8]) -> (r: Option<usize>)
    ensures
        match r {
            Some(j) => j < bytes@.len() && !printable(bytes@[j as int]) && forall|j2: int|
                0 <= j2 < j ==> printable(#[trigger] bytes@[j2]),
            None => forall|j2: int| 0 <= j2 < bytes@.len() ==> printable(#[trigger] bytes@[j2]),
        },
{
    let mut j: usize = 0;
    while j < bytes.len()
        invariant
            j <= bytes@.len(),
            forall|j2: int| 0 <= j2 < j ==> printable(#[trigger] bytes@[j2]),
        decreases bytes@.len() - j,
    {
        let b = bytes[j];
        if !(0x20 <= b && b <= 0x7E) {
            return Some(j);
        }
        j = j + 1;
    }
    None
}

/// One pending payload on the dispatch queue.
#[derive(Debug, Clone, PartialEq, Eq)]
pub struct QueueEntry {
    /// Run the payload belongs to.
    pub run_id: RunId,
    /// Payload bytes.
    pub payload: Vec<u8>,
}

/// The pending dispatch queue (`queue_items`): payloads keyed by a
/// monotonic sequence number, so that key order is insertion order.
pub struct DispatchQueue {
    rows: KeyedRows<QueueEntry>,
    next_seq: u128,
}

impl DispatchQueue {
    /// Map from sequence number to `(run, payload)`.
    pub closed spec fn view(&self) -> Map<u128, (RunId, Seq<u8>)> {
        Map::new(
            |k: u128| self.rows.view().contains_key(k),
            |k: u128| (self.rows.view()[k].run_id, self.rows.view()[k].payload@),
        )
    }

    /// The sequence number the next enqueue will use.
    pub closed spec fn next_seq(&self) -> u128 {
        self.next_seq
    }

    /// Every queued sequence number is below `next_seq`.
    pub closed spec fn wf(&self) -> bool {
        &&& self.rows.wf()
        &&& forall|k: u128| #[trigger] self.rows.view().contains_key(k) ==> k < self.next_seq
    }

    /// Facts callers rely on: keys are below the counter and the domain is finite.
    pub proof fn lemma_wf(&self)
        requires
            self.wf(),
        ensures
            forall|k: u128| #[trigger] self.view().contains_key(k) ==> k < self.next_seq(),
            self.view().dom().finite(),
    {
        self.rows.lemma_keys();
        assert(self.view().dom() =~= self.rows.view().dom());
    }

    /// An empty queue.
    pub fn new() -> (q: Self)
        ensures
            q.wf(),
            q.view() == Map::<u128, (RunId, Seq<u8>)>::empty(),
            q.next_seq() == 0,
    {
        let q = DispatchQueue { rows: KeyedRows::new(), next_seq: 0 };
        assert(q.view() =~= Map::<u128, (RunId, Seq<u8>)>::empty());
        q
    }

    /// Append `payload` for `run` under the next sequence number.
    pub fn push(&mut self, run: RunId, payload: Vec<u8>) -> (seq: u128)
        requires
            old(self).wf(),
            old(self).next_seq() < u128::MAX,
        ensures
            final(self).wf(),
            seq == old(self).next_seq(),
            final(self).next_seq() == old(self).next_seq() + 1,
            final(self).view() == old(self).view().insert(seq, (run, payload@)),
    {
        let seq = self.next_seq;
        let ghost p = payload@;
        self.rows.insert(seq, QueueEntry { run_id: run, payload });
        self.next_seq = self.next_seq + 1;
        assert(self.view() =~= old(self).view().insert(seq, (run, p)));
        seq
    }

    /// The lowest-keyed (oldest) entry of `run`, as `(seq, payload)`.
    pub fn front(&self, run: RunId) -> (r: Option<(u128, Vec<u8>)>)
        requires
            self.wf(),
        ensures
            match r {
                Some((seq, payload)) => self.view().contains_key(seq) && self.view()[seq] == (
                    run,
                    payload@,
                ) && forall|k: u128|
                    #[trigger] self.view().contains_key(k) && self.view()[k].0 == run ==> seq <= k,
                None => forall|k: u128|
                    #[trigger] self.view().contains_key(k) ==> self.view()[k].0 != run,
            },
    {
        proof {
            self.rows.lemma_keys();
        }
        let n = self.rows.len();
        let mut i: usize = 0;
        while i < n
            invariant
                self.wf(),
                n == self.rows.key_seq().len(),
                i <= n,
                forall|j: int| 0 <= j < i ==> self.rows.view()[#[trigger] self.rows.key_seq()[j]].run_id != run,
            decreases n - i,
        {
            let e = self.rows.val_at(i);
            if e.run_id == run {
                let k = self.rows.key_at(i);
                let payload = e.payload.clone();
                proof {
                    assert(payload@ =~= e.payload@);
                    self.rows.lemma_keys();
                    assert forall|kk: u128|
                        #[trigger] self.view().contains_key(kk) && self.view()[kk].0 == run implies k <= kk by {
                        let j = choose|j: int|
                            0 <= j < self.rows.key_seq().len() && self.rows.key_seq()[j] == kk;
                        if j < i {
                            assert(self.rows.view()[self.rows.key_seq()[j]].run_id != run);
                        } else if j > i {
                        }
                    }
                }
                return Some((k, payload));
            }
            i = i + 1;
        }
        proof {
            assert forall|kk: u128| #[trigger] self.view().contains_key(kk) implies self.view()[kk].0 != run by {
                let j = choose|j: int|
                    0 <= j < self.rows.key_seq().len() && self.rows.key_seq()[j] == kk;
                assert(self.rows.view()[self.rows.key_seq()[j]].run_id != run);
            }
        }
        None
    }

    /// Remove the entry under `seq`.
    pub fn delete(&mut self, seq: u128)
        requires
            old(self).wf(),
        ensures
            final(self).wf(),
            final(self).next_seq() == old(self).next_seq(),
            final(self).view() == old(self).view().remove(seq),
    {
        let _ = self.rows.remove(seq);
        assert(self.view() =~= old(self).view().remove(seq));
    }
}

/// The in-memory store the coordinator runs against.
pub struct MemStorage {
    /// The `work` ledger.
    pub work: WorkTable,
    /// The `queue_items` dispatch queue.
    pub queue: DispatchQueue,
    /// The `coordinator_lease` row of each run, keyed by run.
    pub leases: KeyedRows<LeaseRecord>,
    /// The authoritative `epoch` row of each run, keyed by run.
    pub epochs: KeyedRows<CoordEpoch>,
    /// The `workers` registry, keyed by worker.
    pub workers: KeyedRows<WorkerRegistryEntry>,
    /// The `heartbeats` ledger, keyed by worker.
    pub heartbeats: KeyedRows<HeartbeatRecord>,
}

impl MemStorage {
    /// Every part of the store is internally consistent.
    pub open spec fn wf(&self) -> bool {
        &&& self.work.wf()
        &&& self.queue.wf()
        &&& self.leases.wf()
        &&& self.epochs.wf()
        &&& self.workers.wf()
        &&& self.heartbeats.wf()
    }

    /// An empty store.
    pub fn new() -> (s: MemStorage)
        ensures
            s.wf(),
            s.work.view() == Map::<(RunId, crate::ids::ContentId), crate::work_item::WorkStateView>::empty(),
            s.work.entries() == Seq::<crate::work_table::WorkEntry>::empty(),
            s.queue.view() == Map::<u128, (RunId, Seq<u8>)>::empty(),
            s.queue.next_seq() == 0,
            s.leases.view() == Map::<u128, LeaseRecord>::empty(),
            s.epochs.view() == Map::<u128, CoordEpoch>::empty(),
            s.workers.view() == Map::<u128, WorkerRegistryEntry>::empty(),
            s.heartbeats.view() == Map::<u128, HeartbeatRecord>::empty(),
    {
        MemStorage {
            work: WorkTable::new(),
            queue: DispatchQueue::new(),
            leases: KeyedRows::new(),
            epochs: KeyedRows::new(),
            workers: KeyedRows::new(),
            heartbeats: KeyedRows::new(),
        }
    }
}

/// `b` equals `a` everywhere except, possibly, the `work` ledger.
pub open spec fn same_except_work(a: &MemStorage, b: &MemStorage) -> bool {
    &&& a.queue == b.queue
    &&& a.leases == b.leases
    &&& a.epochs == b.epochs
    &&& a.workers == b.workers
    &&& a.heartbeats == b.heartbeats
}

/// `b` equals `a` everywhere except, possibly, the `work` ledger and the
/// dispatch queue.
pub open spec fn same_except_work_queue(a: &MemStorage, b: &MemStorage) -> bool {
    &&& a.leases == b.leases
    &&& a.epochs == b.epochs
    &&& a.workers == b.workers
    &&& a.heartbeats == b.heartbeats
}

} // verus!

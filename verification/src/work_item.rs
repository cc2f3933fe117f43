//! Work-item lifecycle records and the CAS-on-state machine over the `work`
//! ledger: `Pending -> Running -> Done | Failed`, each transition a single
//! compare-and-swap against the exact prior record.

use vstd::prelude::*;

use crate::ids::{ContentId, RunId, WorkerId};
use crate::storage::{same_except_work, MemStorage, StorageKey};
use crate::text::hex_text;

verus! {

/// Lifecycle of a single work item in the CAS state machine.
#[derive(Debug, Clone, PartialEq, Eq)]
pub enum WorkState {
    /// Awaiting worker pickup (in the dispatch queue).
    Pending,
    /// A worker has claimed this item.
    Running {
        /// Owning worker.
        worker_id: WorkerId,
        /// Unix-ms timestamp when the claim was made.
        started_at_ms: u128,
    },
    /// Work completed; result bytes live in the object store under `result_id`.
    Done {
        /// `ObjectStore` content id for the result.
        result_id: ContentId,
    },
    /// Work failed terminally.
    Failed {
        /// Human-readable cause.
        reason: String,
    },
}

/// Mathematical value of a [`WorkState`].
pub enum WorkStateView {
    Pending,
    Running { worker_id: WorkerId, started_at_ms: u128 },
    Done { result_id: ContentId },
    Failed { reason: Seq<char> },
}

impl View for WorkState {
    type V = WorkStateView;

    open spec fn view(&self) -> WorkStateView {
        match self {
            WorkState::Pending => WorkStateView::Pending,
            WorkState::Running { worker_id, started_at_ms } => WorkStateView::Running {
                worker_id: *worker_id,
                started_at_ms: *started_at_ms,
            },
            WorkState::Done { result_id } => WorkStateView::Done { result_id: *result_id },
            WorkState::Failed { reason } => WorkStateView::Failed { reason: reason@ },
        }
    }
}

/// Whether a state is `Running` under worker `w`.
pub open spec fn running_by(s: WorkStateView, w: WorkerId) -> bool {
    s matches WorkStateView::Running { worker_id, .. } && worker_id == w
}

/// Persisted work-item row (the durable in-flight assignment ledger entry).
#[derive(Debug, Clone, PartialEq, Eq)]
pub struct WorkItemRecord {
    /// Deterministic work identity (content-addressed; CAS key + ack idempotency).
    pub id: ContentId,
    /// Lifecycle state.
    pub state: WorkState,
}

impl WorkState {
    /// A field-for-field copy.
    pub fn duplicate(&self) -> (r: WorkState)
        ensures
            r@ == self@,
    {
        match self {
            WorkState::Pending => WorkState::Pending,
            WorkState::Running { worker_id, started_at_ms } => WorkState::Running {
                worker_id: *worker_id,
                started_at_ms: *started_at_ms,
            },
            WorkState::Done { result_id } => WorkState::Done { result_id: *result_id },
            WorkState::Failed { reason } => WorkState::Failed { reason: reason.clone() },
        }
    }

    /// Value equality of two states.
    pub fn same(&self, other: &WorkState) -> (r: bool)
        ensures
            r == (self@ == other@),
    {
        match (self, other) {
            (WorkState::Pending, WorkState::Pending) => true,
            (
                WorkState::Running { worker_id: w1, started_at_ms: t1 },
                WorkState::Running { worker_id: w2, started_at_ms: t2 },
            ) => *w1 == *w2 && *t1 == *t2,
            (WorkState::Done { result_id: r1 }, WorkState::Done { result_id: r2 }) => r1.same(r2),
            (WorkState::Failed { reason: a }, WorkState::Failed { reason: b }) => *a == *b,
            _ => false,
        }
    }

    /// Whether the state is `Pending`.
    pub fn is_pending(&self) -> (r: bool)
        ensures
            r == (self@ is Pending),
    {
        match self {
            WorkState::Pending => true,
            _ => false,
        }
    }

    /// Whether the state is `Running` (under any worker).
    pub fn is_running(&self) -> (r: bool)
        ensures
            r == (self@ is Running),
    {
        match self {
            WorkState::Running { .. } => true,
            _ => false,
        }
    }

    /// Whether the state is `Done`.
    pub fn is_done(&self) -> (r: bool)
        ensures
            r == (self@ is Done),
    {
        match self {
            WorkState::Done { .. } => true,
            _ => false,
        }
    }

    /// Whether the state is `Running` under `w`.
    pub fn is_running_by(&self, w: WorkerId) -> (r: bool)
        ensures
            r == running_by(self@, w),
    {
        match self {
            WorkState::Running { worker_id, .. } => *worker_id == w,
            _ => false,
        }
    }
}

impl WorkItemRecord {
    /// A field-for-field copy.
    pub fn duplicate(&self) -> (r: WorkItemRecord)
        ensures
            r.id == self.id,
            r.state@ == self.state@,
    {
        WorkItemRecord { id: self.id, state: self.state.duplicate() }
    }
}

/// Whether the ledger row of `rec.id` under `run` holds exactly `rec`'s state.
pub open spec fn holds(m: Map<(RunId, ContentId), WorkStateView>, run: RunId, rec: WorkItemRecord) -> bool {
    m.contains_key((run, rec.id)) && m[(run, rec.id)] == rec.state@
}

/// `m` with the row of `rec.id` under `run` replaced by `next` when `applied`.
pub open spec fn cas_result(
    m: Map<(RunId, ContentId), WorkStateView>,
    run: RunId,
    rec: WorkItemRecord,
    applied: bool,
    next: WorkStateView,
) -> Map<(RunId, ContentId), WorkStateView> {
    if applied {
        m.insert((run, rec.id), next)
    } else {
        m
    }
}

/// Whether a claim against `rec` wins: `rec` is `Pending` and current.
pub open spec fn claim_wins(m: Map<(RunId, ContentId), WorkStateView>, run: RunId, rec: WorkItemRecord) -> bool {
    rec.state@ is Pending && holds(m, run, rec)
}

/// The ledger after a claim of `rec` by `w` at `now_ms`.
pub open spec fn claim_after(
    m: Map<(RunId, ContentId), WorkStateView>,
    run: RunId,
    rec: WorkItemRecord,
    w: WorkerId,
    now_ms: u128,
) -> Map<(RunId, ContentId), WorkStateView> {
    cas_result(
        m,
        run,
        rec,
        claim_wins(m, run, rec),
        WorkStateView::Running { worker_id: w, started_at_ms: now_ms },
    )
}

/// Whether a transition out of the `Running` record `rec` (ack or re-pend)
/// wins: `rec` is `Running` and current.
pub open spec fn release_wins(m: Map<(RunId, ContentId), WorkStateView>, run: RunId, rec: WorkItemRecord) -> bool {
    rec.state@ is Running && holds(m, run, rec)
}

/// The ledger after acking `rec` with `result_id`.
pub open spec fn complete_after(
    m: Map<(RunId, ContentId), WorkStateView>,
    run: RunId,
    rec: WorkItemRecord,
    result_id: ContentId,
) -> Map<(RunId, ContentId), WorkStateView> {
    cas_result(m, run, rec, release_wins(m, run, rec), WorkStateView::Done { result_id })
}

/// The ledger after re-pending `rec`.
pub open spec fn repend_after(m: Map<(RunId, ContentId), WorkStateView>, run: RunId, rec: WorkItemRecord) -> Map<
    (RunId, ContentId),
    WorkStateView,
> {
    cas_result(m, run, rec, release_wins(m, run, rec), WorkStateView::Pending)
}

/// Build the `StorageKey` of a work item: namespace `work`, scoped to the
/// run, path `["item", <work id hex>]`.
pub fn work_key(run_id: &RunId, work_id: &ContentId) -> (k: StorageKey)
    ensures
        k.namespace@ == "work"@,
        k.run_id == Some(*run_id),
        k.path@.len() == 2,
        k.path@[0]@ == "item"@,
        k.path@[1]@ == hex_text(work_id.0@),
{
    let mut path: Vec<String> = Vec::new();
    path.push("item".to_owned());
    path.push(work_id.to_hex());
    StorageKey { namespace: "work".to_owned(), run_id: Some(*run_id), path }
}

/// CAS-claim a `Pending` item for `worker_id`. Returns `true` iff this caller
/// won: the ledger row for the item held exactly `record` (which must be
/// `Pending`), and it now reads `Running { worker_id, started_at_ms: now_ms }`.
/// A second claim against the same `Pending` record loses.
pub fn try_claim(
    store: &mut MemStorage,
    run_id: &RunId,
    record: &WorkItemRecord,
    worker_id: WorkerId,
    now_ms: u128,
) -> (won: bool)
    requires
        old(store).wf(),
    ensures
        final(store).wf(),
        same_except_work(old(store), final(store)),
        won == claim_wins(old(store).work.view(), *run_id, *record),
        final(store).work.view() == claim_after(old(store).work.view(), *run_id, *record, worker_id, now_ms),
        won <==> (record.state@ is Pending && old(store).work.view().contains_key((*run_id, record.id))
            && old(store).work.view()[(*run_id, record.id)] == record.state@),
        won ==> final(store).work.view() == old(store).work.view().insert(
            (*run_id, record.id),
            WorkStateView::Running { worker_id, started_at_ms: now_ms },
        ),
        !won ==> final(store).work.view() == old(store).work.view(),
{
    if !record.state.is_pending() {
        return false;
    }
    store.work.cas(*run_id, record, WorkState::Running { worker_id, started_at_ms: now_ms })
}

/// CAS-transition a `Running` item to `Done { result_id }`. Returns `true`
/// iff applied. Idempotent against replayed acks: on a row that is already
/// `Done` (or otherwise differs from `running_record`) it returns `false`
/// and changes nothing.
pub fn try_complete(
    store: &mut MemStorage,
    run_id: &RunId,
    running_record: &WorkItemRecord,
    result_id: ContentId,
) -> (won: bool)
    requires
        old(store).wf(),
    ensures
        final(store).wf(),
        same_except_work(old(store), final(store)),
        won == release_wins(old(store).work.view(), *run_id, *running_record),
        final(store).work.view() == complete_after(old(store).work.view(), *run_id, *running_record, result_id),
        won <==> (running_record.state@ is Running && old(store).work.view().contains_key((*run_id, running_record.id))
            && old(store).work.view()[(*run_id, running_record.id)] == running_record.state@),
        won ==> final(store).work.view() == old(store).work.view().insert(
            (*run_id, running_record.id),
            WorkStateView::Done { result_id },
        ),
        !won ==> final(store).work.view() == old(store).work.view(),
{
    if !running_record.state.is_running() {
        return false;
    }
    store.work.cas(*run_id, running_record, WorkState::Done { result_id })
}

/// CAS-transition a `Running` item back to `Pending` so a fresh worker can
/// re-claim it. Returns `false` (state unchanged) if the record is not
/// `Running` or the row no longer holds it — e.g. a re-pend attempt on an
/// item that was already acked `Done` is a harmless no-op.
pub fn try_repending(
    store: &mut MemStorage,
    run_id: &RunId,
    running_record: &WorkItemRecord,
) -> (won: bool)
    requires
        old(store).wf(),
    ensures
        final(store).wf(),
        same_except_work(old(store), final(store)),
        won == release_wins(old(store).work.view(), *run_id, *running_record),
        final(store).work.view() == repend_after(old(store).work.view(), *run_id, *running_record),
        won <==> (running_record.state@ is Running && old(store).work.view().contains_key((*run_id, running_record.id))
            && old(store).work.view()[(*run_id, running_record.id)] == running_record.state@),
        won ==> final(store).work.view() == old(store).work.view().insert(
            (*run_id, running_record.id),
            WorkStateView::Pending,
        ),
        !won ==> final(store).work.view() == old(store).work.view(),
{
    if !running_record.state.is_running() {
        return false;
    }
    store.work.cas(*run_id, running_record, WorkState::Pending)
}

} // verus!

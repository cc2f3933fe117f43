//! Dispatch queue (`queue_items`) and per-worker backlog accounting over the
//! `work` ledger.
//!
//! - `enqueue` appends a payload under the next sequence number, so the queue
//!   replays payloads in insertion order.
//! - `dispatch` pops the oldest entry of a run, content-addresses the payload
//!   into a deterministic work id (blake3), writes a `Pending` row, claims it
//!   for the worker (`Pending -> Running`), and deletes the queue entry.
//! - `backlog` / `busiest` count `Running` rows per worker; `busiest` drives
//!   steal victim selection.

use std::collections::HashMap;
use vstd::prelude::*;

use crate::ids::{blake3_digest, ContentId, RunId, WorkerId};
use crate::storage::{same_except_work, same_except_work_queue, MemStorage};
use crate::work_item::{running_by, try_claim, WorkItemRecord, WorkState, WorkStateView};
use crate::work_table::{lemma_run_records_members, rec_views, run_records};

verus! {

/// Number of `Running` rows owned by `w` in a run's `(id, state)` listing.
pub open spec fn count_running(rr: Seq<(ContentId, WorkStateView)>, w: WorkerId) -> nat
    decreases rr.len(),
{
    if rr.len() == 0 {
        0
    } else {
        count_running(rr.drop_last(), w) + if running_by(rr.last().1, w) {
            1nat
        } else {
            0nat
        }
    }
}

/// The `Running` backlog of worker `w` in run `run` of `store`.
pub open spec fn backlog_spec(store: &MemStorage, run: RunId, w: WorkerId) -> nat {
    count_running(run_records(store.work.entries(), run), w)
}

/// A worker with a positive count owns some `Running` row of the listing.
pub proof fn lemma_count_positive(rr: Seq<(ContentId, WorkStateView)>, w: WorkerId)
    requires
        count_running(rr, w) > 0,
    ensures
        exists|j: int| 0 <= j < rr.len() && running_by(#[trigger] rr[j].1, w),
    decreases rr.len(),
{
    if running_by(rr.last().1, w) {
        assert(running_by(rr[rr.len() - 1].1, w));
    } else {
        lemma_count_positive(rr.drop_last(), w);
        let j = choose|j: int| 0 <= j < rr.drop_last().len() && running_by(#[trigger] rr.drop_last()[j].1, w);
        assert(rr[j] == rr.drop_last()[j]);
    }
}

/// `seq` is the oldest queue entry of `run`.
pub open spec fn is_front(q: Map<u128, (RunId, Seq<u8>)>, run: RunId, seq: u128) -> bool {
    &&& q.contains_key(seq)
    &&& q[seq].0 == run
    &&& forall|k: u128| #[trigger] q.contains_key(k) && q[k].0 == run ==> seq <= k
}

/// Whether the queue holds any entry of `run`.
pub open spec fn has_entry(q: Map<u128, (RunId, Seq<u8>)>, run: RunId) -> bool {
    exists|k: u128| #[trigger] q.contains_key(k) && q[k].0 == run
}

/// Enqueue a payload onto the pending dispatch queue of `run_id`, under the
/// next sequence number (so later scans replay payloads in insertion order).
pub fn enqueue(store: &mut MemStorage, run_id: &RunId, payload: Vec<u8>)
    requires
        old(store).wf(),
        old(store).queue.next_seq() < u128::MAX,
    ensures
        final(store).wf(),
        final(store).work == old(store).work,
        same_except_work_queue(old(store), final(store)),
        final(store).queue.next_seq() == old(store).queue.next_seq() + 1,
        final(store).queue.view() == old(store).queue.view().insert(
            old(store).queue.next_seq(),
            (*run_id, payload@),
        ),
{
    let _ = store.queue.push(*run_id, payload);
}

/// Peek the oldest pending dispatch entry of `run_id` without removing it:
/// its deterministic work id (blake3 of the payload) and the payload, or
/// `None` if the run's queue is empty.
pub fn next_pending(store: &MemStorage, run_id: &RunId) -> (r: Option<(ContentId, Vec<u8>)>)
    requires
        store.wf(),
    ensures
        match r {
            None => !has_entry(store.queue.view(), *run_id),
            Some((id, payload)) => exists|seq: u128|
                is_front(store.queue.view(), *run_id, seq) && store.queue.view()[seq].1
                    == payload@ && id.0@ == blake3_digest(payload@),
        },
{
    match store.queue.front(*run_id) {
        None => {
            proof {
                assert(!has_entry(store.queue.view(), *run_id));
            }
            None
        },
        Some((seq, payload)) => {
            let id = ContentId::of(payload.as_slice());
            proof {
                assert(is_front(store.queue.view(), *run_id, seq));
            }
            Some((id, payload))
        },
    }
}

/// Pop the oldest pending payload of `run_id` and assign it to `worker_id`.
///
/// Derives the content-addressed work id of the payload, writes a `Pending`
/// row for it, claims it for the worker (`Pending -> Running`), and deletes
/// the queue entry. Returns the dispatched work id, or `None` (store
/// unchanged) if the run's queue was empty.
pub fn dispatch(store: &mut MemStorage, run_id: &RunId, worker_id: WorkerId, now_ms: u128) -> (r:
    Option<ContentId>)
    requires
        old(store).wf(),
    ensures
        final(store).wf(),
        same_except_work_queue(old(store), final(store)),
        final(store).queue.next_seq() == old(store).queue.next_seq(),
        match r {
            None => !has_entry(old(store).queue.view(), *run_id) && final(store).work == old(
                store,
            ).work && final(store).queue == old(store).queue,
            Some(id) => exists|seq: u128|
                is_front(old(store).queue.view(), *run_id, seq) && id.0@ == blake3_digest(
                    old(store).queue.view()[seq].1,
                ) && final(store).queue.view() == old(store).queue.view().remove(seq)
                    && final(store).work.view() == old(store).work.view().insert(
                    (*run_id, id),
                    WorkStateView::Running { worker_id, started_at_ms: now_ms },
                ),
        },
{
    let (seq, payload) = match store.queue.front(*run_id) {
        None => return None,
        Some(e) => e,
    };
    let work_id = ContentId::of(payload.as_slice());
    let ghost before = store.work.view();
    store.work.put(*run_id, WorkItemRecord { id: work_id, state: WorkState::Pending });
    let pending = WorkItemRecord { id: work_id, state: WorkState::Pending };
    let won = try_claim(store, run_id, &pending, worker_id, now_ms);
    assert(won);
    store.queue.delete(seq);
    proof {
        assert(store.work.view() =~= before.insert(
            (*run_id, work_id),
            WorkStateView::Running { worker_id, started_at_ms: now_ms },
        ));
    }
    Some(work_id)
}

/// Count of `Running` rows of `run_id` currently assigned to `worker_id`.
pub fn backlog(store: &MemStorage, run_id: &RunId, worker_id: WorkerId) -> (n: usize)
    requires
        store.wf(),
    ensures
        n == backlog_spec(store, *run_id, worker_id),
{
    let rows = store.work.scan(*run_id);
    count_in(&rows, worker_id)
}

/// Count of records in `rows` that are `Running` under `worker_id`.
fn count_in(rows: &Vec<WorkItemRecord>, worker_id: WorkerId) -> (n: usize)
    ensures
        n == count_running(rec_views(rows@), worker_id),
{
    let mut count: usize = 0;
    let mut i: usize = 0;
    proof {
        assert(rec_views(rows@).take(0) =~= Seq::<(ContentId, WorkStateView)>::empty());
    }
    while i < rows.len()
        invariant
            i <= rows@.len(),
            count == count_running(rec_views(rows@).take(i as int), worker_id),
            count <= i,
        decreases rows@.len() - i,
    {
        proof {
            let t = rec_views(rows@).take(i + 1);
            assert(t.drop_last() =~= rec_views(rows@).take(i as int));
            assert(t.last() == (rows@[i as int].id, rows@[i as int].state@));
        }
        if rows[i].state.is_running_by(worker_id) {
            count = count + 1;
        }
        i = i + 1;
    }
    proof {
        assert(rec_views(rows@).take(i as int) =~= rec_views(rows@));
    }
    count
}

/// Owner of a `Running` state (meaningless for other states).
pub open spec fn owner(s: WorkStateView) -> WorkerId {
    match s {
        WorkStateView::Running { worker_id, .. } => worker_id,
        _ => WorkerId(0),
    }
}

/// A `Running` state of a worker other than `exclude`.
pub open spec fn candidate(s: WorkStateView, exclude: WorkerId) -> bool {
    s is Running && owner(s) != exclude
}

/// `w` has the largest `Running` backlog among the workers other than
/// `exclude`, ties going to the larger worker id.
pub open spec fn is_busiest(rr: Seq<(ContentId, WorkStateView)>, exclude: WorkerId, w: WorkerId) -> bool {
    &&& w != exclude
    &&& count_running(rr, w) > 0
    &&& forall|w2: WorkerId|
        w2 != exclude ==> count_running(rr, w2) < count_running(rr, w) || (count_running(rr, w2)
            == count_running(rr, w) && w2.0 <= w.0)
}

/// The busiest worker by `Running` backlog in `run_id`, excluding `exclude`
/// (the thief). Returns `(worker, backlog)` of the peer with the most
/// `Running` rows — ties broken towards the larger worker id, so victim
/// selection is deterministic — or `None` if no other worker has any.
pub fn busiest(store: &MemStorage, run_id: &RunId, exclude: WorkerId) -> (r: Option<(WorkerId, usize)>)
    requires
        store.wf(),
    ensures
        match r {
            None => forall|w: WorkerId| w != exclude ==> backlog_spec(store, *run_id, w) == 0,
            Some((w, n)) => is_busiest(run_records(store.work.entries(), *run_id), exclude, w)
                && n == backlog_spec(store, *run_id, w),
        },
{
    let rows = store.work.scan(*run_id);
    let ghost rr = rec_views(rows@);
    let counts = running_tally(&rows, exclude);
    let mut best: Option<(WorkerId, usize)> = None;
    let mut i: usize = 0;
    while i < rows.len()
        invariant
            i <= rows@.len(),
            rr == rec_views(rows@),
            forall|k: u128|
                k != exclude.0 && count_running(rr, WorkerId(k)) > 0 ==> #[trigger] counts@.contains_key(k)
                    && counts@[k] == count_running(rr, WorkerId(k)),
            match best {
                None => forall|j: int| 0 <= j < i ==> !candidate(#[trigger] rr[j].1, exclude),
                Some((bw, bc)) => {
                    &&& bw != exclude
                    &&& bc == count_running(rr, bw)
                    &&& bc > 0
                    &&& forall|j: int|
                        0 <= j < i && candidate(#[trigger] rr[j].1, exclude) ==> count_running(
                            rr,
                            owner(rr[j].1),
                        ) < bc || (count_running(rr, owner(rr[j].1)) == bc && owner(rr[j].1).0
                            <= bw.0)
                },
            },
        decreases rows@.len() - i,
    {
        proof {
            assert(rr[i as int] == (rows@[i as int].id, rows@[i as int].state@));
        }
        match &rows[i].state {
            WorkState::Running { worker_id, .. } => {
                let w = *worker_id;
                if w != exclude {
                    proof {
                        assert(running_by(rr[i as int].1, w));
                        lemma_count_includes(rr, w, i as int);
                        assert(WorkerId(w.0) == w);
                    }
                    let c = match counts.get(&w.0) {
                        Some(c) => *c,
                        None => 0,
                    };
                    let replace = match best {
                        None => true,
                        Some((bw, bc)) => c > bc || (c == bc && w.0 > bw.0),
                    };
                    if replace {
                        best = Some((w, c));
                    }
                }
            },
            _ => {},
        }
        i = i + 1;
    }
    proof {
        match best {
            None => {
                assert forall|w: WorkerId| w != exclude implies backlog_spec(store, *run_id, w) == 0 by {
                    if count_running(rr, w) > 0 {
                        lemma_count_positive(rr, w);
                        let j = choose|j: int| 0 <= j < rr.len() && running_by(#[trigger] rr[j].1, w);
                        assert(candidate(rr[j].1, exclude) && owner(rr[j].1) == w);
                    }
                }
            },
            Some((bw, bc)) => {
                assert forall|w2: WorkerId| w2 != exclude implies count_running(rr, w2) < count_running(
                    rr,
                    bw,
                ) || (count_running(rr, w2) == count_running(rr, bw) && w2.0 <= bw.0) by {
                    if count_running(rr, w2) > 0 {
                        lemma_count_positive(rr, w2);
                        let j = choose|j: int| 0 <= j < rr.len() && running_by(#[trigger] rr[j].1, w2);
                        assert(candidate(rr[j].1, exclude) && owner(rr[j].1) == w2);
                    }
                }
            },
        }
    }
    best
}

/// Per-worker `Running` counts of `rows`, keyed by worker id, leaving out
/// `exclude`: exactly the workers with a positive count have an entry.
fn running_tally(rows: &Vec<WorkItemRecord>, exclude: WorkerId) -> (counts: HashMap<u128, usize>)
    ensures
        forall|k: u128|
            #[trigger] counts@.contains_key(k) <==> (k != exclude.0 && count_running(rec_views(rows@), WorkerId(k)) > 0),
        forall|k: u128|
            #[trigger] counts@.contains_key(k) ==> counts@[k] == count_running(rec_views(rows@), WorkerId(k)),
{
    broadcast use vstd::std_specs::hash::group_hash_axioms;
    let ghost rr = rec_views(rows@);
    let mut counts: HashMap<u128, usize> = HashMap::new();
    let mut i: usize = 0;
    proof {
        assert(rr.take(0) =~= Seq::<(ContentId, WorkStateView)>::empty());
    }
    while i < rows.len()
        invariant
            i <= rows@.len(),
            rr == rec_views(rows@),
            forall|k: u128|
                #[trigger] counts@.contains_key(k) <==> (k != exclude.0 && count_running(rr.take(i as int), WorkerId(k)) > 0),
            forall|k: u128|
                #[trigger] counts@.contains_key(k) ==> counts@[k] == count_running(rr.take(i as int), WorkerId(k)),
            forall|k: u128| #[trigger] counts@.contains_key(k) ==> counts@[k] <= i,
        decreases rows@.len() - i,
    {
        let ghost before = counts@;
        proof {
            let t = rr.take(i + 1);
            assert(t.drop_last() =~= rr.take(i as int));
            assert(t.last() == (rows@[i as int].id, rows@[i as int].state@));
        }
        match &rows[i].state {
            WorkState::Running { worker_id, .. } => {
                let w = *worker_id;
                if w != exclude {
                    let c = match counts.get(&w.0) {
                        Some(c) => *c,
                        None => 0,
                    };
                    counts.insert(w.0, c + 1);
                    proof {
                        assert(WorkerId(w.0) == w);
                        assert forall|k: u128| #[trigger] counts@.contains_key(k) <==> (k != exclude.0 && count_running(
                            rr.take(i + 1),
                            WorkerId(k),
                        ) > 0) by {
                            if k != w.0 {
                                assert(WorkerId(k) != w);
                            }
                        }
                        assert forall|k: u128| #[trigger] counts@.contains_key(k) implies counts@[k] == count_running(
                            rr.take(i + 1),
                            WorkerId(k),
                        ) by {
                            if k != w.0 {
                                assert(WorkerId(k) != w);
                            }
                        }
                    }
                } else {
                    proof {
                        assert forall|k: u128| #[trigger] counts@.contains_key(k) <==> (k != exclude.0 && count_running(
                            rr.take(i + 1),
                            WorkerId(k),
                        ) > 0) by {
                            if k != exclude.0 {
                                assert(WorkerId(k) != w);
                            }
                        }
                        assert forall|k: u128| #[trigger] counts@.contains_key(k) implies counts@[k] == count_running(
                            rr.take(i + 1),
                            WorkerId(k),
                        ) by {
                            assert(WorkerId(k) != w);
                        }
                    }
                }
            },
            _ => {},
        }
        i = i + 1;
    }
    proof {
        assert(rr.take(i as int) =~= rr);
    }
    counts
}

/// A `Running` row of `w` at position `j` makes its count positive.
pub proof fn lemma_count_includes(rr: Seq<(ContentId, WorkStateView)>, w: WorkerId, j: int)
    requires
        0 <= j < rr.len(),
        running_by(rr[j].1, w),
    ensures
        count_running(rr, w) > 0,
    decreases rr.len(),
{
    if j < rr.len() - 1 {
        assert(rr.drop_last()[j] == rr[j]);
        lemma_count_includes(rr.drop_last(), w, j);
    }
}

} // verus!

//! Coordinator-mediated work stealing with CAS-on-state dedup.
//!
//! An idle worker asks the coordinator for work; the coordinator picks the
//! busiest peer as victim and reassigns `ceil(victim_backlog / 2)` of its
//! `Running` items (capped at [`MAX_STEAL_BATCH`]) to the thief, in work-id
//! order. Each reassignment is a CAS `Running(victim) -> Pending` followed by
//! `Pending -> Running(thief)`, so an item the victim already acked is never
//! stolen, and a stolen item's late ack from the victim is refused.

use vstd::prelude::*;

use crate::ids::{bytes_lt, lemma_bytes_lt_irreflexive, ContentId, RunId, WorkerId};
use crate::ledger::{backlog, backlog_spec, busiest, count_running, is_busiest};
use crate::storage::{same_except_work, MemStorage};
use crate::work_item::{running_by, try_claim, try_repending, WorkItemRecord, WorkState, WorkStateView};
use crate::work_table::{lemma_run_records_members, lemma_run_records_sorted, rec_views, run_records, WorkEntry};

verus! {

/// Maximum items reassigned in a single steal. Bounds steal churn so a
/// single idle worker cannot drain a busy peer in one request.
pub const MAX_STEAL_BATCH: usize = 32;

/// Ids of the rows `Running` under `victim`, in listing order.
pub open spec fn victim_ids(rr: Seq<(ContentId, WorkStateView)>, victim: WorkerId) -> Seq<ContentId>
    decreases rr.len(),
{
    if rr.len() == 0 {
        Seq::empty()
    } else {
        let p = victim_ids(rr.drop_last(), victim);
        if running_by(rr.last().1, victim) {
            p.push(rr.last().0)
        } else {
            p
        }
    }
}

/// `ceil(b / 2)`, capped at `MAX_STEAL_BATCH`.
pub open spec fn steal_batch(b: nat) -> nat {
    let half = (b + 1) / 2;
    if half < MAX_STEAL_BATCH as nat {
        half
    } else {
        MAX_STEAL_BATCH as nat
    }
}

/// `m` with each listed item of `run` set to `Running(thief, now_ms)`.
pub open spec fn reassign(
    m: Map<(RunId, ContentId), WorkStateView>,
    run: RunId,
    ids: Seq<ContentId>,
    thief: WorkerId,
    now_ms: u128,
) -> Map<(RunId, ContentId), WorkStateView>
    decreases ids.len(),
{
    if ids.len() == 0 {
        m
    } else {
        reassign(m, run, ids.drop_last(), thief, now_ms).insert(
            (run, ids.last()),
            WorkStateView::Running { worker_id: thief, started_at_ms: now_ms },
        )
    }
}

/// The work ids a steal by `thief` reassigns, given the run's listing:
/// nothing if the thief is not idle or no peer has `Running` work; else the
/// first `steal_batch(backlog)` `Running` items of the busiest peer.
pub open spec fn steal_plan(rr: Seq<(ContentId, WorkStateView)>, thief: WorkerId) -> Seq<ContentId> {
    if count_running(rr, thief) > 0 {
        Seq::empty()
    } else if exists|w: WorkerId| is_busiest(rr, thief, w) {
        let victim = choose|w: WorkerId| is_busiest(rr, thief, w);
        victim_ids(rr, victim).take(steal_batch(count_running(rr, victim)) as int)
    } else {
        Seq::empty()
    }
}

/// At most one worker is the busiest.
pub proof fn lemma_busiest_unique(
    rr: Seq<(ContentId, WorkStateView)>,
    exclude: WorkerId,
    a: WorkerId,
    b: WorkerId,
)
    requires
        is_busiest(rr, exclude, a),
        is_busiest(rr, exclude, b),
    ensures
        a == b,
{
    assert(a.0 <= b.0 && b.0 <= a.0);
}

/// Handle a steal request from an idle `thief` in run `run_id`.
///
/// Returns the work ids actually reassigned to the thief, in work-id order:
/// 1. if the thief already holds `Running` items it is not idle — nothing;
/// 2. the victim is the busiest peer by `Running` backlog (none — nothing);
/// 3. the batch is `min(ceil(victim_backlog / 2), MAX_STEAL_BATCH)`;
/// 4. the first batch of the victim's `Running` items are moved to
///    `Running(thief, now_ms)` by CAS (`Running(victim) -> Pending ->
///    Running(thief)`).
pub fn handle_steal_request(store: &mut MemStorage, run_id: &RunId, thief: WorkerId, now_ms: u128) -> (r:
    Vec<ContentId>)
    requires
        old(store).wf(),
    ensures
        final(store).wf(),
        same_except_work(old(store), final(store)),
        r@ == steal_plan(run_records(old(store).work.entries(), *run_id), thief),
        final(store).work.view() == reassign(old(store).work.view(), *run_id, r@, thief, now_ms),
        r@.len() <= MAX_STEAL_BATCH,
        count_running(run_records(old(store).work.entries(), *run_id), thief) == 0 && (exists|w: WorkerId|
            w != thief && #[trigger] count_running(run_records(old(store).work.entries(), *run_id), w) > 0)
            ==> r@.len() > 0,
        forall|v: WorkerId|
            count_running(run_records(old(store).work.entries(), *run_id), thief) == 0 && #[trigger] is_busiest(
                run_records(old(store).work.entries(), *run_id),
                thief,
                v,
            ) ==> ({
                let b = count_running(run_records(old(store).work.entries(), *run_id), v);
                &&& 2 * r@.len() <= b + 1
                &&& r@.len() <= MAX_STEAL_BATCH
                &&& r@.len() == MAX_STEAL_BATCH || 2 * r@.len() >= b
            }),
{
    let ghost rr = run_records(store.work.entries(), *run_id);
    proof {
        law_steal_takes_half_capped(rr, thief);
    }
    let mut stolen: Vec<ContentId> = Vec::new();
    // 1. Guard: only idle thieves steal.
    if backlog(store, run_id, thief) > 0 {
        return stolen;
    }
    // 2. Victim = busiest peer.
    let (victim, victim_backlog) = match busiest(store, run_id, thief) {
        None => {
            proof {
                if exists|w: WorkerId| is_busiest(rr, thief, w) {
                    let w = choose|w: WorkerId| is_busiest(rr, thief, w);
                    assert(backlog_spec(store, *run_id, w) == 0);
                }
                if exists|w: WorkerId| w != thief && #[trigger] count_running(rr, w) > 0 {
                    let w = choose|w: WorkerId| w != thief && #[trigger] count_running(rr, w) > 0;
                    assert(backlog_spec(store, *run_id, w) == 0);
                }
            }
            return stolen;
        },
        Some(b) => b,
    };
    proof {
        let w = choose|w: WorkerId| is_busiest(rr, thief, w);
        lemma_busiest_unique(rr, thief, w, victim);
    }
    // 3. ceil(victim_backlog / 2), capped.
    let half = victim_backlog / 2 + victim_backlog % 2;
    let n = if half < MAX_STEAL_BATCH { half } else { MAX_STEAL_BATCH };
    assert(n == steal_batch(count_running(rr, victim)));
    if n == 0 {
        return stolen;
    }
    // 4. Reassign the first n of the victim's Running items, in id order.
    let rows = store.work.scan(*run_id);
    let ghost m0 = store.work.view();
    let ghost s0 = *store;
    proof {
        store.work.lemma_entries();
        lemma_run_records_members(store.work.entries(), *run_id);
        lemma_run_records_sorted(store.work.entries(), *run_id);
        assert(rec_views(rows@) == rr);
        assert forall|j: int| 0 <= j < rr.len() implies m0.contains_key((*run_id, #[trigger] rr[j].0))
            && m0[(*run_id, rr[j].0)] == rr[j].1 by {
            let jj = choose|jj: int|
                0 <= jj < store.work.entries().len() && store.work.entries()[jj] == (
                    *run_id,
                    #[trigger] rr[j].0,
                    rr[j].1,
                );
            assert(store.work.entries()[jj] == store.work.entries()[jj]);
        }
    }
    let mut i: usize = 0;
    while i < rows.len()
        invariant
            store.wf(),
            same_except_work(&s0, store),
            rr == rec_views(rows@),
            forall|a: int, b: int| 0 <= a < b < rr.len() ==> bytes_lt(rr[a].0.0@, rr[b].0.0@),
            forall|j: int| 0 <= j < rr.len() ==> m0.contains_key((*run_id, #[trigger] rr[j].0)) && m0[(
                *run_id,
                rr[j].0,
            )] == rr[j].1,
            i <= rows@.len(),
            n <= MAX_STEAL_BATCH,
            stolen@.len() <= n,
            stolen@.len() <= victim_ids(rr.take(i as int), victim).len(),
            stolen@ == victim_ids(rr.take(i as int), victim).take(stolen@.len() as int),
            stolen@.len() < n ==> stolen@ == victim_ids(rr.take(i as int), victim),
            store.work.view() == reassign(m0, *run_id, stolen@, thief, now_ms),
            forall|j: int|
                i <= j < rr.len() ==> store.work.view().contains_key((*run_id, #[trigger] rr[j].0))
                    && store.work.view()[(*run_id, rr[j].0)] == rr[j].1,
            forall|k: int|
                0 <= k < stolen@.len() ==> exists|j: int| 0 <= j < i && #[trigger] stolen@[k] == rr[j].0,
        decreases rows@.len() - i,
    {
        proof {
            assert(rr[i as int] == (rows@[i as int].id, rows@[i as int].state@));
            let t = rr.take(i + 1);
            assert(t.drop_last() =~= rr.take(i as int));
            assert(t.last() == rr[i as int]);
        }
        if stolen.len() < n && rows[i].state.is_running_by(victim) {
            let ghost before = stolen@;
            proof {
                assert(rr[i as int].0 == rows@[i as int].id);
                assert(store.work.view().contains_key((*run_id, rr[i as int].0)));
                assert(store.work.view()[(*run_id, rows@[i as int].id)] == rows@[i as int].state@);
                assert(rows@[i as int].state@ is Running);
            }
            // Running(victim) -> Pending.
            let repended = try_repending(store, run_id, &rows[i]);
            assert(repended);
            // Pending -> Running(thief).
            let pending = WorkItemRecord { id: rows[i].id, state: WorkState::Pending };
            let claimed = try_claim(store, run_id, &pending, thief, now_ms);
            assert(claimed);
            stolen.push(rows[i].id);
            proof {
                let id = rows@[i as int].id;
                assert(stolen@.drop_last() =~= before);
                assert(stolen@.last() == id);
                assert(store.work.view() =~= reassign(m0, *run_id, stolen@, thief, now_ms));
                assert(victim_ids(rr.take(i + 1), victim) == victim_ids(rr.take(i as int), victim).push(id));
                assert(stolen@ =~= victim_ids(rr.take(i + 1), victim).take(stolen@.len() as int));
                assert forall|j: int|
                    i + 1 <= j < rr.len() implies store.work.view().contains_key((*run_id, #[trigger] rr[j].0))
                        && store.work.view()[(*run_id, rr[j].0)] == rr[j].1 by {
                    assert(bytes_lt(rr[i as int].0.0@, rr[j].0.0@));
                    if rr[j].0 == id {
                        lemma_bytes_lt_irreflexive(id.0@);
                    }
                }
                assert forall|k: int|
                    0 <= k < stolen@.len() implies exists|j: int| 0 <= j < i + 1 && #[trigger] stolen@[k] == rr[j].0 by {
                    if k < before.len() {
                        assert(stolen@[k] == before[k]);
                    } else {
                        assert(stolen@[k] == rr[i as int].0);
                    }
                }
            }
        } else {
            proof {
                if !running_by(rr[i as int].1, victim) {
                    assert(victim_ids(rr.take(i + 1), victim) == victim_ids(rr.take(i as int), victim));
                } else {
                    let v = victim_ids(rr.take(i as int), victim);
                    assert(victim_ids(rr.take(i + 1), victim) == v.push(rr[i as int].0));
                    assert(stolen@.len() == n);
                    assert(v.push(rr[i as int].0).take(stolen@.len() as int) =~= v.take(
                        stolen@.len() as int,
                    ));
                }
                assert forall|j: int|
                    i + 1 <= j < rr.len() implies store.work.view().contains_key((*run_id, #[trigger] rr[j].0))
                        && store.work.view()[(*run_id, rr[j].0)] == rr[j].1 by {}
            }
        }
        i = i + 1;
    }
    proof {
        assert(rr.take(i as int) =~= rr);
        let v = victim_ids(rr, victim);
        lemma_victim_ids_len(rr, victim);
        if stolen@.len() < n {
            assert(stolen@ == v);
            assert(v.len() == count_running(rr, victim));
            assert(v.take(n as int) =~= v);
        }
        law_steal_takes_half_capped(rr, thief);
    }
    stolen
}

/// An idle thief takes half the busiest peer's backlog, rounded up and
/// capped at `MAX_STEAL_BATCH`: neither bound is exceeded, and the steal
/// falls short of half the backlog only where the cap binds.
pub proof fn law_steal_takes_half_capped(rr: Seq<(ContentId, WorkStateView)>, thief: WorkerId)
    ensures
        forall|v: WorkerId|
            count_running(rr, thief) == 0 && #[trigger] is_busiest(rr, thief, v) ==> ({
                let n = steal_plan(rr, thief).len();
                let b = count_running(rr, v);
                &&& 2 * n <= b + 1
                &&& n <= MAX_STEAL_BATCH
                &&& n == MAX_STEAL_BATCH || 2 * n >= b
            }),
{
    assert forall|v: WorkerId| count_running(rr, thief) == 0 && #[trigger] is_busiest(rr, thief, v) implies ({
        let n = steal_plan(rr, thief).len();
        let b = count_running(rr, v);
        &&& 2 * n <= b + 1
        &&& n <= MAX_STEAL_BATCH
        &&& n == MAX_STEAL_BATCH || 2 * n >= b
    }) by {
        let victim = choose|w: WorkerId| is_busiest(rr, thief, w);
        lemma_busiest_unique(rr, thief, victim, v);
        lemma_victim_ids_len(rr, v);
        let b = count_running(rr, v);
        assert(steal_batch(b) <= b);
        assert(steal_plan(rr, thief).len() == steal_batch(b));
    }
}

/// The victim listing has exactly as many ids as the victim's backlog.
pub proof fn lemma_victim_ids_len(rr: Seq<(ContentId, WorkStateView)>, victim: WorkerId)
    ensures
        victim_ids(rr, victim).len() == count_running(rr, victim),
    decreases rr.len(),
{
    if rr.len() > 0 {
        lemma_victim_ids_len(rr.drop_last(), victim);
    }
}

} // verus!

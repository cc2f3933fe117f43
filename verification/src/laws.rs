//! Properties that span several operations of the coordinator: the
//! single-winner CAS discipline of the work ledger, lease exclusion and
//! epoch fencing, the worker-side epoch guard, and FIFO dispatch.
//!
//! Each law is stated over the spec functions that the operations' own
//! contracts use, so it applies to every sequence of calls those contracts
//! describe.

use vstd::prelude::*;

use crate::config::{coordinator_violations, renew_cadence_violation, CoordinatorConfig};
use crate::drain::{takes_snapshot, SnapshotPlan};
use crate::epoch::guard_after;
use crate::failure_scan::{failed_at, newly_failed, scan_all, worker_texts};
use crate::registry::HeartbeatRecord;
use crate::ids::{ContentId, RunId, WorkerId};
use crate::lease::{acquire_next, renew_wins, renewed, CoordEpoch, LeaseRecord};
use crate::ledger::{count_running, has_entry, is_busiest, is_front};
use crate::steal::{lemma_victim_ids_len, reassign, steal_batch, steal_plan, victim_ids, MAX_STEAL_BATCH};
use crate::work_table::{lemma_run_records_members, run_records, WorkTable};
use crate::work_item::{
    claim_after, claim_wins, complete_after, holds, release_wins, repend_after, running_by,
    WorkItemRecord, WorkStateView,
};

verus! {

/// Two claims against the same observed `Pending` record never both win:
/// whichever goes first, the second finds the row `Running` and loses.
pub proof fn law_claim_single_winner(
    m: Map<(RunId, ContentId), WorkStateView>,
    run: RunId,
    rec: WorkItemRecord,
    w1: WorkerId,
    t1: u128,
)
    ensures
        !(claim_wins(m, run, rec) && claim_wins(claim_after(m, run, rec, w1, t1), run, rec)),
        claim_wins(m, run, rec) ==> running_by(claim_after(m, run, rec, w1, t1)[(run, rec.id)], w1),
        !claim_wins(m, run, rec) ==> claim_after(m, run, rec, w1, t1) == m,
{
}

/// A claim wins exactly when the record it names is `Pending` and is still
/// the row's state; the winner's row becomes `Running` under the claimer at
/// the claim time, and a losing claim changes nothing. So a record that is
/// `Running`, `Done` or `Failed` is never claimed.
pub proof fn law_claim_only_from_pending(
    m: Map<(RunId, ContentId), WorkStateView>,
    run: RunId,
    rec: WorkItemRecord,
    w: WorkerId,
    t: u128,
)
    ensures
        claim_wins(m, run, rec) <==> (rec.state@ is Pending && m.contains_key((run, rec.id)) && m[(run, rec.id)]
            == rec.state@),
        !(rec.state@ is Pending) ==> !claim_wins(m, run, rec) && claim_after(m, run, rec, w, t) == m,
        claim_wins(m, run, rec) ==> claim_after(m, run, rec, w, t) == m.insert(
            (run, rec.id),
            WorkStateView::Running { worker_id: w, started_at_ms: t },
        ),
        !claim_wins(m, run, rec) ==> claim_after(m, run, rec, w, t) == m,
{
}

/// An ack or a re-pend wins exactly when the record it names is `Running`
/// and is still the row's state; the ack leaves the row `Done` with its
/// result, the re-pend leaves it `Pending`, and a losing one changes
/// nothing. So a `Pending`, `Done` or `Failed` record is never acked or
/// re-pended.
pub proof fn law_release_only_from_running(
    m: Map<(RunId, ContentId), WorkStateView>,
    run: RunId,
    rec: WorkItemRecord,
    result_id: ContentId,
)
    ensures
        release_wins(m, run, rec) <==> (rec.state@ is Running && m.contains_key((run, rec.id)) && m[(run, rec.id)]
            == rec.state@),
        !(rec.state@ is Running) ==> complete_after(m, run, rec, result_id) == m && repend_after(m, run, rec) == m,
        release_wins(m, run, rec) ==> complete_after(m, run, rec, result_id) == m.insert(
            (run, rec.id),
            WorkStateView::Done { result_id },
        ) && repend_after(m, run, rec) == m.insert((run, rec.id), WorkStateView::Pending),
        !release_wins(m, run, rec) ==> complete_after(m, run, rec, result_id) == m && repend_after(m, run, rec) == m,
{
}

/// An ack (`Running -> Done`) and a steal's re-pend (`Running -> Pending`)
/// racing on the same `Running` record: in either order at most one wins.
pub proof fn law_ack_and_repend_at_most_one(
    m: Map<(RunId, ContentId), WorkStateView>,
    run: RunId,
    rec: WorkItemRecord,
    result_id: ContentId,
)
    ensures
        !(release_wins(m, run, rec) && release_wins(complete_after(m, run, rec, result_id), run, rec)),
        !(release_wins(m, run, rec) && release_wins(repend_after(m, run, rec), run, rec)),
{
}

/// When the raced record is the row's current `Running` state, exactly one
/// of {ack, re-pend} wins, and the row ends in the winner's state: `Done`
/// if the ack went first, `Pending` if the re-pend did.
pub proof fn law_ack_and_repend_exactly_one(
    m: Map<(RunId, ContentId), WorkStateView>,
    run: RunId,
    rec: WorkItemRecord,
    result_id: ContentId,
)
    requires
        rec.state@ is Running,
        holds(m, run, rec),
    ensures
        release_wins(m, run, rec),
        !release_wins(complete_after(m, run, rec, result_id), run, rec),
        complete_after(repend_after(m, run, rec), run, rec, result_id)[(run, rec.id)] is Pending,
        !release_wins(repend_after(m, run, rec), run, rec),
        repend_after(complete_after(m, run, rec, result_id), run, rec)[(run, rec.id)] == (WorkStateView::Done {
            result_id,
        }),
{
}

/// A replayed ack of the same `Running` record applies at most once: the
/// second finds the row `Done` and leaves the ledger as the first left it.
pub proof fn law_ack_applies_once(
    m: Map<(RunId, ContentId), WorkStateView>,
    run: RunId,
    rec: WorkItemRecord,
    r1: ContentId,
    r2: ContentId,
)
    ensures
        release_wins(m, run, rec) ==> !release_wins(complete_after(m, run, rec, r1), run, rec),
        complete_after(complete_after(m, run, rec, r1), run, rec, r2) == complete_after(m, run, rec, r1),
{
}

/// Re-pending an item whose row is already `Done` is a no-op.
pub proof fn law_repend_of_done_is_noop(
    m: Map<(RunId, ContentId), WorkStateView>,
    run: RunId,
    rec: WorkItemRecord,
)
    requires
        m.contains_key((run, rec.id)),
        m[(run, rec.id)] is Done,
    ensures
        !release_wins(m, run, rec),
        repend_after(m, run, rec) == m,
{
}

/// Lease exclusion: while the lease that `a` just acquired is live, an
/// acquire by anyone (`b`) gets `None`.
pub proof fn law_lease_exclusion(
    cur: Option<LeaseRecord>,
    a: WorkerId,
    ttl_a: u128,
    now_a: u128,
    b: WorkerId,
    ttl_b: u128,
    now_b: u128,
)
    requires
        acquire_next(cur, a, ttl_a, now_a) is Some,
        now_a + ttl_a <= u128::MAX,
        now_b <= now_a + ttl_a,
    ensures
        acquire_next(acquire_next(cur, a, ttl_a, now_a), b, ttl_b, now_b) is None,
{
}

/// A fresh lease starts at epoch 0; acquiring over an existing row (only
/// possible once it expired) advances the epoch by exactly one, so the
/// epoch never goes backwards across holders.
pub proof fn law_lease_epoch_advances(
    cur: Option<LeaseRecord>,
    me: WorkerId,
    ttl: u128,
    now: u128,
)
    requires
        acquire_next(cur, me, ttl, now) is Some,
        cur is Some ==> cur->0.epoch.0 < u64::MAX,
    ensures
        acquire_next(cur, me, ttl, now)->0.holder == me,
        cur is None ==> acquire_next(cur, me, ttl, now)->0.epoch.0 == 0,
        cur is Some ==> now > cur->0.expires_at_ms && acquire_next(cur, me, ttl, now)->0.epoch.0 == cur->0.epoch.0
            + 1,
{
}

/// Fencing: once `b` has taken over an expired lease, the deposed holder's
/// renewal of its old record loses (the epoch moved under it).
pub proof fn law_deposed_renew_fails(held: LeaseRecord, b: WorkerId, ttl: u128, now: u128)
    requires
        now > held.expires_at_ms,
        held.epoch.0 < u64::MAX,
    ensures
        !renew_wins(acquire_next(Some(held), b, ttl, now), held),
{
}

/// Renewal never changes the epoch or the holder, and the renewed lease
/// keeps others out until its new expiry.
pub proof fn law_renew_keeps_epoch(
    held: LeaseRecord,
    ttl: u128,
    now: u128,
    other: WorkerId,
    ttl_o: u128,
    now_o: u128,
)
    requires
        now + ttl <= u128::MAX,
        now_o <= now + ttl,
    ensures
        renewed(held, ttl, now).epoch == held.epoch,
        renewed(held, ttl, now).holder == held.holder,
        acquire_next(Some(renewed(held, ttl, now)), other, ttl_o, now_o) is None,
{
}

/// Split-brain safety: once a worker's guard has accepted the epoch of the
/// coordinator that took over an expired lease, every response stamped
/// with the deposed holder's epoch is stale to that guard.
pub proof fn law_deposed_epoch_is_stale(old: LeaseRecord, b: WorkerId, ttl: u128, now: u128, seen: CoordEpoch)
    requires
        now > old.expires_at_ms,
        old.epoch.0 < u64::MAX,
    ensures
        acquire_next(Some(old), b, ttl, now) matches Some(n) && old.epoch.0 < guard_after(seen, n.epoch).0,
{
}

/// The epoch guard's high-water mark never decreases, and after offering
/// `e` it is the larger of the old mark and `e`.
pub proof fn law_guard_monotonic(seen: CoordEpoch, e: CoordEpoch)
    ensures
        guard_after(seen, e).0 >= seen.0,
        guard_after(seen, e).0 >= e.0,
        guard_after(seen, e) == seen || guard_after(seen, e) == e,
{
}

/// The guard's mark after offering every epoch of `es` in order.
pub open spec fn guard_after_all(seen: CoordEpoch, es: Seq<CoordEpoch>) -> CoordEpoch
    decreases es.len(),
{
    if es.len() == 0 {
        seen
    } else {
        guard_after(guard_after_all(seen, es.drop_last()), es.last())
    }
}

/// After any sequence of offered epochs the guard holds their maximum
/// (or its starting mark, if that is larger).
pub proof fn law_guard_holds_maximum(seen: CoordEpoch, es: Seq<CoordEpoch>)
    ensures
        guard_after_all(seen, es).0 >= seen.0,
        forall|i: int| 0 <= i < es.len() ==> guard_after_all(seen, es).0 >= (#[trigger] es[i]).0,
        guard_after_all(seen, es) == seen || exists|i: int|
            0 <= i < es.len() && guard_after_all(seen, es) == #[trigger] es[i],
    decreases es.len(),
{
    if es.len() > 0 {
        let p = es.drop_last();
        law_guard_holds_maximum(seen, p);
        let g = guard_after_all(seen, p);
        assert forall|i: int| 0 <= i < es.len() implies guard_after_all(seen, es).0 >= (#[trigger] es[i]).0 by {
            if i < es.len() - 1 {
                assert(es[i] == p[i]);
            }
        }
        if guard_after_all(seen, es) != seen {
            if guard_after_all(seen, es) == es.last() {
                assert(guard_after_all(seen, es) == es[es.len() - 1]);
            } else {
                assert(g != seen);
                let i = choose|i: int| 0 <= i < p.len() && g == #[trigger] p[i];
                assert(guard_after_all(seen, es) == es[i]);
            }
        }
    }
}

/// FIFO enqueue: appending under a sequence number above every queued one
/// makes it the run's front only when the run had nothing queued, and
/// otherwise leaves the front where it was.
pub proof fn law_enqueue_keeps_front(
    q: Map<u128, (RunId, Seq<u8>)>,
    run: RunId,
    n: u128,
    payload: Seq<u8>,
    s: u128,
)
    requires
        forall|k: u128| #[trigger] q.contains_key(k) ==> k < n,
    ensures
        !has_entry(q, run) ==> is_front(q.insert(n, (run, payload)), run, n),
        is_front(q, run, s) ==> is_front(q.insert(n, (run, payload)), run, s),
{
    let q2 = q.insert(n, (run, payload));
    if !has_entry(q, run) {
        assert forall|k: u128| #[trigger] q2.contains_key(k) && q2[k].0 == run implies n <= k by {
            if k != n {
                assert(q.contains_key(k) && q[k].0 == run);
            }
        }
    }
    if is_front(q, run, s) {
        assert forall|k: u128| #[trigger] q2.contains_key(k) && q2[k].0 == run implies s <= k by {
            if k != n {
                assert(q.contains_key(k) && q[k].0 == run);
            }
        }
    }
}

/// FIFO dispatch: after the front entry of a run is taken, the next front
/// has a strictly later sequence number.
pub proof fn law_dispatch_in_order(q: Map<u128, (RunId, Seq<u8>)>, run: RunId, s1: u128, s2: u128)
    requires
        is_front(q, run, s1),
        is_front(q.remove(s1), run, s2),
    ensures
        s1 < s2,
{
    assert(q.contains_key(s2) && q[s2].0 == run);
}

/// Whether `rr` lists `id` as running under `v`.
pub open spec fn listed_running(rr: Seq<(ContentId, WorkStateView)>, id: ContentId, v: WorkerId) -> bool {
    exists|j: int| 0 <= j < rr.len() && rr[j].0 == id && running_by(#[trigger] rr[j].1, v)
}

/// Every id the victim listing yields is a row of `rr` running under `v`.
proof fn lemma_victim_ids_members(rr: Seq<(ContentId, WorkStateView)>, v: WorkerId)
    ensures
        forall|i: int| 0 <= i < victim_ids(rr, v).len() ==> listed_running(rr, #[trigger] victim_ids(rr, v)[i], v),
    decreases rr.len(),
{
    if rr.len() > 0 {
        let p = rr.drop_last();
        lemma_victim_ids_members(p, v);
        assert forall|i: int| 0 <= i < victim_ids(rr, v).len() implies listed_running(
            rr,
            #[trigger] victim_ids(rr, v)[i],
            v,
        ) by {
            if i < victim_ids(p, v).len() {
                assert(listed_running(p, victim_ids(p, v)[i], v));
                let j = choose|j: int| 0 <= j < p.len() && p[j].0 == victim_ids(p, v)[i] && running_by(#[trigger] p[j].1, v);
                assert(rr[j] == p[j]);
            } else {
                assert(rr[rr.len() - 1] == rr.last());
            }
        }
    }
}

/// Work stealing takes nothing for a thief that still has work, never more
/// than half (rounded up) of the busiest peer's backlog nor more than the
/// batch cap, and only items that this peer is running.
pub proof fn law_steal_bounded(rr: Seq<(ContentId, WorkStateView)>, thief: WorkerId)
    ensures
        steal_plan(rr, thief).len() <= MAX_STEAL_BATCH,
        count_running(rr, thief) > 0 ==> steal_plan(rr, thief).len() == 0,
        steal_plan(rr, thief).len() > 0 ==> exists|v: WorkerId|
            #[trigger] is_busiest(rr, thief, v) && steal_plan(rr, thief).len() <= steal_batch(count_running(rr, v))
                && forall|i: int|
                0 <= i < steal_plan(rr, thief).len() ==> listed_running(rr, #[trigger] steal_plan(rr, thief)[i], v),
{
    let plan = steal_plan(rr, thief);
    if count_running(rr, thief) == 0 && exists|w: WorkerId| is_busiest(rr, thief, w) {
        let v = choose|w: WorkerId| is_busiest(rr, thief, w);
        lemma_victim_ids_len(rr, v);
        lemma_victim_ids_members(rr, v);
        let vids = victim_ids(rr, v);
        assert(plan == vids.take(steal_batch(count_running(rr, v)) as int));
        assert forall|i: int| 0 <= i < plan.len() implies listed_running(rr, #[trigger] plan[i], v) by {
            assert(plan[i] == vids[i]);
        }
        assert(steal_batch(count_running(rr, v)) <= count_running(rr, v));
        assert(is_busiest(rr, thief, v));
    }
}

/// A scan reports only records that are failed at the scan time and whose
/// worker was not reported before, each a record of the scanned ledger.
pub proof fn law_scan_reports_only_failed(
    recs: Seq<HeartbeatRecord>,
    seen: Seq<Seq<char>>,
    now_ms: u128,
    skew_ms: u128,
    timeout_ms: u128,
)
    ensures
        forall|i: int|
            0 <= i < newly_failed(recs, seen, now_ms, skew_ms, timeout_ms).0.len() ==> {
                let r = #[trigger] newly_failed(recs, seen, now_ms, skew_ms, timeout_ms).0[i];
                &&& failed_at(now_ms, r.due_at_ms, skew_ms, timeout_ms)
                &&& !seen.contains(r.worker_id@)
                &&& recs.contains(r)
            },
    decreases recs.len(),
{
    if recs.len() > 0 {
        let p = recs.drop_last();
        law_scan_reports_only_failed(p, seen, now_ms, skew_ms, timeout_ms);
        law_scan_remembers(p, seen, now_ms, skew_ms, timeout_ms);
        let (out0, s0) = newly_failed(p, seen, now_ms, skew_ms, timeout_ms);
        let out = newly_failed(recs, seen, now_ms, skew_ms, timeout_ms).0;
        assert forall|i: int| 0 <= i < out.len() implies {
            let r = #[trigger] out[i];
            &&& failed_at(now_ms, r.due_at_ms, skew_ms, timeout_ms)
            &&& !seen.contains(r.worker_id@)
            &&& recs.contains(r)
        } by {
            if i < out0.len() {
                assert(out[i] == out0[i]);
                let k = choose|k: int| 0 <= k < p.len() && p[k] == out0[i];
                assert(recs[k] == p[k]);
            } else {
                assert(out[i] == recs.last());
                assert(recs[recs.len() - 1] == recs.last());
                if seen.contains(recs.last().worker_id@) {
                    let k = choose|k: int| 0 <= k < seen.len() && seen[k] == recs.last().worker_id@;
                    assert(s0.contains(seen[k]));
                }
            }
        }
    }
}

/// The reported set only grows, and after a scan it holds the worker of
/// every record that was failed at the scan time.
pub proof fn law_scan_remembers(
    recs: Seq<HeartbeatRecord>,
    seen: Seq<Seq<char>>,
    now_ms: u128,
    skew_ms: u128,
    timeout_ms: u128,
)
    ensures
        forall|x: Seq<char>| seen.contains(x) ==> #[trigger] newly_failed(recs, seen, now_ms, skew_ms, timeout_ms).1.contains(x),
        forall|j: int|
            0 <= j < recs.len() && failed_at(now_ms, (#[trigger] recs[j]).due_at_ms, skew_ms, timeout_ms)
                ==> newly_failed(recs, seen, now_ms, skew_ms, timeout_ms).1.contains(recs[j].worker_id@),
    decreases recs.len(),
{
    if recs.len() > 0 {
        let p = recs.drop_last();
        law_scan_remembers(p, seen, now_ms, skew_ms, timeout_ms);
        let s0 = newly_failed(p, seen, now_ms, skew_ms, timeout_ms).1;
        let s1 = newly_failed(recs, seen, now_ms, skew_ms, timeout_ms).1;
        assert forall|x: Seq<char>| s0.contains(x) implies s1.contains(x) by {
            let k = choose|k: int| 0 <= k < s0.len() && s0[k] == x;
            if s1 != s0 {
                assert(s1 == s0.push(recs.last().worker_id@));
                assert(s1[k] == x);
            }
        }
        assert forall|j: int|
            0 <= j < recs.len() && failed_at(now_ms, (#[trigger] recs[j]).due_at_ms, skew_ms, timeout_ms) implies s1.contains(
            recs[j].worker_id@,
        ) by {
            if j < recs.len() - 1 {
                assert(recs[j] == p[j]);
                assert(s0.contains(p[j].worker_id@));
            } else {
                assert(recs[j] == recs.last());
                if !s0.contains(recs.last().worker_id@) {
                    assert(s1 == s0.push(recs.last().worker_id@));
                    assert(s1[s0.len() as int] == recs.last().worker_id@);
                }
            }
        }
    }
}

/// Scanning records whose failed workers are all already reported reports
/// nothing and leaves the reported set unchanged.
proof fn lemma_scan_quiet(
    recs: Seq<HeartbeatRecord>,
    seen: Seq<Seq<char>>,
    now_ms: u128,
    skew_ms: u128,
    timeout_ms: u128,
)
    requires
        forall|j: int|
            0 <= j < recs.len() && failed_at(now_ms, (#[trigger] recs[j]).due_at_ms, skew_ms, timeout_ms)
                ==> seen.contains(recs[j].worker_id@),
    ensures
        newly_failed(recs, seen, now_ms, skew_ms, timeout_ms).0.len() == 0,
        newly_failed(recs, seen, now_ms, skew_ms, timeout_ms).1 == seen,
    decreases recs.len(),
{
    if recs.len() > 0 {
        let p = recs.drop_last();
        assert forall|j: int|
            0 <= j < p.len() && failed_at(now_ms, (#[trigger] p[j]).due_at_ms, skew_ms, timeout_ms) implies seen.contains(
            p[j].worker_id@,
        ) by {
            assert(p[j] == recs[j]);
        }
        lemma_scan_quiet(p, seen, now_ms, skew_ms, timeout_ms);
        assert(recs[recs.len() - 1] == recs.last());
    }
}

/// A failed worker is reported once: scanning the same ledger again at the
/// same time, with the reported set the first scan left, reports nothing.
pub proof fn law_scan_reports_once(
    recs: Seq<HeartbeatRecord>,
    seen: Seq<Seq<char>>,
    now_ms: u128,
    skew_ms: u128,
    timeout_ms: u128,
)
    ensures
        newly_failed(recs, newly_failed(recs, seen, now_ms, skew_ms, timeout_ms).1, now_ms, skew_ms, timeout_ms).0.len()
            == 0,
{
    law_scan_remembers(recs, seen, now_ms, skew_ms, timeout_ms);
    lemma_scan_quiet(recs, newly_failed(recs, seen, now_ms, skew_ms, timeout_ms).1, now_ms, skew_ms, timeout_ms);
}

/// One scan appends exactly the reported workers to the reported set, each
/// reported once and none already reported.
proof fn lemma_scan_appends(
    recs: Seq<HeartbeatRecord>,
    seen: Seq<Seq<char>>,
    now_ms: u128,
    skew_ms: u128,
    timeout_ms: u128,
)
    ensures
        ({
            let (out, s) = newly_failed(recs, seen, now_ms, skew_ms, timeout_ms);
            &&& s == seen + worker_texts(out)
            &&& forall|i: int, j: int| 0 <= i < j < out.len() ==> out[i].worker_id@ != out[j].worker_id@
            &&& forall|i: int| 0 <= i < out.len() ==> !seen.contains(#[trigger] out[i].worker_id@)
        }),
    decreases recs.len(),
{
    if recs.len() > 0 {
        let p = recs.drop_last();
        lemma_scan_appends(p, seen, now_ms, skew_ms, timeout_ms);
        let (out0, s0) = newly_failed(p, seen, now_ms, skew_ms, timeout_ms);
        let (out, s) = newly_failed(recs, seen, now_ms, skew_ms, timeout_ms);
        let r = recs.last();
        if failed_at(now_ms, r.due_at_ms, skew_ms, timeout_ms) && !s0.contains(r.worker_id@) {
            assert(worker_texts(out) =~= worker_texts(out0).push(r.worker_id@));
            assert(s =~= seen + worker_texts(out));
            assert forall|i: int| 0 <= i < out0.len() implies out0[i].worker_id@ != r.worker_id@ by {
                assert(s0[seen.len() + i] == worker_texts(out0)[i]);
            }
            assert forall|i: int| 0 <= i < out.len() implies !seen.contains(#[trigger] out[i].worker_id@) by {
                if i == out0.len() {
                    if seen.contains(r.worker_id@) {
                        let k = choose|k: int| 0 <= k < seen.len() && seen[k] == r.worker_id@;
                        assert(s0[k] == seen[k]);
                    }
                } else {
                    assert(out[i] == out0[i]);
                }
            }
        }
    }
}

/// Over any sequence of scans that hand the reported set on from one to
/// the next, each worker is reported at most once: the reported records
/// name pairwise distinct workers, none of them reported before the first
/// scan, and the reported set is the initial one followed by those workers.
pub proof fn law_scans_report_each_worker_once(
    scans: Seq<(Seq<HeartbeatRecord>, u128)>,
    seen: Seq<Seq<char>>,
    skew_ms: u128,
    timeout_ms: u128,
)
    ensures
        ({
            let (out, s) = scan_all(scans, seen, skew_ms, timeout_ms);
            &&& s == seen + worker_texts(out)
            &&& forall|i: int, j: int| 0 <= i < j < out.len() ==> out[i].worker_id@ != out[j].worker_id@
            &&& forall|i: int| 0 <= i < out.len() ==> !seen.contains(#[trigger] out[i].worker_id@)
        }),
    decreases scans.len(),
{
    if scans.len() > 0 {
        let p = scans.drop_last();
        law_scans_report_each_worker_once(p, seen, skew_ms, timeout_ms);
        let (out0, s0) = scan_all(p, seen, skew_ms, timeout_ms);
        let (recs, now_ms) = scans.last();
        lemma_scan_appends(recs, s0, now_ms, skew_ms, timeout_ms);
        let (o2, s2) = newly_failed(recs, s0, now_ms, skew_ms, timeout_ms);
        let out = out0 + o2;
        assert(worker_texts(out) =~= worker_texts(out0) + worker_texts(o2));
        assert(s2 =~= seen + worker_texts(out));
        assert forall|i: int| 0 <= i < out.len() implies !seen.contains(#[trigger] out[i].worker_id@) by {
            if i >= out0.len() {
                assert(out[i] == o2[i - out0.len()]);
                if seen.contains(out[i].worker_id@) {
                    let k = choose|k: int| 0 <= k < seen.len() && seen[k] == out[i].worker_id@;
                    assert(s0[k] == seen[k]);
                }
            } else {
                assert(out[i] == out0[i]);
            }
        }
        assert forall|i: int, j: int| 0 <= i < j < out.len() implies out[i].worker_id@ != out[j].worker_id@ by {
            if j < out0.len() {
                assert(out[i] == out0[i] && out[j] == out0[j]);
            } else if i >= out0.len() {
                assert(out[i] == o2[i - out0.len()] && out[j] == o2[j - out0.len()]);
            } else {
                assert(out[i] == out0[i] && out[j] == o2[j - out0.len()]);
                assert(s0[seen.len() + i] == worker_texts(out0)[i]);
                assert(s0.contains(out0[i].worker_id@));
            }
        }
    }
}

/// What reassigning `ids` to `thief` does to a ledger map: the listed rows
/// become `Running(thief, now_ms)`; every other row is unchanged.
proof fn lemma_reassign_effect(
    m: Map<(RunId, ContentId), WorkStateView>,
    run: RunId,
    ids: Seq<ContentId>,
    thief: WorkerId,
    now_ms: u128,
)
    ensures
        forall|k: (RunId, ContentId)|
            #[trigger] reassign(m, run, ids, thief, now_ms).contains_key(k) <==> m.contains_key(k) || (k.0 == run
                && ids.contains(k.1)),
        forall|i: int|
            0 <= i < ids.len() ==> reassign(m, run, ids, thief, now_ms)[(run, #[trigger] ids[i])] == (
            WorkStateView::Running { worker_id: thief, started_at_ms: now_ms }),
        forall|k: (RunId, ContentId)|
            #[trigger] m.contains_key(k) && !(k.0 == run && ids.contains(k.1)) ==> reassign(
                m,
                run,
                ids,
                thief,
                now_ms,
            )[k] == m[k],
    decreases ids.len(),
{
    if ids.len() > 0 {
        let p = ids.drop_last();
        lemma_reassign_effect(m, run, p, thief, now_ms);
        let m1 = reassign(m, run, p, thief, now_ms);
        let m2 = reassign(m, run, ids, thief, now_ms);
        assert forall|k: (RunId, ContentId)| #[trigger] m2.contains_key(k) <==> m.contains_key(k) || (k.0 == run
            && ids.contains(k.1)) by {
            if k.0 == run && ids.contains(k.1) && k != (run, ids.last()) {
                let i = choose|i: int| 0 <= i < ids.len() && ids[i] == k.1;
                assert(i < ids.len() - 1);
                assert(p[i] == k.1);
                assert(p.contains(k.1));
            }
            if k.0 == run && p.contains(k.1) {
                let i = choose|i: int| 0 <= i < p.len() && p[i] == k.1;
                assert(ids[i] == k.1);
            }
        }
        assert forall|i: int| 0 <= i < ids.len() implies m2[(run, #[trigger] ids[i])] == (WorkStateView::Running {
            worker_id: thief,
            started_at_ms: now_ms,
        }) by {
            if i < ids.len() - 1 {
                assert(ids[i] == p[i]);
            }
        }
        assert forall|k: (RunId, ContentId)| #[trigger] m.contains_key(k) && !(k.0 == run && ids.contains(k.1))
            implies m2[k] == m[k] by {
            if k.0 == run && p.contains(k.1) {
                let i = choose|i: int| 0 <= i < p.len() && p[i] == k.1;
                assert(ids[i] == k.1);
            }
            assert(k != (run, ids.last()));
        }
    }
}

/// A steal moves exactly the stolen items: each was running under the
/// busiest peer and is now `Running` under the thief; every other row of
/// the ledger, of this run or any other, is unchanged, and no row is added
/// or removed.
pub proof fn law_steal_moves_only_stolen(t: WorkTable, run: RunId, thief: WorkerId, now_ms: u128)
    requires
        t.wf(),
    ensures
        ({
            let rr = run_records(t.entries(), run);
            let plan = steal_plan(rr, thief);
            let m = t.view();
            let m2 = reassign(m, run, plan, thief, now_ms);
            &&& m2.dom() == m.dom()
            &&& forall|i: int|
                0 <= i < plan.len() ==> m2[(run, #[trigger] plan[i])] == (WorkStateView::Running {
                    worker_id: thief,
                    started_at_ms: now_ms,
                })
            &&& plan.len() > 0 ==> exists|v: WorkerId|
                #[trigger] is_busiest(rr, thief, v) && forall|i: int|
                    0 <= i < plan.len() ==> running_by(m[(run, #[trigger] plan[i])], v)
            &&& forall|k: (RunId, ContentId)|
                #[trigger] m.contains_key(k) && !(k.0 == run && plan.contains(k.1)) ==> m2[k] == m[k]
        }),
{
    let rr = run_records(t.entries(), run);
    let plan = steal_plan(rr, thief);
    let m = t.view();
    let m2 = reassign(m, run, plan, thief, now_ms);
    lemma_reassign_effect(m, run, plan, thief, now_ms);
    law_steal_bounded(rr, thief);
    t.lemma_entries();
    lemma_run_records_members(t.entries(), run);
    if plan.len() > 0 {
        let v = choose|v: WorkerId|
            #[trigger] is_busiest(rr, thief, v) && steal_plan(rr, thief).len() <= steal_batch(count_running(rr, v))
                && forall|i: int|
                0 <= i < steal_plan(rr, thief).len() ==> listed_running(rr, #[trigger] steal_plan(rr, thief)[i], v);
        assert forall|i: int| 0 <= i < plan.len() implies m.contains_key((run, #[trigger] plan[i])) && running_by(
            m[(run, plan[i])],
            v,
        ) by {
            assert(listed_running(rr, plan[i], v));
            let j = choose|j: int| 0 <= j < rr.len() && rr[j].0 == plan[i] && running_by(#[trigger] rr[j].1, v);
            let jj = choose|jj: int|
                0 <= jj < t.entries().len() && t.entries()[jj] == (run, #[trigger] rr[j].0, rr[j].1);
            assert(t.entries()[jj] == t.entries()[jj]);
        }
        assert forall|k: (RunId, ContentId)| m2.contains_key(k) implies m.contains_key(k) by {
            if !m.contains_key(k) {
                let i = choose|i: int| 0 <= i < plan.len() && plan[i] == k.1;
                assert(m.contains_key((run, plan[i])));
            }
        }
    }
    assert(m2.dom() =~= m.dom());
}

/// The coordinator's own timing check adds exactly one violation, the
/// renew-cadence one, and exactly when the renew cadence (the heartbeat
/// interval) is not strictly below the lease TTL (the failure timeout); the
/// transport's violations come first, unchanged. So with no transport
/// violations the configuration passes exactly when the cadence is below
/// the TTL.
pub proof fn law_renew_cadence_checked(c: CoordinatorConfig, t: Seq<Seq<char>>)
    ensures
        coordinator_violations(c, t).len() == 0 <==> (t.len() == 0 && c.heartbeat_interval_ms
            < c.coordinator_failure_timeout_ms),
        coordinator_violations(c, t).len() == t.len() + if c.heartbeat_interval_ms < c.coordinator_failure_timeout_ms {
            0int
        } else {
            1int
        },
        coordinator_violations(c, t).subrange(0, t.len() as int) == t,
        c.heartbeat_interval_ms >= c.coordinator_failure_timeout_ms ==> coordinator_violations(c, t).last()
            == renew_cadence_violation(),
{
    if c.heartbeat_interval_ms >= c.coordinator_failure_timeout_ms {
        assert(coordinator_violations(c, t).subrange(0, t.len() as int) =~= t);
    }
}

/// A drain saves its snapshot exactly when a snapshotter is present and the
/// remaining budget covers the snapshot's cost; so more budget, or a cheaper
/// snapshot, never drops a snapshot that would have been taken.
pub proof fn law_drain_snapshot_iff_covered(a: SnapshotPlan, b: SnapshotPlan)
    ensures
        takes_snapshot(a) <==> (a.has_snapshotter && a.remaining_budget_ms >= a.snapshot_cost_ms),
        takes_snapshot(a) && b.has_snapshotter && b.remaining_budget_ms >= a.remaining_budget_ms
            && b.snapshot_cost_ms <= a.snapshot_cost_ms ==> takes_snapshot(b),
{
}

/// A worker counts as failed exactly once its deadline has passed by more
/// than the skew budget plus the failure timeout, and stays failed as time
/// goes on; a later deadline never makes it fail sooner.
pub proof fn law_failure_past_budget(now_ms: u128, later_ms: u128, due_ms: u128, due2_ms: u128, skew_ms: u128, timeout_ms: u128)
    ensures
        failed_at(now_ms, due_ms, skew_ms, timeout_ms) <==> now_ms - due_ms > skew_ms + timeout_ms,
        failed_at(now_ms, due_ms, skew_ms, timeout_ms) && later_ms >= now_ms ==> failed_at(
            later_ms,
            due_ms,
            skew_ms,
            timeout_ms,
        ),
        failed_at(now_ms, due2_ms, skew_ms, timeout_ms) && due_ms <= due2_ms ==> failed_at(now_ms, due_ms, skew_ms, timeout_ms),
{
}

} // verus!

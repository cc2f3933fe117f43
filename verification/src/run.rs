//! Coordinator boot decisions: the lease-gated stateless replay of the work
//! ledger, and one tick of the lease-renew loop.
//!
//! A fresh coordinator is stateless: it wins the lease, adopts the lease's
//! epoch, and reconstructs its in-flight assignments by scanning the `work`
//! ledger — `Running` rows become in-flight assignments (NOT requeued: the
//! worker may still hold them), `Pending` rows are collected for dispatch,
//! and `Done` / `Failed` rows are counted as terminal.

use vstd::prelude::*;

use crate::ids::{bytes_lt, lemma_bytes_lt_irreflexive, ContentId, RunId, WorkerId};
use crate::lease::{acquire_fits, acquire_next, lease_row, same_except_lease, CoordEpoch, LeaseRecord, StorageLease};
use crate::storage::MemStorage;
use crate::work_item::{WorkState, WorkStateView};
use crate::work_table::{lemma_run_records_sorted, rec_views, run_records};

verus! {

/// The in-memory state a stateless replayer reconstructs from the ledger.
#[derive(Debug, Clone, PartialEq, Eq)]
pub struct ReplayState {
    /// The adopted authoritative epoch (the lease's epoch).
    pub epoch: CoordEpoch,
    /// In-flight assignments `(work_id, owning worker)`, from `Running` rows,
    /// in ledger order; each work id appears once.
    pub in_flight: Vec<(ContentId, WorkerId)>,
    /// Work ids found `Pending` — to be (re)pushed onto the dispatch queue.
    pub pending: Vec<ContentId>,
    /// Number of rows found terminal (`Done` / `Failed`).
    pub terminal: usize,
}

/// In-flight assignments of a listing: the `Running` rows with their owners.
pub open spec fn in_flight_of(rr: Seq<(ContentId, WorkStateView)>) -> Seq<(ContentId, WorkerId)>
    decreases rr.len(),
{
    if rr.len() == 0 {
        Seq::empty()
    } else {
        let p = in_flight_of(rr.drop_last());
        match rr.last().1 {
            WorkStateView::Running { worker_id, .. } => p.push((rr.last().0, worker_id)),
            _ => p,
        }
    }
}

/// Ids of the `Pending` rows of a listing.
pub open spec fn pending_of(rr: Seq<(ContentId, WorkStateView)>) -> Seq<ContentId>
    decreases rr.len(),
{
    if rr.len() == 0 {
        Seq::empty()
    } else {
        let p = pending_of(rr.drop_last());
        if rr.last().1 is Pending {
            p.push(rr.last().0)
        } else {
            p
        }
    }
}

/// Number of terminal (`Done` / `Failed`) rows of a listing.
pub open spec fn terminal_of(rr: Seq<(ContentId, WorkStateView)>) -> nat
    decreases rr.len(),
{
    if rr.len() == 0 {
        0
    } else {
        terminal_of(rr.drop_last()) + if rr.last().1 is Done || rr.last().1 is Failed {
            1nat
        } else {
            0nat
        }
    }
}

/// Whether a row's state is terminal: `Done` or `Failed`.
pub open spec fn is_terminal_row(p: (ContentId, WorkStateView)) -> bool {
    p.1 is Done || p.1 is Failed
}

/// Row `p` is `Running` under `e.1`, with work id `e.0`.
pub open spec fn running_row(p: (ContentId, WorkStateView), e: (ContentId, WorkerId)) -> bool {
    p.0 == e.0 && p.1 is Running && p.1->worker_id == e.1
}

/// Replay files every row of a listing by its state, and only there: the
/// pending list holds exactly the ids of the `Pending` rows, the in-flight
/// list exactly the `Running` rows with their owners, and the terminal count
/// is the number of `Done` or `Failed` rows. Each row lands in exactly one
/// of the three, so a `Done` or `Failed` row is never handed out again.
pub proof fn law_replay_classifies_rows(rr: Seq<(ContentId, WorkStateView)>)
    ensures
        forall|a: int|
            #![trigger pending_of(rr)[a]]
            0 <= a < pending_of(rr).len() ==> exists|j: int|
                0 <= j < rr.len() && #[trigger] rr[j] == (pending_of(rr)[a], WorkStateView::Pending),
        forall|j: int| 0 <= j < rr.len() && (#[trigger] rr[j]).1 is Pending ==> pending_of(rr).contains(rr[j].0),
        forall|a: int|
            #![trigger in_flight_of(rr)[a]]
            0 <= a < in_flight_of(rr).len() ==> exists|j: int|
                0 <= j < rr.len() && (#[trigger] rr[j]).0 == in_flight_of(rr)[a].0 && rr[j].1 is Running && rr[j].1->worker_id == in_flight_of(rr)[a].1,
        forall|j: int|
            0 <= j < rr.len() && (#[trigger] rr[j]).1 is Running ==> exists|a: int|
                0 <= a < in_flight_of(rr).len() && #[trigger] in_flight_of(rr)[a] == (rr[j].0, rr[j].1->worker_id),
        terminal_of(rr) == rr.filter(|p: (ContentId, WorkStateView)| is_terminal_row(p)).len(),
        pending_of(rr).len() + in_flight_of(rr).len() + terminal_of(rr) == rr.len(),
    decreases rr.len(),
{
    reveal(Seq::filter);
    if rr.len() > 0 {
        let d = rr.drop_last();
        law_replay_classifies_rows(d);
        let n = rr.len() - 1;
        let x = rr.last();
        assert(rr[n] == x);
        let p = pending_of(d);
        let q = in_flight_of(d);
        assert(rr.filter(|p: (ContentId, WorkStateView)| is_terminal_row(p)) == if is_terminal_row(x) {
            d.filter(|p: (ContentId, WorkStateView)| is_terminal_row(p)).push(x)
        } else {
            d.filter(|p: (ContentId, WorkStateView)| is_terminal_row(p))
        });
        assert forall|a: int|
            #![trigger pending_of(rr)[a]]
            0 <= a < pending_of(rr).len() implies exists|j: int|
                0 <= j < rr.len() && #[trigger] rr[j] == (pending_of(rr)[a], WorkStateView::Pending) by {
            if a < p.len() {
                assert(pending_of(rr)[a] == p[a]);
                let j = choose|j: int| 0 <= j < d.len() && #[trigger] d[j] == (p[a], WorkStateView::Pending);
                assert(rr[j] == d[j]);
            } else {
                assert(rr[n] == (pending_of(rr)[a], WorkStateView::Pending));
            }
        }
        assert forall|j: int| 0 <= j < rr.len() && (#[trigger] rr[j]).1 is Pending implies pending_of(rr).contains(
            rr[j].0,
        ) by {
            if j < n {
                assert(rr[j] == d[j]);
                assert(p.contains(d[j].0));
                let a = choose|a: int| 0 <= a < p.len() && p[a] == d[j].0;
                assert(pending_of(rr)[a] == p[a]);
            } else {
                assert(pending_of(rr)[p.len() as int] == x.0);
            }
        }
        assert forall|a: int|
            #![trigger in_flight_of(rr)[a]]
            0 <= a < in_flight_of(rr).len() implies exists|j: int|
                0 <= j < rr.len() && (#[trigger] rr[j]).0 == in_flight_of(rr)[a].0 && rr[j].1 is Running && rr[j].1->worker_id == in_flight_of(rr)[a].1 by {
            if a < q.len() {
                assert(in_flight_of(rr)[a] == q[a]);
                let j = choose|j: int|
                    0 <= j < d.len() && (#[trigger] d[j]).0 == q[a].0 && d[j].1 is Running && d[j].1->worker_id == q[a].1;
                assert(rr[j] == d[j]);
            } else {
                assert(rr[n].0 == in_flight_of(rr)[a].0);
            }
        }
        assert forall|j: int| 0 <= j < rr.len() && (#[trigger] rr[j]).1 is Running implies exists|a: int|
            0 <= a < in_flight_of(rr).len() && #[trigger] in_flight_of(rr)[a] == (rr[j].0, rr[j].1->worker_id) by {
            if j < n {
                assert(rr[j] == d[j]);
                let a = choose|a: int| 0 <= a < q.len() && #[trigger] q[a] == (d[j].0, d[j].1->worker_id);
                assert(in_flight_of(rr)[a] == q[a]);
            } else {
                assert(in_flight_of(rr)[q.len() as int] == (x.0, x.1->worker_id));
            }
        }
    }
}

/// Ids of a listing in strictly increasing byte order.
pub open spec fn ids_ascending(rr: Seq<(ContentId, WorkStateView)>) -> bool {
    forall|a: int, b: int| 0 <= a < b < rr.len() ==> bytes_lt(rr[a].0.0@, rr[b].0.0@)
}

/// On an ascending listing, the in-flight and pending ids come out in
/// ascending order too, each taken from the listing.
proof fn lemma_replay_ascending(rr: Seq<(ContentId, WorkStateView)>)
    requires
        ids_ascending(rr),
    ensures
        forall|a: int, b: int|
            0 <= a < b < in_flight_of(rr).len() ==> bytes_lt(
                in_flight_of(rr)[a].0.0@,
                in_flight_of(rr)[b].0.0@,
            ),
        forall|a: int|
            0 <= a < in_flight_of(rr).len() ==> exists|j: int|
                0 <= j < rr.len() && rr[j].0 == (#[trigger] in_flight_of(rr)[a]).0,
        forall|a: int, b: int|
            0 <= a < b < pending_of(rr).len() ==> bytes_lt(pending_of(rr)[a].0@, pending_of(rr)[b].0@),
        forall|a: int|
            0 <= a < pending_of(rr).len() ==> exists|j: int| 0 <= j < rr.len() && rr[j].0 == #[trigger] pending_of(rr)[a],
    decreases rr.len(),
{
    if rr.len() > 0 {
        let d = rr.drop_last();
        assert forall|a: int, b: int| 0 <= a < b < d.len() implies bytes_lt(d[a].0.0@, d[b].0.0@) by {
            assert(d[a] == rr[a] && d[b] == rr[b]);
        }
        lemma_replay_ascending(d);
        let p = in_flight_of(d);
        let q = pending_of(d);
        let n = rr.len() - 1;
        assert(rr.last() == rr[n]);
        assert forall|a: int| 0 <= a < p.len() implies bytes_lt(p[a].0.0@, rr.last().0.0@) by {
            let j = choose|j: int| 0 <= j < d.len() && d[j].0 == (#[trigger] p[a]).0;
            assert(d[j] == rr[j]);
        }
        assert forall|a: int| 0 <= a < q.len() implies bytes_lt(q[a].0@, rr.last().0.0@) by {
            let j = choose|j: int| 0 <= j < d.len() && d[j].0 == #[trigger] q[a];
            assert(d[j] == rr[j]);
        }
        assert forall|a: int| 0 <= a < in_flight_of(rr).len() implies exists|j: int|
            0 <= j < rr.len() && rr[j].0 == (#[trigger] in_flight_of(rr)[a]).0 by {
            if a < p.len() {
                let j = choose|j: int| 0 <= j < d.len() && d[j].0 == (#[trigger] p[a]).0;
                assert(d[j] == rr[j]);
            } else {
                assert(rr[n].0 == in_flight_of(rr)[a].0);
            }
        }
        assert forall|a: int| 0 <= a < pending_of(rr).len() implies exists|j: int|
            0 <= j < rr.len() && rr[j].0 == #[trigger] pending_of(rr)[a] by {
            if a < q.len() {
                let j = choose|j: int| 0 <= j < d.len() && d[j].0 == #[trigger] q[a];
                assert(d[j] == rr[j]);
            } else {
                assert(rr[n].0 == pending_of(rr)[a]);
            }
        }
    }
}

/// Ascending ids never repeat.
proof fn lemma_ascending_distinct(a: Seq<u8>, b: Seq<u8>)
    requires
        bytes_lt(a, b),
    ensures
        a != b,
{
    lemma_bytes_lt_irreflexive(a);
}

impl ReplayState {
    /// The worker an in-flight work id is assigned to, if any.
    pub fn in_flight_owner(&self, id: &ContentId) -> (r: Option<WorkerId>)
        ensures
            match r {
                Some(w) => exists|i: int|
                    0 <= i < self.in_flight@.len() && #[trigger] self.in_flight@[i] == (*id, w),
                None => forall|i: int|
                    0 <= i < self.in_flight@.len() ==> (#[trigger] self.in_flight@[i]).0 != *id,
            },
    {
        let mut i: usize = 0;
        while i < self.in_flight.len()
            invariant
                i <= self.in_flight@.len(),
                forall|j: int| 0 <= j < i ==> (#[trigger] self.in_flight@[j]).0 != *id,
            decreases self.in_flight@.len() - i,
        {
            let (c, w) = self.in_flight[i];
            if c.same(id) {
                proof {
                    assert(self.in_flight@[i as int] == (*id, w));
                }
                return Some(w);
            }
            i = i + 1;
        }
        None
    }
}

/// Lease-gated stateless-replayer boot.
///
/// 1. lease: `try_acquire(me, ttl_ms)` at `now_ms`; if the lease is live
///    under someone else, return `None` (the loser exits cleanly) with the
///    store unchanged.
/// 2. epoch: adopt the won lease's epoch.
/// 3. replay: scan the run's `work` rows — `Running` rows become in-flight
///    assignments, `Pending` ids are collected, terminal rows are counted.
///    Nothing in the ledger is requeued or otherwise changed.
pub fn replay_and_serve(store: &mut MemStorage, run_id: RunId, me: WorkerId, ttl_ms: u128, now_ms: u128) -> (r:
    Option<ReplayState>)
    requires
        old(store).wf(),
        acquire_fits(lease_row(old(store), run_id), ttl_ms, now_ms),
    ensures
        final(store).wf(),
        same_except_lease(old(store), final(store)),
        match acquire_next(lease_row(old(store), run_id), me, ttl_ms, now_ms) {
            None => r is None && final(store).leases == old(store).leases && final(store).epochs
                == old(store).epochs,
            Some(next) => {
                let rr = run_records(old(store).work.entries(), run_id);
                &&& final(store).leases.view() == old(store).leases.view().insert(run_id.0, next)
                &&& final(store).epochs.view() == old(store).epochs.view().insert(run_id.0, next.epoch)
                &&& r matches Some(st) && st.epoch == next.epoch && st.in_flight@ == in_flight_of(rr)
                    && st.pending@ == pending_of(rr) && st.terminal == terminal_of(rr)
            },
        },
        r matches Some(st) ==> forall|a: int, b: int|
            0 <= a < b < st.in_flight@.len() ==> st.in_flight@[a].0 != st.in_flight@[b].0,
        r matches Some(st) ==> forall|a: int, b: int|
            0 <= a < b < st.pending@.len() ==> st.pending@[a] != st.pending@[b],
        r matches Some(st) ==> forall|a: int|
            #![trigger st.pending@[a]]
            0 <= a < st.pending@.len() ==> exists|j: int|
                0 <= j < run_records(old(store).work.entries(), run_id).len() && #[trigger] run_records(
                    old(store).work.entries(),
                    run_id,
                )[j] == (st.pending@[a], WorkStateView::Pending),
        r matches Some(st) ==> forall|j: int|
            0 <= j < run_records(old(store).work.entries(), run_id).len() && (#[trigger] run_records(
                old(store).work.entries(),
                run_id,
            )[j]).1 is Pending ==> st.pending@.contains(run_records(old(store).work.entries(), run_id)[j].0),
        r matches Some(st) ==> forall|a: int|
            #![trigger st.in_flight@[a]]
            0 <= a < st.in_flight@.len() ==> exists|j: int|
                0 <= j < run_records(old(store).work.entries(), run_id).len() && running_row(
                    #[trigger] run_records(old(store).work.entries(), run_id)[j],
                    st.in_flight@[a],
                ),
        r matches Some(st) ==> forall|j: int|
            0 <= j < run_records(old(store).work.entries(), run_id).len() && (#[trigger] run_records(
                old(store).work.entries(),
                run_id,
            )[j]).1 is Running ==> st.in_flight@.contains(
                (
                    run_records(old(store).work.entries(), run_id)[j].0,
                    run_records(old(store).work.entries(), run_id)[j].1->worker_id,
                ),
            ),
        r matches Some(st) ==> st.terminal == run_records(old(store).work.entries(), run_id).filter(
            |p: (ContentId, WorkStateView)| is_terminal_row(p),
        ).len(),
{
    let lease = StorageLease::new(run_id);
    let held = match lease.try_acquire(store, me, ttl_ms, now_ms) {
        None => return None,
        Some(h) => h,
    };
    let rows = store.work.scan(run_id);
    let ghost rr = rec_views(rows@);
    let mut in_flight: Vec<(ContentId, WorkerId)> = Vec::new();
    let mut pending: Vec<ContentId> = Vec::new();
    let mut terminal: usize = 0;
    let mut i: usize = 0;
    while i < rows.len()
        invariant
            rr == rec_views(rows@),
            i <= rows@.len(),
            in_flight@ == in_flight_of(rr.take(i as int)),
            pending@ == pending_of(rr.take(i as int)),
            terminal == terminal_of(rr.take(i as int)),
            terminal <= i,
        decreases rows@.len() - i,
    {
        proof {
            let t = rr.take(i + 1);
            assert(t.drop_last() =~= rr.take(i as int));
            assert(t.last() == (rows@[i as int].id, rows@[i as int].state@));
        }
        match &rows[i].state {
            WorkState::Running { worker_id, .. } => {
                in_flight.push((rows[i].id, *worker_id));
            },
            WorkState::Pending => {
                pending.push(rows[i].id);
            },
            WorkState::Done { .. } | WorkState::Failed { .. } => {
                terminal = terminal + 1;
            },
        }
        i = i + 1;
    }
    proof {
        assert(rr.take(i as int) =~= rr);
        let es = store.work.entries();
        store.work.lemma_entries();
        lemma_run_records_sorted(es, run_id);
        lemma_replay_ascending(rr);
        assert forall|a: int, b: int| 0 <= a < b < in_flight@.len() implies in_flight@[a].0 != in_flight@[b].0 by {
            lemma_ascending_distinct(in_flight@[a].0.0@, in_flight@[b].0.0@);
        }
        assert forall|a: int, b: int| 0 <= a < b < pending@.len() implies pending@[a] != pending@[b] by {
            lemma_ascending_distinct(pending@[a].0@, pending@[b].0@);
        }
        law_replay_classifies_rows(rr);
        assert(rr == run_records(old(store).work.entries(), run_id));
        assert forall|a: int| #![trigger in_flight@[a]] 0 <= a < in_flight@.len() implies exists|j: int|
            0 <= j < rr.len() && running_row(#[trigger] rr[j], in_flight@[a]) by {
            assert(in_flight@[a] == in_flight_of(rr)[a]);
            let j = choose|j: int|
                0 <= j < rr.len() && (#[trigger] rr[j]).0 == in_flight_of(rr)[a].0 && rr[j].1 is Running && rr[j].1->worker_id
                    == in_flight_of(rr)[a].1;
            assert(running_row(rr[j], in_flight@[a]));
        }
        assert forall|j: int| 0 <= j < rr.len() && (#[trigger] rr[j]).1 is Running implies in_flight@.contains(
            (rr[j].0, rr[j].1->worker_id),
        ) by {
            let a = choose|a: int| 0 <= a < in_flight_of(rr).len() && #[trigger] in_flight_of(rr)[a] == (rr[j].0, rr[j].1->worker_id);
            assert(in_flight@[a] == in_flight_of(rr)[a]);
        }
    }
    Some(ReplayState { epoch: held.epoch, in_flight, pending, terminal })
}

/// What one tick of the lease-renew loop decided.
#[derive(Debug, Clone, Copy, PartialEq, Eq)]
pub enum RenewOutcome {
    /// No lease row exists yet: nothing to renew this tick.
    NoLease,
    /// The lease was renewed; keep serving.
    Renewed,
    /// This coordinator was deposed: emit one fence event for `stale <
    /// observed`, then abort.
    Fenced {
        /// The epoch this coordinator held.
        stale: CoordEpoch,
        /// The higher epoch that deposed it.
        observed: CoordEpoch,
    },
}

/// One tick of the lease-renew loop for coordinator `me`, which adopted
/// `start_epoch` at boot.
///
/// Reads the current lease: none — `NoLease`; held by someone else — the
/// coordinator was deposed: `Fenced { stale: start_epoch, observed: <the
/// current epoch> }`; held by `me` — renew it until `now_ms + ttl_ms`
/// (`Renewed`), or, if the renewal loses, `Fenced` with the held epoch as
/// stale and the then-current epoch as observed.
pub fn lease_renew_tick(
    store: &mut MemStorage,
    run_id: RunId,
    me: WorkerId,
    start_epoch: CoordEpoch,
    ttl_ms: u128,
    now_ms: u128,
) -> (r: RenewOutcome)
    requires
        old(store).wf(),
        lease_row(old(store), run_id) matches Some(h) && h.holder == me ==> now_ms + ttl_ms <= u128::MAX,
    ensures
        final(store).wf(),
        same_except_lease(old(store), final(store)),
        match lease_row(old(store), run_id) {
            None => r == RenewOutcome::NoLease && final(store).leases == old(store).leases
                && final(store).epochs == old(store).epochs,
            Some(held) => if held.holder != me {
                r == (RenewOutcome::Fenced { stale: start_epoch, observed: held.epoch })
                    && final(store).leases == old(store).leases && final(store).epochs == old(
                    store,
                ).epochs
            } else {
                r == RenewOutcome::Renewed && final(store).leases.view() == old(
                    store,
                ).leases.view().insert(
                    run_id.0,
                    LeaseRecord {
                        holder: me,
                        epoch: held.epoch,
                        expires_at_ms: (now_ms + ttl_ms) as u128,
                    },
                ) && final(store).epochs.view() == old(store).epochs.view().insert(
                    run_id.0,
                    held.epoch,
                )
            },
        },
{
    let lease = StorageLease::new(run_id);
    let held = match lease.current(store) {
        None => return RenewOutcome::NoLease,
        Some(h) => h,
    };
    if held.holder != me {
        // someone else holds the lease: we were deposed.
        return RenewOutcome::Fenced { stale: start_epoch, observed: held.epoch };
    }
    if lease.renew(store, &held, ttl_ms, now_ms) {
        RenewOutcome::Renewed
    } else {
        let observed = match lease.current(store) {
            Some(c) => c.epoch,
            None => held.epoch,
        };
        RenewOutcome::Fenced { stale: held.epoch, observed }
    }
}

} // verus!

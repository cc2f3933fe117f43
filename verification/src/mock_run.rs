//! Mock-backend driver of the work ledger: enqueue N items, dispatch them
//! across W workers (biased so the first worker becomes the busiest), idle
//! the last worker so a real steal reassigns part of the busiest worker's
//! backlog, then complete every item. The "mock backend" is a content
//! address: the result id of an item is the blake3 of its work id's hex.

use vstd::prelude::*;

use crate::dispatch_counts::{
    dispatch_slot, item_id, lemma_first_is_busiest, lemma_first_rows_first_half, lemma_item_id, lemma_victim_ids_member,
};
use crate::ids::{blake3_digest, ulid_text, ContentId, RunId, WorkerId};
use crate::ledger::{dispatch, enqueue, has_entry, is_busiest, is_front};
use crate::observability::{DomainEvent, EventAttrs, Level};
use crate::steal::{
    handle_steal_request, lemma_busiest_unique, lemma_victim_ids_len, reassign, steal_batch, victim_ids, MAX_STEAL_BATCH,
};
use crate::storage::{same_except_work, same_except_work_queue, MemStorage};
use crate::text::hex_text;
use crate::work_item::{running_by, try_complete, WorkItemRecord, WorkState, WorkStateView};
use crate::work_table::{lemma_run_records_members, lemma_run_records_sorted, rec_views, run_records};

verus! {

/// The mock backend's result id for a work id: blake3 of its hex text.
pub open spec fn mock_result(id: ContentId) -> ContentId {
    choose|c: ContentId| c.0@ == blake3_digest(vstd::utf8::encode_utf8(hex_text(id.0@)))
}

/// `m` with every row of `run` that is `Running` under `w` set to `Done`
/// with its mock result.
pub open spec fn complete_all(m: Map<(RunId, ContentId), WorkStateView>, run: RunId, w: WorkerId) -> Map<
    (RunId, ContentId),
    WorkStateView,
> {
    Map::new(
        |k: (RunId, ContentId)| m.contains_key(k),
        |k: (RunId, ContentId)|
            if k.0 == run && running_by(m[k], w) {
                WorkStateView::Done { result_id: mock_result(k.1) }
            } else {
                m[k]
            },
    )
}

/// Number of `Done` rows in a run's listing.
pub open spec fn count_done_spec(rr: Seq<(ContentId, WorkStateView)>) -> nat
    decreases rr.len(),
{
    if rr.len() == 0 {
        0
    } else {
        count_done_spec(rr.drop_last()) + if rr.last().1 is Done {
            1nat
        } else {
            0nat
        }
    }
}

/// Compute the mock result of a work id.
fn mock_result_of(id: &ContentId) -> (r: ContentId)
    ensures
        r == mock_result(*id),
{
    let hex = id.to_hex();
    let r = ContentId::of(hex.as_str().as_bytes());
    proof {
        broadcast use vstd::array::axiom_array_ext_equal;
        let c = mock_result(*id);
        assert(c.0@ == r.0@);
        assert(c.0 =~= r.0);
    }
    r
}

/// An event scoped to the run (and optionally a worker) with attributes.
fn work_event(topic: &str, run_id: RunId, worker_id: Option<WorkerId>, attrs: EventAttrs) -> (e: DomainEvent)
    ensures
        e.topic@ == topic@,
        e.level == Level::Info,
        e.run_id == Some(run_id),
        e.worker_id == worker_id,
        e.message is None,
        e.attrs == attrs,
{
    DomainEvent { topic: topic.to_owned(), level: Level::Info, run_id: Some(run_id), worker_id, message: None, attrs }
}

/// Complete every `Running` item of `run_id` owned by `worker` (mock
/// backend), appending one `work_completed` event per item to `events`.
/// Returns the number completed.
fn complete_worker(store: &mut MemStorage, run_id: &RunId, worker: WorkerId, events: &mut Vec<DomainEvent>) -> (n:
    usize)
    requires
        old(store).wf(),
    ensures
        final(store).wf(),
        same_except_work(old(store), final(store)),
        final(store).work.view() == complete_all(old(store).work.view(), *run_id, worker),
        final(events)@.len() == old(events)@.len() + n,
        final(events)@.subrange(0, old(events)@.len() as int) == old(events)@,
        forall|i: int|
            old(events)@.len() <= i < final(events)@.len() ==> (#[trigger] final(events)@[i]).topic@
                == "work_completed"@ && final(events)@[i].run_id == Some(*run_id) && final(events)@[i].worker_id
                == Some(worker),
{
    let rows = store.work.scan(*run_id);
    let ghost rr = rec_views(rows@);
    let ghost m0 = store.work.view();
    let ghost s0 = *store;
    proof {
        store.work.lemma_entries();
        lemma_run_records_members(store.work.entries(), *run_id);
        lemma_run_records_sorted(store.work.entries(), *run_id);
        assert forall|j: int| 0 <= j < rr.len() implies m0.contains_key((*run_id, #[trigger] rr[j].0))
            && m0[(*run_id, rr[j].0)] == rr[j].1 by {
            let jj = choose|jj: int|
                0 <= jj < store.work.entries().len() && store.work.entries()[jj] == (
                    *run_id,
                    #[trigger] rr[j].0,
                    rr[j].1,
                );
            assert(store.work.entries()[jj] == store.work.entries()[jj]);
        }
        assert forall|k: (RunId, ContentId)| k.0 == *run_id && #[trigger] m0.contains_key(k) implies exists|j: int|
            0 <= j < rr.len() && rr[j].0 == k.1 by {
            let jj = choose|jj: int|
                0 <= jj < store.work.entries().len() && (store.work.entries()[jj].0, store.work.entries()[jj].1) == k;
            assert(store.work.entries()[jj].0 == *run_id);
            assert(run_records(store.work.entries(), *run_id).contains(
                (store.work.entries()[jj].1, store.work.entries()[jj].2),
            ));
        }
    }
    let mut n: usize = 0;
    let mut i: usize = 0;
    while i < rows.len()
        invariant
            store.wf(),
            same_except_work(&s0, store),
            rr == rec_views(rows@),
            forall|a: int, b: int| 0 <= a < b < rr.len() ==> crate::ids::bytes_lt(rr[a].0.0@, rr[b].0.0@),
            forall|j: int| 0 <= j < rr.len() ==> m0.contains_key((*run_id, #[trigger] rr[j].0)) && m0[(
                *run_id,
                rr[j].0,
            )] == rr[j].1,
            i <= rows@.len(),
            n <= i,
            events@.len() == old(events)@.len() + n,
            events@.subrange(0, old(events)@.len() as int) == old(events)@,
            forall|i2: int|
                old(events)@.len() <= i2 < events@.len() ==> (#[trigger] events@[i2]).topic@ == "work_completed"@
                    && events@[i2].run_id == Some(*run_id) && events@[i2].worker_id == Some(worker),
            store.work.view().dom() == m0.dom(),
            forall|k: (RunId, ContentId)|
                #[trigger] store.work.view().contains_key(k) && (k.0 != *run_id || !running_by(m0[k], worker))
                    ==> store.work.view()[k] == m0[k],
            forall|j: int|
                0 <= j < i && running_by(rr[j].1, worker) ==> store.work.view()[(*run_id, #[trigger] rr[j].0)]
                    == (WorkStateView::Done { result_id: mock_result(rr[j].0) }),
            forall|j: int|
                i <= j < rr.len() ==> store.work.view()[(*run_id, #[trigger] rr[j].0)] == rr[j].1,
        decreases rows@.len() - i,
    {
        proof {
            assert(rr[i as int] == (rows@[i as int].id, rows@[i as int].state@));
        }
        if rows[i].state.is_running_by(worker) {
            let result_id = mock_result_of(&rows[i].id);
            let ghost before = store.work.view();
            proof {
                assert(rr[i as int].0 == rows@[i as int].id);
                assert(store.work.view()[(*run_id, rr[i as int].0)] == rr[i as int].1);
                assert(m0.contains_key((*run_id, rr[i as int].0)));
                assert(store.work.view().contains_key((*run_id, rows@[i as int].id)));
                assert(rows@[i as int].state@ is Running);
            }
            let won = try_complete(store, run_id, &rows[i], result_id);
            assert(won);
            n = n + 1;
            let hex = rows[i].id.to_hex();
            events.push(work_event("work_completed", *run_id, Some(worker), EventAttrs::WorkId(hex)));
            proof {
                let id = rows@[i as int].id;
                assert(store.work.view() == before.insert((*run_id, id), WorkStateView::Done { result_id }));
                assert forall|j: int| i + 1 <= j < rr.len() implies store.work.view()[(*run_id, #[trigger] rr[j].0)]
                    == rr[j].1 by {
                    assert(crate::ids::bytes_lt(rr[i as int].0.0@, rr[j].0.0@));
                    if rr[j].0 == id {
                        crate::ids::lemma_bytes_lt_irreflexive(id.0@);
                    }
                }
                assert forall|j: int| 0 <= j < i + 1 && running_by(rr[j].1, worker) implies store.work.view()[(
                    *run_id,
                    #[trigger] rr[j].0,
                )] == (WorkStateView::Done { result_id: mock_result(rr[j].0) }) by {
                    if j < i {
                        assert(crate::ids::bytes_lt(rr[j].0.0@, rr[i as int].0.0@));
                        if rr[j].0 == id {
                            crate::ids::lemma_bytes_lt_irreflexive(id.0@);
                        }
                    }
                }
                assert(store.work.view().dom() =~= m0.dom());
            }
        }
        i = i + 1;
    }
    proof {
        let m1 = store.work.view();
        let target = complete_all(m0, *run_id, worker);
        assert forall|k: (RunId, ContentId)| #[trigger] target.contains_key(k) implies m1.contains_key(k) && m1[k]
            == target[k] by {
            if k.0 == *run_id && running_by(m0[k], worker) {
                let j = choose|j: int| 0 <= j < rr.len() && rr[j].0 == k.1;
                assert(m0[(*run_id, rr[j].0)] == rr[j].1);
                assert(m1[(*run_id, rr[j].0)] == (WorkStateView::Done { result_id: mock_result(rr[j].0) }));
            }
        }
        assert(m1 =~= target);
    }
    n
}

/// Number of `Done` rows of `run_id`.
fn count_done(store: &MemStorage, run_id: &RunId) -> (n: usize)
    requires
        store.wf(),
    ensures
        n == count_done_spec(run_records(store.work.entries(), *run_id)),
{
    let rows = store.work.scan(*run_id);
    let ghost rr = rec_views(rows@);
    let mut n: usize = 0;
    let mut i: usize = 0;
    proof {
        assert(rr.take(0) =~= Seq::<(ContentId, WorkStateView)>::empty());
    }
    while i < rows.len()
        invariant
            rr == rec_views(rows@),
            i <= rows@.len(),
            n <= i,
            n == count_done_spec(rr.take(i as int)),
        decreases rows@.len() - i,
    {
        proof {
            let t = rr.take(i + 1);
            assert(t.drop_last() =~= rr.take(i as int));
            assert(t.last() == (rows@[i as int].id, rows@[i as int].state@));
        }
        if rows[i].state.is_done() {
            n = n + 1;
        }
        i = i + 1;
    }
    proof {
        assert(rr.take(i as int) =~= rr);
    }
    n
}

/// Every row of `run` is `Done`, or `Running` under a worker of `ws[from..]`.
pub open spec fn settled_or_owned(
    m: Map<(RunId, ContentId), WorkStateView>,
    run: RunId,
    ws: Seq<WorkerId>,
    from: int,
) -> bool {
    forall|k: (RunId, ContentId)|
        #[trigger] m.contains_key(k) && k.0 == run ==> m[k] is Done || (m[k] is Running && exists|j: int|
            from <= j < ws.len() && running_by(m[k], #[trigger] ws[j]))
}

/// Rows of runs other than `run` agree between `a` and `b`.
pub open spec fn other_runs_same(
    a: Map<(RunId, ContentId), WorkStateView>,
    b: Map<(RunId, ContentId), WorkStateView>,
    run: RunId,
) -> bool {
    forall|k: (RunId, ContentId)|
        k.0 != run ==> (#[trigger] a.contains_key(k) == b.contains_key(k)) && (a.contains_key(k) ==> a[k]
            == b[k])
}

/// Exactly the sequence numbers in `[lo, hi)` are queued for `run`.
pub open spec fn run_queue_is(q: Map<u128, (RunId, Seq<u8>)>, run: RunId, lo: int, hi: int) -> bool {
    forall|k: u128| (#[trigger] q.contains_key(k) && q[k].0 == run) <==> lo <= k < hi
}

proof fn lemma_run_queue_extend(q: Map<u128, (RunId, Seq<u8>)>, run: RunId, lo: int, hi: int, p: Seq<u8>)
    requires
        run_queue_is(q, run, lo, hi),
        0 <= lo <= hi < u128::MAX,
    ensures
        run_queue_is(q.insert(hi as u128, (run, p)), run, lo, hi + 1),
{
    let q2 = q.insert(hi as u128, (run, p));
    assert forall|k: u128| (#[trigger] q2.contains_key(k) && q2[k].0 == run) <==> lo <= k < hi + 1 by {
        if k != hi {
            assert(q2.contains_key(k) == q.contains_key(k));
        }
    }
}

proof fn lemma_run_queue_member(q: Map<u128, (RunId, Seq<u8>)>, run: RunId, lo: int, hi: int, k: u128)
    requires
        run_queue_is(q, run, lo, hi),
        lo <= k < hi,
    ensures
        q.contains_key(k),
        q[k].0 == run,
{
    assert(q.contains_key(k) && q[k].0 == run);
}

proof fn lemma_reassign_keeps(
    m: Map<(RunId, ContentId), WorkStateView>,
    run: RunId,
    ids: Seq<ContentId>,
    thief: WorkerId,
    now_ms: u128,
    ws: Seq<WorkerId>,
    from: int,
    t: int,
)
    requires
        from <= t < ws.len(),
        ws[t] == thief,
    ensures
        settled_or_owned(m, run, ws, from) ==> settled_or_owned(reassign(m, run, ids, thief, now_ms), run, ws, from),
        other_runs_same(m, reassign(m, run, ids, thief, now_ms), run),
    decreases ids.len(),
{
    if ids.len() > 0 {
        lemma_reassign_keeps(m, run, ids.drop_last(), thief, now_ms, ws, from, t);
        let m1 = reassign(m, run, ids.drop_last(), thief, now_ms);
        let m2 = reassign(m, run, ids, thief, now_ms);
        if settled_or_owned(m, run, ws, from) {
            assert forall|k: (RunId, ContentId)| #[trigger] m2.contains_key(k) && k.0 == run implies m2[k] is Done
                || (m2[k] is Running && exists|j: int| from <= j < ws.len() && running_by(m2[k], #[trigger] ws[j])) by {
                if k == (run, ids.last()) {
                    assert(running_by(m2[k], ws[t]));
                } else {
                    assert(m1.contains_key(k));
                }
            }
        }
        assert forall|k: (RunId, ContentId)| k.0 != run implies (#[trigger] m.contains_key(k) == m2.contains_key(k))
            && (m.contains_key(k) ==> m[k] == m2[k]) by {
            assert(m1.contains_key(k) == m2.contains_key(k));
        }
    }
}

proof fn lemma_complete_keeps(
    m: Map<(RunId, ContentId), WorkStateView>,
    run: RunId,
    ws: Seq<WorkerId>,
    from: int,
    w: WorkerId,
)
    ensures
        settled_or_owned(m, run, ws, from) ==> settled_or_owned(complete_all(m, run, w), run, ws, from),
        settled_or_owned(m, run, ws, from) && from < ws.len() && ws[from] == w ==> settled_or_owned(
            complete_all(m, run, w),
            run,
            ws,
            from + 1,
        ),
        other_runs_same(m, complete_all(m, run, w), run),
{
    let m2 = complete_all(m, run, w);
    if !settled_or_owned(m, run, ws, from) {
        return;
    }
    assert forall|k: (RunId, ContentId)| #[trigger] m2.contains_key(k) && k.0 == run implies m2[k] is Done || (
    m2[k] is Running && exists|j: int| from <= j < ws.len() && running_by(m2[k], #[trigger] ws[j])) by {
        assert(m.contains_key(k));
    }
    if from < ws.len() && ws[from] == w {
        assert forall|k: (RunId, ContentId)| #[trigger] m2.contains_key(k) && k.0 == run implies m2[k] is Done || (
        m2[k] is Running && exists|j: int| from + 1 <= j < ws.len() && running_by(m2[k], #[trigger] ws[j])) by {
            assert(m.contains_key(k));
            if m[k] is Running && !running_by(m[k], w) {
                let j = choose|j: int| from <= j < ws.len() && running_by(m[k], #[trigger] ws[j]);
                assert(j != from);
            }
        }
    }
}

proof fn lemma_all_done_count(rr: Seq<(ContentId, WorkStateView)>)
    requires
        forall|j: int| 0 <= j < rr.len() ==> (#[trigger] rr[j]).1 is Done,
    ensures
        count_done_spec(rr) == rr.len(),
    decreases rr.len(),
{
    if rr.len() > 0 {
        assert forall|j: int| 0 <= j < rr.drop_last().len() implies (#[trigger] rr.drop_last()[j]).1 is Done by {
            assert(rr.drop_last()[j] == rr[j]);
        }
        lemma_all_done_count(rr.drop_last());
        assert(rr.last() == rr[rr.len() - 1]);
    }
}

/// Once every row of `run_id` is `Done` or running under a worker past
/// the end of `ws`, every row is `Done` and the run's listing counts all
/// of its rows as done.
proof fn lemma_fresh_all_done(store: &MemStorage, run_id: RunId, ws: Seq<WorkerId>)
    requires
        store.wf(),
        settled_or_owned(store.work.view(), run_id, ws, ws.len() as int),
    ensures
        forall|k: (RunId, ContentId)|
            #[trigger] store.work.view().contains_key(k) && k.0 == run_id ==> store.work.view()[k] is Done,
        count_done_spec(run_records(store.work.entries(), run_id)) == run_records(store.work.entries(), run_id).len(),
{
    let m = store.work.view();
    assert forall|k: (RunId, ContentId)| #[trigger] m.contains_key(k) && k.0 == run_id implies m[k] is Done by {
        if !(m[k] is Done) {
            let j2 = choose|j2: int| ws.len() <= j2 < ws.len() && running_by(m[k], #[trigger] ws[j2]);
        }
    }
    let rr = run_records(store.work.entries(), run_id);
    store.work.lemma_entries();
    lemma_run_records_members(store.work.entries(), run_id);
    assert forall|j3: int| 0 <= j3 < rr.len() implies (#[trigger] rr[j3]).1 is Done by {
        let jj = choose|jj: int|
            0 <= jj < store.work.entries().len() && store.work.entries()[jj] == (run_id, #[trigger] rr[j3].0, rr[j3].1);
        assert(store.work.entries()[jj] == store.work.entries()[jj]);
    }
    lemma_all_done_count(rr);
}

/// A progress event of `run`: a dispatch, completion or steal.
pub open spec fn progress_event(e: DomainEvent, run: RunId) -> bool {
    &&& e.run_id == Some(run)
    &&& e.topic@ == "work_dispatched"@ || e.topic@ == "work_completed"@ || e.topic@ == "work_stolen"@
}

/// Every event of `evs` is a progress event of `run`.
pub open spec fn all_progress(evs: Seq<DomainEvent>, run: RunId) -> bool {
    forall|i: int| 0 <= i < evs.len() ==> progress_event(#[trigger] evs[i], run)
}

/// Appending completions of `run` keeps a progress log a progress log.
proof fn lemma_progress_extended(a: Seq<DomainEvent>, b: Seq<DomainEvent>, run: RunId)
    requires
        all_progress(a, run),
        a.len() <= b.len(),
        b.subrange(0, a.len() as int) == a,
        forall|i: int| a.len() <= i < b.len() ==> (#[trigger] b[i]).topic@ == "work_completed"@ && b[i].run_id == Some(run),
    ensures
        all_progress(b, run),
{
    assert forall|i: int| 0 <= i < b.len() implies progress_event(#[trigger] b[i], run) by {
        if i < a.len() {
            assert(b[i] == b.subrange(0, a.len() as int)[i]);
        }
    }
}

/// The run has no ledger rows and nothing queued in `store`.
pub open spec fn fresh_run(store: &MemStorage, run: RunId) -> bool {
    &&& forall|k: (RunId, ContentId)| #[trigger] store.work.view().contains_key(k) ==> k.0 != run
    &&& !has_entry(store.queue.view(), run)
}

/// Bytes of the `j`-th mock payload: the UTF-8 text `"work-item-<j>"`.
pub open spec fn mock_item_bytes(j: int) -> Seq<u8> {
    vstd::utf8::encode_utf8("work-item-"@ + crate::text::dec_text(j as nat))
}

/// Digest bytes of the work id of the `j`-th mock payload.
pub open spec fn mock_item_digest(j: int) -> Seq<u8> {
    blake3_digest(mock_item_bytes(j))
}

/// `m` has a row of `run` whose work id is that of the `j`-th mock payload.
pub open spec fn has_item(m: Map<(RunId, ContentId), WorkStateView>, run: RunId, j: int) -> bool {
    exists|id: ContentId| #[trigger] m.contains_key((run, id)) && id.0@ == mock_item_digest(j)
}

/// The rows of `run` in `m` are exactly the work ids of the first `n` mock
/// payloads: each of those has a row, and every row of `run` is one of them.
pub open spec fn holds_items(m: Map<(RunId, ContentId), WorkStateView>, run: RunId, n: int) -> bool {
    &&& forall|j: int| 0 <= j < n ==> #[trigger] has_item(m, run, j)
    &&& forall|k: (RunId, ContentId)| #[trigger] m.contains_key(k) && k.0 == run ==> exists|j: int|
        0 <= j < n && k.1.0@ == #[trigger] mock_item_digest(j)
}

/// `holds_items` depends on the rows present only.
proof fn lemma_holds_items_dom(
    m1: Map<(RunId, ContentId), WorkStateView>,
    m2: Map<(RunId, ContentId), WorkStateView>,
    run: RunId,
    n: int,
)
    requires
        holds_items(m1, run, n),
        m1.dom() == m2.dom(),
    ensures
        holds_items(m2, run, n),
{
    assert forall|j: int| 0 <= j < n implies #[trigger] has_item(m2, run, j) by {
        assert(has_item(m1, run, j));
        let id = choose|id: ContentId| #[trigger] m1.contains_key((run, id)) && id.0@ == mock_item_digest(j);
        assert(m1.dom().contains((run, id)));
    }
    assert forall|k: (RunId, ContentId)| #[trigger] m2.contains_key(k) && k.0 == run implies exists|j: int|
        0 <= j < n && k.1.0@ == #[trigger] mock_item_digest(j) by {
        assert(m2.dom().contains(k));
        assert(m1.contains_key(k));
        assert(exists|j: int| 0 <= j < n && k.1.0@ == #[trigger] mock_item_digest(j));
    }
}

/// The payload of the `i`-th mock item: `"work-item-<i>"`.
fn item_payload(i: usize) -> (p: Vec<u8>)
    ensures
        p@ == mock_item_bytes(i as int),
{
    let mut s = String::new();
    crate::text::push_str(&mut s, "work-item-");
    crate::text::push_decimal(&mut s, i as u64);
    proof {
        reveal_strlit("work-item-");
    }
    vstd::slice::slice_to_vec(s.as_str().as_bytes())
}

/// The workers of `ws` are pairwise distinct.
pub open spec fn distinct_workers(ws: Seq<WorkerId>) -> bool {
    forall|a: int, b: int| 0 <= a < b < ws.len() ==> ws[a] != ws[b]
}

/// The work ids of the first `n` mock payloads are pairwise distinct.
pub open spec fn distinct_items(n: int) -> bool {
    forall|a: int, b: int| 0 <= a < b < n ==> mock_item_digest(a) != mock_item_digest(b)
}

/// `e` reports the dispatch of the `j`-th mock item of `run` to `w`.
pub open spec fn dispatched_item(e: DomainEvent, run: RunId, w: WorkerId, j: int) -> bool {
    &&& e.topic@ == "work_dispatched"@
    &&& e.run_id == Some(run)
    &&& e.worker_id == Some(w)
    &&& e.attrs matches EventAttrs::WorkId(h) && h@ == hex_text(mock_item_digest(j))
}

/// `e` reports that `thief` stole a row of `run` among `rows`.
pub open spec fn stolen_by(e: DomainEvent, run: RunId, thief: WorkerId, rows: Set<(RunId, ContentId)>) -> bool {
    &&& e.topic@ == "work_stolen"@
    &&& e.run_id == Some(run)
    &&& e.worker_id == Some(thief)
    &&& e.attrs matches EventAttrs::Stolen { work_id, thief: t } && t@ == ulid_text(thief.0) && exists|id: ContentId|
        #[trigger] rows.contains((run, id)) && work_id@ == hex_text(id.0@)
}

/// `e` is a steal of one of the first `ceil(items / 2)` mock items: those
/// the biased dispatch gives the first worker.
pub open spec fn stolen_from_first_half(e: DomainEvent, items: int) -> bool {
    e.attrs matches EventAttrs::Stolen { work_id, .. } && exists|j: int|
        0 <= j < items / 2 + items % 2 && work_id@ == hex_text(#[trigger] mock_item_digest(j))
}

/// `evs[a..a + n]` are steal events of `thief` over `rows`, and no other
/// event of `evs` is a steal.
pub open spec fn stolen_block(
    evs: Seq<DomainEvent>,
    run: RunId,
    thief: WorkerId,
    rows: Set<(RunId, ContentId)>,
    a: int,
    n: int,
) -> bool {
    &&& 0 <= a
    &&& 0 <= n
    &&& a + n <= evs.len()
    &&& forall|k: int| 0 <= k < n ==> stolen_by(#[trigger] evs[a + k], run, thief, rows)
    &&& forall|i: int| 0 <= i < evs.len() && (#[trigger] evs[i]).topic@ == "work_stolen"@ ==> a <= i < a + n
}

/// `x` is a prefix of `y`.
pub open spec fn prefix_of(x: Seq<DomainEvent>, y: Seq<DomainEvent>) -> bool {
    x.len() <= y.len() && y.subrange(0, x.len() as int) == x
}

proof fn lemma_prefix_index(x: Seq<DomainEvent>, y: Seq<DomainEvent>)
    requires
        prefix_of(x, y),
    ensures
        forall|i: int| 0 <= i < x.len() ==> #[trigger] y[i] == x[i],
{
    assert forall|i: int| 0 <= i < x.len() implies #[trigger] y[i] == x[i] by {
        assert(y.subrange(0, x.len() as int)[i] == y[i]);
    }
}

proof fn lemma_prefix_trans(x: Seq<DomainEvent>, y: Seq<DomainEvent>, z: Seq<DomainEvent>)
    requires
        prefix_of(x, y),
        prefix_of(y, z),
    ensures
        prefix_of(x, z),
{
    lemma_prefix_index(x, y);
    lemma_prefix_index(y, z);
    assert(z.subrange(0, x.len() as int) =~= x);
}

/// Appending completions keeps a steal block.
proof fn lemma_block_extended(
    x: Seq<DomainEvent>,
    y: Seq<DomainEvent>,
    run: RunId,
    thief: WorkerId,
    rows: Set<(RunId, ContentId)>,
    a: int,
    n: int,
)
    requires
        stolen_block(x, run, thief, rows, a, n),
        prefix_of(x, y),
        forall|i: int| x.len() <= i < y.len() ==> (#[trigger] y[i]).topic@ == "work_completed"@,
    ensures
        stolen_block(y, run, thief, rows, a, n),
{
    lemma_prefix_index(x, y);
    reveal_strlit("work_completed");
    reveal_strlit("work_stolen");
    assert forall|k: int| 0 <= k < n implies stolen_by(#[trigger] y[a + k], run, thief, rows) by {
        assert(y[a + k] == x[a + k]);
    }
    assert forall|i: int| 0 <= i < y.len() && (#[trigger] y[i]).topic@ == "work_stolen"@ implies a <= i < a + n by {
        if i < x.len() {
            assert(y[i] == x[i]);
        } else {
            assert(y[i].topic@.len() != "work_stolen"@.len());
        }
    }
}

/// Appending a dispatch or completion keeps a log free of steal events.
proof fn lemma_push_not_stolen(a: Seq<DomainEvent>, b: Seq<DomainEvent>)
    requires
        forall|j: int| 0 <= j < a.len() ==> (#[trigger] a[j]).topic@ != "work_stolen"@,
        b.len() == a.len() + 1,
        forall|j: int| 0 <= j < a.len() ==> b[j] == a[j],
        b.last().topic@ == "work_dispatched"@ || b.last().topic@ == "work_completed"@,
    ensures
        forall|j: int| 0 <= j < b.len() ==> (#[trigger] b[j]).topic@ != "work_stolen"@,
{
    reveal_strlit("work_dispatched");
    reveal_strlit("work_completed");
    reveal_strlit("work_stolen");
    assert(b.last().topic@.len() != "work_stolen"@.len());
    assert forall|j: int| 0 <= j < b.len() implies (#[trigger] b[j]).topic@ != "work_stolen"@ by {
        if j < a.len() {
            assert(b[j] == a[j]);
        }
    }
}

/// The first `i` items' rows are `Running` under the workers that the
/// biased dispatch picks.
pub open spec fn dispatched_rows(
    m: Map<(RunId, ContentId), WorkStateView>,
    run: RunId,
    ws: Seq<WorkerId>,
    items: int,
    i: int,
    now_ms: u128,
) -> bool {
    forall|j: int|
        0 <= j < i ==> (#[trigger] item_id(j)).0@ == mock_item_digest(j) && m.contains_key((run, item_id(j))) && m[(
            run,
            item_id(j),
        )] == (WorkStateView::Running { worker_id: ws[dispatch_slot(j, items, ws.len() as int)], started_at_ms: now_ms })
}

/// Dispatching the `i`-th item to its worker extends `dispatched_rows`.
proof fn lemma_dispatch_step(
    m: Map<(RunId, ContentId), WorkStateView>,
    run: RunId,
    ws: Seq<WorkerId>,
    items: int,
    i: int,
    now_ms: u128,
    work_id: ContentId,
)
    requires
        work_id.0@ == mock_item_digest(i),
        distinct_items(items),
        0 <= i < items,
        dispatched_rows(m, run, ws, items, i, now_ms),
    ensures
        dispatched_rows(
            m.insert(
                (run, work_id),
                WorkStateView::Running { worker_id: ws[dispatch_slot(i, items, ws.len() as int)], started_at_ms: now_ms },
            ),
            run,
            ws,
            items,
            i + 1,
            now_ms,
        ),
{
    lemma_item_id(work_id, i);
    let m2 = m.insert(
        (run, work_id),
        WorkStateView::Running { worker_id: ws[dispatch_slot(i, items, ws.len() as int)], started_at_ms: now_ms },
    );
    assert forall|j: int| 0 <= j < i + 1 implies (#[trigger] item_id(j)).0@ == mock_item_digest(j) && m2.contains_key(
        (run, item_id(j)),
    ) && m2[(run, item_id(j))] == (WorkStateView::Running {
        worker_id: ws[dispatch_slot(j, items, ws.len() as int)],
        started_at_ms: now_ms,
    }) by {
        if j < i {
            assert(mock_item_digest(j) != mock_item_digest(i));
            assert(item_id(j) != work_id);
        }
    }
}

/// Once the last worker has completed its rows, an item's row is `Running`
/// under a worker exactly when the dispatch gave it to that worker and that
/// worker is not the last.
proof fn lemma_thief_done(
    m: Map<(RunId, ContentId), WorkStateView>,
    m1: Map<(RunId, ContentId), WorkStateView>,
    run: RunId,
    ws: Seq<WorkerId>,
    items: int,
    now_ms: u128,
)
    requires
        ws.len() >= 2,
        distinct_workers(ws),
        dispatched_rows(m, run, ws, items, items, now_ms),
        m1 == complete_all(m, run, ws.last()),
        forall|j: int| 0 <= j < items ==> 0 <= #[trigger] dispatch_slot(j, items, ws.len() as int) < ws.len(),
    ensures
        forall|j: int| 0 <= j < items ==> m1.contains_key((run, #[trigger] item_id(j))),
        forall|j: int, w: WorkerId|
            0 <= j < items ==> (#[trigger] running_by(m1[(run, item_id(j))], w) <==> (dispatch_slot(
                j,
                items,
                ws.len() as int,
            ) != ws.len() - 1 && w == ws[dispatch_slot(j, items, ws.len() as int)])),
{
    let nw = ws.len() as int;
    assert forall|j: int| 0 <= j < items implies m1.contains_key((run, #[trigger] item_id(j))) by {
        assert(m.contains_key((run, item_id(j))));
    }
    assert forall|j: int, w: WorkerId| 0 <= j < items implies (#[trigger] running_by(m1[(run, item_id(j))], w) <==> (
    dispatch_slot(j, items, nw) != nw - 1 && w == ws[dispatch_slot(j, items, nw)])) by {
        let s = dispatch_slot(j, items, nw);
        assert(m.contains_key((run, item_id(j))));
        if s != nw - 1 {
            assert(ws[s] != ws[nw - 1]);
        }
    }
}

/// Every id that a steal lists has a row afterwards.
proof fn lemma_reassign_has(
    m: Map<(RunId, ContentId), WorkStateView>,
    run: RunId,
    ids: Seq<ContentId>,
    thief: WorkerId,
    now_ms: u128,
)
    ensures
        forall|k: int| 0 <= k < ids.len() ==> reassign(m, run, ids, thief, now_ms).contains_key((run, #[trigger] ids[k])),
    decreases ids.len(),
{
    if ids.len() > 0 {
        lemma_reassign_has(m, run, ids.drop_last(), thief, now_ms);
        assert forall|k: int| 0 <= k < ids.len() implies reassign(m, run, ids, thief, now_ms).contains_key(
            (run, #[trigger] ids[k]),
        ) by {
            if k < ids.len() - 1 {
                assert(ids.drop_last()[k] == ids[k]);
            }
        }
    }
}

/// Run the mock-backend ledger drive for `run_id` over `items` work units
/// and the workers `worker_ids`, at clock value `now_ms`.
///
/// 1. enqueue `items` payloads `"work-item-<i>"`;
/// 2. dispatch them in order, the first `ceil(items / 2)` to `worker_ids[0]`
///    and the rest round-robin over the other workers;
/// 3. complete the last worker's items, then let it steal from the busiest
///    peer;
/// 4. complete every remaining `Running` item of every worker.
///
/// Returns the number of the run's rows that are `Done` and the events to
/// emit (`work_dispatched`, `work_completed`, `work_stolen`, and a final
/// `run_done`); other runs' rows are untouched. On a run with no rows and
/// nothing queued beforehand, the run's rows are exactly the work ids of
/// the `items` payloads, every one of them ends `Done`, and the count is the
/// number of these rows. The `run_done` event counts the steals, at most
/// `MAX_STEAL_BATCH`, and the log holds exactly that many `work_stolen`
/// events, in one block, each naming the last worker as thief and a row of
/// the run. On a fresh run the log opens with one `work_dispatched` event
/// per item, in item order, naming the worker that `dispatch_slot` picks.
/// When moreover the workers are distinct and the items' work ids are
/// distinct, the first worker is the busiest peer at the steal, so
/// `steal_batch(ceil(items / 2))` items are stolen (at least one), each of
/// them one of the first `ceil(items / 2)` items.
pub fn mock_run(store: &mut MemStorage, run_id: RunId, items: usize, worker_ids: &Vec<WorkerId>, now_ms: u128) -> (r:
    (usize, Vec<DomainEvent>))
    requires
        old(store).wf(),
        worker_ids@.len() >= 2,
        items >= worker_ids@.len(),
        old(store).queue.next_seq() + items < u128::MAX,
    ensures
        final(store).wf(),
        same_except_work_queue(old(store), final(store)),
        other_runs_same(old(store).work.view(), final(store).work.view(), run_id),
        r.0 == count_done_spec(run_records(final(store).work.entries(), run_id)),
        fresh_run(old(store), run_id) ==> forall|k: (RunId, ContentId)|
            #[trigger] final(store).work.view().contains_key(k) && k.0 == run_id ==> final(store).work.view()[k]
                is Done,
        fresh_run(old(store), run_id) ==> r.0 == run_records(final(store).work.entries(), run_id).len(),
        fresh_run(old(store), run_id) ==> holds_items(final(store).work.view(), run_id, items as int),
        r.1@.len() > 0,
        all_progress(r.1@.drop_last(), run_id),
        r.1@.last().topic@ == "run_done"@,
        r.1@.last().run_id == Some(run_id),
        r.1@.last().attrs matches EventAttrs::RunDone { items: i, done: d, stolen: n } && i == items && d == r.0
            && n <= MAX_STEAL_BATCH,
        r.1@.last().attrs matches EventAttrs::RunDone { stolen: n, .. } ==> exists|a: int|
            stolen_block(r.1@.drop_last(), run_id, worker_ids@.last(), final(store).work.view().dom(), a, n as int),
        fresh_run(old(store), run_id) ==> forall|j: int|
            0 <= j < items ==> dispatched_item(
                #[trigger] r.1@[j],
                run_id,
                worker_ids@[dispatch_slot(j, items as int, worker_ids@.len() as int)],
                j,
            ),
        fresh_run(old(store), run_id) && distinct_workers(worker_ids@) && distinct_items(items as int) ==> (r.1@.last().attrs
            matches EventAttrs::RunDone { stolen: n, .. } && n == steal_batch((items / 2 + items % 2) as nat) && n > 0),
        fresh_run(old(store), run_id) && distinct_workers(worker_ids@) && distinct_items(items as int) ==> forall|i: int|
            0 <= i < r.1@.len() && (#[trigger] r.1@[i]).topic@ == "work_stolen"@ ==> stolen_from_first_half(
                r.1@[i],
                items as int,
            ),
{
    let ghost s0 = *store;
    let ghost fresh = fresh_run(store, run_id);
    let ghost seq0 = store.queue.next_seq() as int;
    let mut events: Vec<DomainEvent> = Vec::new();
    // 1. Enqueue the items.
    let mut i: usize = 0;
    while i < items
        invariant
            store.wf(),
            same_except_work_queue(&s0, store),
            store.work == s0.work,
            i <= items,
            seq0 + items < u128::MAX,
            store.queue.next_seq() == seq0 + i,
            fresh == fresh_run(&s0, run_id),
            seq0 >= 0,
            fresh ==> run_queue_is(store.queue.view(), run_id, seq0, seq0 + i),
            forall|j: int| 0 <= j < i ==> store.queue.view()[(seq0 + j) as u128].1 == #[trigger] mock_item_bytes(j),
            events@.len() == 0,
        decreases items - i,
    {
        let payload = item_payload(i);
        let ghost q = store.queue.view();
        enqueue(store, &run_id, payload);
        proof {
            if fresh {
                lemma_run_queue_extend(q, run_id, seq0, seq0 + i, payload@);
            }
            assert forall|j: int| 0 <= j < i + 1 implies store.queue.view()[(seq0 + j) as u128].1
                == #[trigger] mock_item_bytes(j) by {
                if j < i {
                    assert((seq0 + j) as u128 != (seq0 + i) as u128);
                }
            }
        }
        i = i + 1;
    }
    proof {
        if fresh {
            assert(settled_or_owned(store.work.view(), run_id, worker_ids@, 0));
            assert(holds_items(store.work.view(), run_id, 0));
        }
    }
    // 2. Dispatch every queued item, biased towards worker_ids[0].
    let nw = worker_ids.len();
    let half = items / 2 + items % 2;
    let mut i: usize = 0;
    while i < items
        invariant
            store.wf(),
            same_except_work_queue(&s0, store),
            i <= items,
            nw == worker_ids@.len(),
            nw >= 2,
            seq0 + items < u128::MAX,
            seq0 >= 0,
            fresh ==> run_queue_is(store.queue.view(), run_id, seq0 + i, seq0 + items),
            fresh ==> settled_or_owned(store.work.view(), run_id, worker_ids@, 0),
            other_runs_same(s0.work.view(), store.work.view(), run_id),
            all_progress(events@, run_id),
            fresh ==> forall|j: int|
                i <= j < items ==> store.queue.view()[(seq0 + j) as u128].1 == #[trigger] mock_item_bytes(j),
            fresh ==> holds_items(store.work.view(), run_id, i as int),
            half == items / 2 + items % 2,
            fresh ==> events@.len() == i,
            fresh ==> forall|j: int|
                0 <= j < events@.len() ==> dispatched_item(
                    #[trigger] events@[j],
                    run_id,
                    worker_ids@[dispatch_slot(j, items as int, nw as int)],
                    j,
                ),
            forall|j: int| 0 <= j < events@.len() ==> (#[trigger] events@[j]).topic@ != "work_stolen"@,
            fresh && distinct_items(items as int) ==> dispatched_rows(
                store.work.view(),
                run_id,
                worker_ids@,
                items as int,
                i as int,
                now_ms,
            ),
        decreases items - i,
    {
        let w = if i < half {
            worker_ids[0]
        } else {
            worker_ids[1 + i % (nw - 1)]
        };
        let ghost q = store.queue.view();
        let ghost m = store.work.view();
        let ghost sk: u128 = (seq0 + i) as u128;
        proof {
            assert(sk == seq0 + i);
            assert(seq0 + i <= sk < seq0 + items);
            if fresh {
                lemma_run_queue_member(q, run_id, seq0 + i, seq0 + items, sk);
            }
        }
        let got = dispatch(store, &run_id, w, now_ms);
        match got {
            None => {
                proof {
                    if fresh {
                        assert(has_entry(q, run_id));
                    }
                }
            },
            Some(work_id) => {
                let hex = work_id.to_hex();
                let ghost ev_before = events@;
                events.push(work_event("work_dispatched", run_id, Some(w), EventAttrs::WorkId(hex)));
                proof {
                    lemma_push_not_stolen(ev_before, events@);
                }
                proof {
                    let seq = choose|seq: u128|
                        is_front(q, run_id, seq) && work_id.0@ == blake3_digest(q[seq].1) && store.queue.view()
                            == q.remove(seq) && store.work.view() == m.insert(
                            (run_id, work_id),
                            WorkStateView::Running { worker_id: w, started_at_ms: now_ms },
                        );
                    assert forall|k: (RunId, ContentId)| k.0 != run_id implies (#[trigger] s0.work.view().contains_key(k)
                        == store.work.view().contains_key(k)) && (s0.work.view().contains_key(k) ==> s0.work.view()[k]
                        == store.work.view()[k]) by {
                        assert(m.contains_key(k) == store.work.view().contains_key(k));
                    }
                    if fresh {
                        assert(seq <= sk);
                        assert(q.contains_key(seq) && q[seq].0 == run_id);
                        assert(seq0 + i <= seq);
                        assert(seq == sk);
                        assert forall|kk: u128| (#[trigger] store.queue.view().contains_key(kk)
                            && store.queue.view()[kk].0 == run_id) <==> seq0 + i + 1 <= kk < seq0 + items by {
                            if kk != seq {
                                assert(store.queue.view().contains_key(kk) == q.contains_key(kk));
                            }
                        }
                        assert(run_queue_is(store.queue.view(), run_id, seq0 + i + 1, seq0 + items));
                        assert(q[sk].1 == mock_item_bytes(i as int));
                        assert(work_id.0@ == mock_item_digest(i as int));
                        assert forall|j: int| i + 1 <= j < items implies store.queue.view()[(seq0 + j) as u128].1
                            == #[trigger] mock_item_bytes(j) by {
                            assert((seq0 + j) as u128 != sk);
                            assert(q[(seq0 + j) as u128].1 == mock_item_bytes(j));
                        }
                        let m2 = store.work.view();
                        assert forall|j: int| 0 <= j < i + 1 implies #[trigger] has_item(m2, run_id, j) by {
                            if j < i {
                                assert(has_item(m, run_id, j));
                                let id = choose|id: ContentId| #[trigger] m.contains_key((run_id, id)) && id.0@
                                    == mock_item_digest(j);
                                assert(m2.contains_key((run_id, id)));
                            } else {
                                assert(m2.contains_key((run_id, work_id)));
                            }
                        }
                        assert forall|k: (RunId, ContentId)| #[trigger] m2.contains_key(k) && k.0 == run_id implies exists|
                            j: int,
                        | 0 <= j < i + 1 && k.1.0@ == #[trigger] mock_item_digest(j) by {
                            if k == (run_id, work_id) {
                                assert(k.1.0@ == mock_item_digest(i as int));
                            } else {
                                assert(m.contains_key(k));
                                assert(exists|j: int| 0 <= j < i && k.1.0@ == #[trigger] mock_item_digest(j));
                            }
                        }
                        assert(holds_items(m2, run_id, i + 1));
                        let wi: int = if i < half { 0 } else { 1 + (i % (nw - 1) as usize) as int };
                        assert(worker_ids@[wi] == w);
                        assert(wi == dispatch_slot(i as int, items as int, nw as int));
                        assert forall|j: int| 0 <= j < events@.len() implies dispatched_item(
                            #[trigger] events@[j],
                            run_id,
                            worker_ids@[dispatch_slot(j, items as int, nw as int)],
                            j,
                        ) by {
                            if j < ev_before.len() {
                                assert(events@[j] == ev_before[j]);
                            }
                        }
                        if distinct_items(items as int) {
                            lemma_dispatch_step(m, run_id, worker_ids@, items as int, i as int, now_ms, work_id);
                        }
                        assert forall|k: (RunId, ContentId)| #[trigger] store.work.view().contains_key(k) && k.0 == run_id
                            implies store.work.view()[k] is Done || (store.work.view()[k] is Running && exists|j: int|
                            0 <= j < worker_ids@.len() && running_by(store.work.view()[k], #[trigger] worker_ids@[j])) by {
                            if k == (run_id, work_id) {
                                assert(running_by(store.work.view()[k], worker_ids@[wi]));
                            } else {
                                assert(m.contains_key(k));
                            }
                        }
                    }
                }
            },
        }
        i = i + 1;
    }
    // 3. Force a real steal: the last worker completes what it holds, then
    //    steals from the busiest peer.
    let ghost evd = events@;
    let thief = worker_ids[nw - 1];
    let ghost m = store.work.view();
    let ghost ev0 = events@;
    let _ = complete_worker(store, &run_id, thief, &mut events);
    proof {
        lemma_progress_extended(ev0, events@, run_id);
        lemma_complete_keeps(m, run_id, worker_ids@, 0, thief);
        assert(store.work.view().dom() =~= m.dom());
        if fresh {
            lemma_holds_items_dom(m, store.work.view(), run_id, items as int);
        }
        assert(prefix_of(evd, events@));
        lemma_prefix_index(ev0, events@);
        reveal_strlit("work_completed");
        reveal_strlit("work_stolen");
        assert forall|j: int| 0 <= j < events@.len() implies (#[trigger] events@[j]).topic@ != "work_stolen"@ by {
            if j < ev0.len() {
                assert(events@[j] == ev0[j]);
            } else {
                assert(events@[j].topic@.len() != "work_stolen"@.len());
            }
        }
        if fresh && distinct_workers(worker_ids@) && distinct_items(items as int) {
            assert forall|j: int| 0 <= j < items implies 0 <= #[trigger] dispatch_slot(j, items as int, nw as int) < nw by {
                if j >= half {
                    assert(0 <= j % ((nw - 1) as int) < nw - 1);
                }
            }
            lemma_thief_done(m, store.work.view(), run_id, worker_ids@, items as int, now_ms);
            lemma_first_is_busiest(store, run_id, worker_ids@, items as int);
        }
    }
    let ghost m = store.work.view();
    let ghost t0 = store.work;
    let ghost st = *store;
    let ghost rr_steal = run_records(store.work.entries(), run_id);
    let ghost biased = fresh && distinct_workers(worker_ids@) && distinct_items(items as int);
    let stolen = handle_steal_request(store, &run_id, thief, now_ms);
    proof {
        lemma_reassign_keeps(m, run_id, stolen@, thief, now_ms, worker_ids@, 0, nw - 1);
        crate::laws::law_steal_moves_only_stolen(t0, run_id, thief, now_ms);
        if fresh {
            lemma_holds_items_dom(m, store.work.view(), run_id, items as int);
        }
        lemma_reassign_has(m, run_id, stolen@, thief, now_ms);
        if fresh && distinct_workers(worker_ids@) && distinct_items(items as int) {
            let w0 = worker_ids@[0];
            assert(is_busiest(rr_steal, thief, w0));
            let victim = choose|w: WorkerId| is_busiest(rr_steal, thief, w);
            lemma_busiest_unique(rr_steal, thief, victim, w0);
            lemma_victim_ids_len(rr_steal, w0);
            assert(stolen@.len() == steal_batch(half as nat));
            assert forall|kk: int| 0 <= kk < stolen@.len() implies exists|jj: int|
                0 <= jj < items / 2 + items % 2 && (#[trigger] stolen@[kk]).0@ == mock_item_digest(jj) by {
                assert(stolen@[kk] == victim_ids(rr_steal, w0)[kk]);
                let j = lemma_victim_ids_member(rr_steal, w0, kk);
                st.work.lemma_entries();
                lemma_run_records_members(st.work.entries(), run_id);
                let jj = choose|jj: int|
                    0 <= jj < st.work.entries().len() && st.work.entries()[jj] == (run_id, #[trigger] rr_steal[j].0, rr_steal[j].1);
                assert(st.work.entries()[jj] == st.work.entries()[jj]);
                lemma_first_rows_first_half(&st, run_id, worker_ids@, items as int, stolen@[kk]);
            }
        }
    }
    let ghost d_steal = store.work.view().dom();
    let ghost a = events@.len() as int;
    proof {
        assert(stolen_block(events@, run_id, thief, d_steal, a, 0));
    }
    let mut k: usize = 0;
    while k < stolen.len()
        invariant
            k <= stolen@.len(),
            all_progress(events@, run_id),
            fresh ==> holds_items(store.work.view(), run_id, items as int),
            events@.len() == a + k,
            prefix_of(evd, events@),
            stolen_block(events@, run_id, thief, d_steal, a, k as int),
            d_steal == store.work.view().dom(),
            forall|kk: int| 0 <= kk < stolen@.len() ==> d_steal.contains((run_id, #[trigger] stolen@[kk])),
            biased ==> forall|kk: int| 0 <= kk < stolen@.len() ==> exists|jj: int|
                0 <= jj < items / 2 + items % 2 && (#[trigger] stolen@[kk]).0@ == mock_item_digest(jj),
            biased ==> forall|kk: int| 0 <= kk < k ==> stolen_from_first_half(#[trigger] events@[a + kk], items as int),
        decreases stolen@.len() - k,
    {
        let hex = stolen[k].to_hex();
        let thief_text = thief.to_text();
        let ghost ev_before = events@;
        events.push(work_event("work_stolen", run_id, Some(thief), EventAttrs::Stolen { work_id: hex, thief: thief_text }));
        proof {
            reveal_strlit("work_stolen");
            lemma_prefix_index(evd, ev_before);
            assert(events@.subrange(0, evd.len() as int) =~= evd);
            assert(d_steal.contains((run_id, stolen@[k as int])));
            assert(stolen_by(events@[a + k], run_id, thief, d_steal));
            assert forall|kk: int| 0 <= kk < k + 1 implies stolen_by(#[trigger] events@[a + kk], run_id, thief, d_steal) by {
                if kk < k {
                    assert(events@[a + kk] == ev_before[a + kk]);
                }
            }
            if biased {
                let x = stolen@[k as int];
                let jj = choose|jj: int| 0 <= jj < items / 2 + items % 2 && x.0@ == mock_item_digest(jj);
                assert(stolen_from_first_half(events@[a + k], items as int));
                assert forall|kk: int| 0 <= kk < k + 1 implies stolen_from_first_half(#[trigger] events@[a + kk], items as int) by {
                    if kk < k {
                        assert(events@[a + kk] == ev_before[a + kk]);
                    }
                }
            }
            assert forall|ii: int| 0 <= ii < events@.len() && (#[trigger] events@[ii]).topic@ == "work_stolen"@
                implies a <= ii < a + k + 1 by {
                if ii < ev_before.len() {
                    assert(events@[ii] == ev_before[ii]);
                }
            }
        }
        k = k + 1;
    }
    // 4. Complete every remaining Running item across all workers.
    let ghost evs = events@;
    let mut j: usize = 0;
    while j < nw
        invariant
            store.wf(),
            same_except_work_queue(&s0, store),
            j <= nw,
            nw == worker_ids@.len(),
            fresh ==> settled_or_owned(store.work.view(), run_id, worker_ids@, j as int),
            other_runs_same(s0.work.view(), store.work.view(), run_id),
            all_progress(events@, run_id),
            fresh ==> holds_items(store.work.view(), run_id, items as int),
            d_steal == store.work.view().dom(),
            prefix_of(evd, events@),
            stolen_block(events@, run_id, thief, d_steal, a, stolen@.len() as int),
            biased ==> forall|kk: int|
                0 <= kk < stolen@.len() ==> stolen_from_first_half(#[trigger] events@[a + kk], items as int),
        decreases nw - j,
    {
        let ghost m = store.work.view();
        let ghost ev0 = events@;
        let _ = complete_worker(store, &run_id, worker_ids[j], &mut events);
        proof {
            lemma_progress_extended(ev0, events@, run_id);
            lemma_complete_keeps(m, run_id, worker_ids@, j as int, worker_ids@[j as int]);
            assert(store.work.view().dom() =~= m.dom());
            if fresh {
                lemma_holds_items_dom(m, store.work.view(), run_id, items as int);
            }
            lemma_prefix_trans(evd, ev0, events@);
            lemma_block_extended(ev0, events@, run_id, thief, d_steal, a, stolen@.len() as int);
            lemma_prefix_index(ev0, events@);
            if biased {
                assert forall|kk: int| 0 <= kk < stolen@.len() implies stolen_from_first_half(
                    #[trigger] events@[a + kk],
                    items as int,
                ) by {
                    assert(events@[a + kk] == ev0[a + kk]);
                }
            }
        }
        j = j + 1;
    }
    let total_done = count_done(store, &run_id);
    proof {
        if fresh {
            lemma_fresh_all_done(store, run_id, worker_ids@);
        }
    }
    let ghost ev_before_done = events@;
    events.push(
        work_event(
            "run_done",
            run_id,
            None,
            EventAttrs::RunDone { items, done: total_done, stolen: stolen.len() },
        ),
    );
    proof {
        assert(events@.drop_last() =~= ev_before_done);
        assert(thief == worker_ids@.last());
        assert(stolen_block(events@.drop_last(), run_id, worker_ids@.last(), store.work.view().dom(), a, stolen@.len() as int));
        assert(stolen@.len() <= MAX_STEAL_BATCH);
        let nn: usize = match events@.last().attrs {
            EventAttrs::RunDone { stolen, .. } => stolen,
            _ => 0,
        };
        assert(nn == stolen.len());
        assert(stolen_block(events@.drop_last(), run_id, worker_ids@.last(), store.work.view().dom(), a, nn as int));
        assert(events@.last().attrs == EventAttrs::RunDone { items, done: total_done, stolen: stolen.len() });
        lemma_prefix_index(evd, ev_before_done);
        if biased {
            reveal_strlit("run_done");
            reveal_strlit("work_stolen");
            assert forall|i: int| 0 <= i < events@.len() && (#[trigger] events@[i]).topic@ == "work_stolen"@ implies stolen_from_first_half(
                events@[i],
                items as int,
            ) by {
                if i < ev_before_done.len() {
                    assert(events@[i] == ev_before_done[i]);
                    let kk = i - a;
                    assert(events@[a + kk] == events@[i]);
                } else {
                    assert(events@[i].topic@.len() != "work_stolen"@.len());
                }
            }
        }
        if fresh {
            assert forall|jj: int| 0 <= jj < items implies dispatched_item(
                #[trigger] events@[jj],
                run_id,
                worker_ids@[dispatch_slot(jj, items as int, worker_ids@.len() as int)],
                jj,
            ) by {
                assert(events@[jj] == ev_before_done[jj]);
                assert(ev_before_done[jj] == evd[jj]);
            }
        }
    }
    (total_done, events)
}

} // verus!

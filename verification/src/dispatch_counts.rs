//! How many rows each worker holds after the mock run's biased dispatch:
//! counting by item index, and the same count over a run's listing.

use vstd::prelude::*;

use crate::ids::{bytes_lt, lemma_bytes_lt_irreflexive, ContentId, RunId, WorkerId};
use crate::ledger::count_running;
use crate::steal::victim_ids;
use crate::mock_run::{distinct_items, distinct_workers, holds_items, mock_item_digest};
use crate::storage::MemStorage;
use crate::work_item::{running_by, WorkStateView};
use crate::work_table::{lemma_run_records_members, lemma_run_records_sorted, run_records};

verus! {

/// Index in the worker list of the worker that the `j`-th of `items` items
/// is dispatched to over `nw` workers: `0` for the first `ceil(items / 2)`
/// items, then round-robin over the others.
pub open spec fn dispatch_slot(j: int, items: int, nw: int) -> int {
    if j < items / 2 + items % 2 {
        0
    } else {
        1 + j % (nw - 1)
    }
}

/// Number of the first `n` items dispatched to slot `t`.
pub open spec fn slot_count(n: int, items: int, nw: int, t: int) -> nat
    decreases n,
{
    if n <= 0 {
        0
    } else {
        slot_count(n - 1, items, nw, t) + if dispatch_slot(n - 1, items, nw) == t {
            1nat
        } else {
            0nat
        }
    }
}

/// Number of `j` in `[a, b)` with `j % k == c`.
pub open spec fn mod_count(a: int, b: int, k: int, c: int) -> nat
    decreases b - a,
{
    if b <= a {
        0
    } else {
        mod_count(a, b - 1, k, c) + if (b - 1) % k == c {
            1nat
        } else {
            0nat
        }
    }
}

/// Two consecutive integers never share a residue modulo `k >= 2`.
proof fn lemma_consecutive_residues(x: int, k: int)
    requires
        k >= 2,
        x >= 0,
    ensures
        x % k != (x + 1) % k,
{
    vstd::arithmetic::div_mod::lemma_fundamental_div_mod(x, k);
    vstd::arithmetic::div_mod::lemma_fundamental_div_mod(x + 1, k);
    let q1 = x / k;
    let q2 = (x + 1) / k;
    if x % k == (x + 1) % k {
        assert(k * (q2 - q1) == 1) by (nonlinear_arith)
            requires
                x == k * q1 + x % k,
                x + 1 == k * q2 + (x + 1) % k,
                x % k == (x + 1) % k,
        ;
        if q2 - q1 >= 1 {
            assert(k * (q2 - q1) >= 2) by (nonlinear_arith)
                requires
                    k >= 2,
                    q2 - q1 >= 1,
            ;
        } else {
            assert(k * (q2 - q1) <= 0) by (nonlinear_arith)
                requires
                    k >= 2,
                    q2 - q1 <= 0,
            ;
        }
    }
}

/// At most every other integer of `[a, b)` has a given residue modulo `k >= 2`.
proof fn lemma_mod_count_half(a: int, b: int, k: int, c: int)
    requires
        k >= 2,
        a >= 0,
    ensures
        mod_count(a, b, k, c) * 2 <= b - a + 1 || b <= a,
    decreases b - a,
{
    if b - a >= 2 {
        lemma_mod_count_half(a, b - 2, k, c);
        lemma_consecutive_residues(b - 2, k);
        assert(mod_count(a, b - 1, k, c) == mod_count(a, b - 2, k, c) + if (b - 2) % k == c {
            1nat
        } else {
            0nat
        });
    } else if b - a == 1 {
        assert(mod_count(a, b - 1, k, c) == 0);
    }
}

/// The first `n` items fill slot `0` up to `ceil(items / 2)`.
proof fn lemma_slot0_count(n: int, items: int, nw: int)
    requires
        0 <= n <= items,
        nw >= 2,
    ensures
        slot_count(n, items, nw, 0) == if n < items / 2 + items % 2 {
            n
        } else {
            items / 2 + items % 2
        },
    decreases n,
{
    if n > 0 {
        lemma_slot0_count(n - 1, items, nw);
        if n - 1 >= items / 2 + items % 2 {
            assert(1 + (n - 1) % (nw - 1) >= 1);
        }
    }
}

/// Past the first `ceil(items / 2)` items, a slot `t >= 1` receives the
/// items whose index has residue `t - 1` modulo `nw - 1`.
proof fn lemma_slot_count_mod(n: int, items: int, nw: int, t: int)
    requires
        0 <= n <= items,
        nw >= 2,
        t >= 1,
    ensures
        n <= items / 2 + items % 2 ==> slot_count(n, items, nw, t) == 0,
        n > items / 2 + items % 2 ==> slot_count(n, items, nw, t) == mod_count(
            items / 2 + items % 2,
            n,
            nw - 1,
            t - 1,
        ),
    decreases n,
{
    if n > 0 {
        lemma_slot_count_mod(n - 1, items, nw, t);
        let half = items / 2 + items % 2;
        if n > half {
            assert(mod_count(half, n, nw - 1, t - 1) == mod_count(half, n - 1, nw - 1, t - 1) + if (n - 1) % (nw
                - 1) == t - 1 {
                1nat
            } else {
                0nat
            });
            assert(dispatch_slot(n - 1, items, nw) == 1 + (n - 1) % (nw - 1));
            if n - 1 == half {
                assert(mod_count(half, n - 1, nw - 1, t - 1) == 0);
            }
        }
    }
}

/// With at least three workers and at least as many items, every slot other
/// than `0` receives fewer items than slot `0`.
pub proof fn lemma_other_slots_smaller(items: int, nw: int, t: int)
    requires
        nw >= 3,
        items >= nw,
        1 <= t,
    ensures
        slot_count(items, items, nw, t) < slot_count(items, items, nw, 0),
        slot_count(items, items, nw, 0) == items / 2 + items % 2,
{
    lemma_slot0_count(items, items, nw);
    lemma_slot_count_mod(items, items, nw, t);
    let half = items / 2 + items % 2;
    if items > half {
        lemma_mod_count_half(half, items, nw - 1, t - 1);
    }
}

/// The work id of the `j`-th mock item.
pub open spec fn item_id(j: int) -> ContentId {
    choose|c: ContentId| c.0@ == mock_item_digest(j)
}

/// The work ids of the first `n` mock items, in item order.
pub open spec fn item_seq(n: int) -> Seq<ContentId> {
    Seq::new(n as nat, |j: int| item_id(j))
}

/// A work id whose digest is that of the `j`-th item is that item's id.
pub proof fn lemma_item_id(c: ContentId, j: int)
    requires
        c.0@ == mock_item_digest(j),
    ensures
        c == item_id(j),
{
    broadcast use vstd::array::axiom_array_ext_equal;
    let d = item_id(j);
    assert(d.0@ == c.0@);
    assert(d.0 =~= c.0);
}

/// Number of ids of `s` whose row of `run` in `m` is `Running` under `w`.
pub open spec fn cnt_ids(s: Seq<ContentId>, m: Map<(RunId, ContentId), WorkStateView>, run: RunId, w: WorkerId) -> nat
    decreases s.len(),
{
    if s.len() == 0 {
        0
    } else {
        cnt_ids(s.drop_last(), m, run, w) + if running_by(m[(run, s.last())], w) {
            1nat
        } else {
            0nat
        }
    }
}

proof fn lemma_cnt_remove(s: Seq<ContentId>, m: Map<(RunId, ContentId), WorkStateView>, run: RunId, w: WorkerId, i: int)
    requires
        0 <= i < s.len(),
    ensures
        cnt_ids(s, m, run, w) == cnt_ids(s.remove(i), m, run, w) + if running_by(m[(run, s[i])], w) {
            1nat
        } else {
            0nat
        },
    decreases s.len(),
{
    if i < s.len() - 1 {
        lemma_cnt_remove(s.drop_last(), m, run, w, i);
        assert(s.remove(i).drop_last() =~= s.drop_last().remove(i));
        assert(s.remove(i).last() == s.last());
    } else {
        assert(s.remove(i) =~= s.drop_last());
    }
}

/// Two duplicate-free sequences of the same ids count alike.
proof fn lemma_cnt_perm(
    a: Seq<ContentId>,
    b: Seq<ContentId>,
    m: Map<(RunId, ContentId), WorkStateView>,
    run: RunId,
    w: WorkerId,
)
    requires
        a.no_duplicates(),
        b.no_duplicates(),
        forall|x: ContentId| a.contains(x) <==> b.contains(x),
    ensures
        cnt_ids(a, m, run, w) == cnt_ids(b, m, run, w),
    decreases a.len(),
{
    if a.len() == 0 {
        if b.len() > 0 {
            assert(b.contains(b[0]));
        }
    } else {
        let x = a.last();
        assert(a.contains(a[a.len() - 1]));
        let i = choose|i: int| 0 <= i < b.len() && b[i] == x;
        let a2 = a.drop_last();
        let b2 = b.remove(i);
        lemma_cnt_remove(b, m, run, w, i);
        assert forall|p: int, q: int| 0 <= p < b2.len() && 0 <= q < b2.len() && p != q implies b2[p] != b2[q] by {
            let pp = if p < i { p } else { p + 1 };
            let qq = if q < i { q } else { q + 1 };
            assert(b2[p] == b[pp] && b2[q] == b[qq]);
        }
        assert forall|p: int, q: int| 0 <= p < a2.len() && 0 <= q < a2.len() && p != q implies a2[p] != a2[q] by {
            assert(a2[p] == a[p] && a2[q] == a[q]);
        }
        assert forall|y: ContentId| a2.contains(y) <==> b2.contains(y) by {
            if a2.contains(y) {
                let p = choose|p: int| 0 <= p < a2.len() && a2[p] == y;
                assert(a[p] == y);
                assert(y != x);
                assert(b.contains(y));
                let q = choose|q: int| 0 <= q < b.len() && b[q] == y;
                assert(q != i);
                let qq = if q < i { q } else { q - 1 };
                assert(b2[qq] == y);
            }
            if b2.contains(y) {
                let q = choose|q: int| 0 <= q < b2.len() && b2[q] == y;
                let qq = if q < i { q } else { q + 1 };
                assert(b[qq] == y);
                assert(qq != i);
                assert(y != x);
                assert(a.contains(y));
                let p = choose|p: int| 0 <= p < a.len() && a[p] == y;
                assert(p != a.len() - 1);
                assert(a2[p] == y);
            }
        }
        lemma_cnt_perm(a2, b2, m, run, w);
    }
}

/// Ids of a listing.
pub open spec fn listing_ids(rr: Seq<(ContentId, WorkStateView)>) -> Seq<ContentId> {
    rr.map_values(|p: (ContentId, WorkStateView)| p.0)
}

/// Over a listing that agrees with the map, the backlog count is `cnt_ids`.
proof fn lemma_count_as_cnt(
    rr: Seq<(ContentId, WorkStateView)>,
    m: Map<(RunId, ContentId), WorkStateView>,
    run: RunId,
    w: WorkerId,
)
    requires
        forall|j: int| 0 <= j < rr.len() ==> m[(run, (#[trigger] rr[j]).0)] == rr[j].1,
    ensures
        count_running(rr, w) == cnt_ids(listing_ids(rr), m, run, w),
    decreases rr.len(),
{
    if rr.len() > 0 {
        let p = rr.drop_last();
        assert forall|j: int| 0 <= j < p.len() implies m[(run, (#[trigger] p[j]).0)] == p[j].1 by {
            assert(p[j] == rr[j]);
        }
        lemma_count_as_cnt(p, m, run, w);
        assert(listing_ids(p) =~= listing_ids(rr).drop_last());
        assert(rr[rr.len() - 1] == rr.last());
    }
}

/// Counting over the item ids by item index.
proof fn lemma_cnt_items(
    n: int,
    m: Map<(RunId, ContentId), WorkStateView>,
    run: RunId,
    w: WorkerId,
    items: int,
    nw: int,
    t: int,
)
    requires
        0 <= n,
        forall|j: int| 0 <= j < n ==> (running_by(m[(run, #[trigger] item_id(j))], w) <==> dispatch_slot(j, items, nw) == t),
    ensures
        cnt_ids(item_seq(n), m, run, w) == slot_count(n, items, nw, t),
    decreases n,
{
    if n > 0 {
        assert(item_seq(n).drop_last() =~= item_seq(n - 1));
        lemma_cnt_items(n - 1, m, run, w, items, nw, t);
        assert(item_seq(n).last() == item_id(n - 1));
    }
}

/// No item `Running` under `w` counts nothing.
proof fn lemma_cnt_items_zero(n: int, m: Map<(RunId, ContentId), WorkStateView>, run: RunId, w: WorkerId)
    requires
        0 <= n,
        forall|j: int| 0 <= j < n ==> !running_by(m[(run, #[trigger] item_id(j))], w),
    ensures
        cnt_ids(item_seq(n), m, run, w) == 0,
    decreases n,
{
    if n > 0 {
        assert(item_seq(n).drop_last() =~= item_seq(n - 1));
        lemma_cnt_items_zero(n - 1, m, run, w);
        assert(item_seq(n).last() == item_id(n - 1));
    }
}

/// After the biased dispatch and the last worker's completions, the first
/// worker is the busiest peer of the last one, holding `ceil(items / 2)`
/// rows.
pub proof fn lemma_first_is_busiest(store: &MemStorage, run: RunId, ws: Seq<WorkerId>, items: int)
    requires
        store.wf(),
        ws.len() >= 2,
        items >= ws.len(),
        distinct_workers(ws),
        distinct_items(items),
        holds_items(store.work.view(), run, items),
        forall|j: int| 0 <= j < items ==> store.work.view().contains_key((run, #[trigger] item_id(j))),
        forall|j: int, w: WorkerId|
            0 <= j < items ==> (#[trigger] running_by(store.work.view()[(run, item_id(j))], w) <==> (dispatch_slot(
                j,
                items,
                ws.len() as int,
            ) != ws.len() - 1 && w == ws[dispatch_slot(j, items, ws.len() as int)])),
    ensures
        crate::ledger::is_busiest(run_records(store.work.entries(), run), ws.last(), ws[0]),
        count_running(run_records(store.work.entries(), run), ws[0]) == items / 2 + items % 2,
        count_running(run_records(store.work.entries(), run), ws.last()) == 0,
{
    let m = store.work.view();
    let es = store.work.entries();
    let rr = run_records(es, run);
    let nw = ws.len() as int;
    let half = items / 2 + items % 2;
    let thief = ws.last();
    store.work.lemma_entries();
    lemma_run_records_members(es, run);
    lemma_run_records_sorted(es, run);
    assert forall|j: int| 0 <= j < rr.len() implies m[(run, (#[trigger] rr[j]).0)] == rr[j].1 by {
        let jj = choose|jj: int| 0 <= jj < es.len() && es[jj] == (run, #[trigger] rr[j].0, rr[j].1);
        assert(es[jj] == es[jj]);
    }
    let ids = listing_ids(rr);
    let its = item_seq(items);
    assert forall|p: int, q: int| 0 <= p < ids.len() && 0 <= q < ids.len() && p != q implies ids[p] != ids[q] by {
        if p < q {
            assert(bytes_lt(rr[p].0.0@, rr[q].0.0@));
        } else {
            assert(bytes_lt(rr[q].0.0@, rr[p].0.0@));
        }
        if ids[p] == ids[q] {
            lemma_bytes_lt_irreflexive(ids[p].0@);
        }
    }
    assert forall|p: int, q: int| 0 <= p < its.len() && 0 <= q < its.len() && p != q implies its[p] != its[q] by {
        if p < q {
            assert(mock_item_digest(p) != mock_item_digest(q));
        } else {
            assert(mock_item_digest(q) != mock_item_digest(p));
        }
        assert(item_id(p).0@ == mock_item_digest(p)) by {
            assert(crate::mock_run::has_item(m, run, p));
        }
        assert(item_id(q).0@ == mock_item_digest(q)) by {
            assert(crate::mock_run::has_item(m, run, q));
        }
    }
    assert forall|x: ContentId| ids.contains(x) <==> its.contains(x) by {
        if ids.contains(x) {
            let p = choose|p: int| 0 <= p < ids.len() && ids[p] == x;
            assert(ids[p] == rr[p].0);
            let jj = choose|jj: int| 0 <= jj < es.len() && es[jj] == (run, #[trigger] rr[p].0, rr[p].1);
            assert(es[jj] == es[jj]);
            assert(m.contains_key((run, x)));
            let j = choose|j: int| 0 <= j < items && x.0@ == #[trigger] mock_item_digest(j);
            lemma_item_id(x, j);
            assert(its[j] == x);
        }
        if its.contains(x) {
            let j = choose|j: int| 0 <= j < its.len() && its[j] == x;
            assert(m.contains_key((run, item_id(j))));
            let i = choose|i: int| 0 <= i < es.len() && (es[i].0, es[i].1) == (run, x);
            assert(es[i] == es[i]);
            assert(rr.contains((es[i].1, es[i].2)));
            let p = choose|p: int| 0 <= p < rr.len() && rr[p] == (es[i].1, es[i].2);
            assert(ids[p] == x);
        }
    }
    assert forall|w: WorkerId| #[trigger] count_running(rr, w) == cnt_ids(its, m, run, w) by {
        lemma_count_as_cnt(rr, m, run, w);
        lemma_cnt_perm(ids, its, m, run, w);
    }
    // The first worker holds exactly the first half.
    assert forall|j: int| 0 <= j < items implies (running_by(m[(run, #[trigger] item_id(j))], ws[0]) <==> dispatch_slot(
        j,
        items,
        nw,
    ) == 0) by {
        let s = dispatch_slot(j, items, nw);
        assert(m.contains_key((run, item_id(j))));
        assert(0 <= s < nw) by {
            if j >= half {
                assert(0 <= j % (nw - 1) < nw - 1);
            }
        }
        if s != 0 {
            assert(ws[s] != ws[0]);
        }
    }
    lemma_cnt_items(items, m, run, ws[0], items, nw, 0);
    lemma_slot0_count(items, items, nw);
    assert(count_running(rr, ws[0]) == half);
    assert(ws[0] != thief);
    assert forall|j: int| 0 <= j < items implies !running_by(m[(run, #[trigger] item_id(j))], thief) by {
        assert(m.contains_key((run, item_id(j))));
        if running_by(m[(run, item_id(j))], thief) {
            let s = dispatch_slot(j, items, nw);
            assert(0 <= s < nw) by {
                if j >= half {
                    assert(0 <= j % (nw - 1) < nw - 1);
                }
            }
            assert(ws[s] == thief);
            assert(ws[nw - 1] == thief);
        }
    }
    lemma_cnt_items_zero(items, m, run, thief);
    assert(count_running(rr, thief) == 0);
    assert forall|w2: WorkerId| w2 != thief implies #[trigger] count_running(rr, w2) < count_running(rr, ws[0]) || (count_running(
        rr,
        w2,
    ) == count_running(rr, ws[0]) && w2.0 <= ws[0].0) by {
        if w2 != ws[0] {
            if exists|t: int| 1 <= t < nw - 1 && ws[t] == w2 {
                let t = choose|t: int| 1 <= t < nw - 1 && ws[t] == w2;
                assert forall|j: int| 0 <= j < items implies (running_by(m[(run, #[trigger] item_id(j))], w2)
                    <==> dispatch_slot(j, items, nw) == t) by {
                    let s = dispatch_slot(j, items, nw);
                    assert(m.contains_key((run, item_id(j))));
                    assert(0 <= s < nw) by {
                        if j >= half {
                            assert(0 <= j % (nw - 1) < nw - 1);
                        }
                    }
                    if s != t {
                        assert(ws[s] != ws[t]);
                    }
                }
                lemma_cnt_items(items, m, run, w2, items, nw, t);
                lemma_other_slots_smaller(items, nw, t);
            } else {
                assert forall|j: int| 0 <= j < items implies !running_by(m[(run, #[trigger] item_id(j))], w2) by {
                    let s = dispatch_slot(j, items, nw);
                    assert(m.contains_key((run, item_id(j))));
                    assert(0 <= s < nw) by {
                        if j >= half {
                            assert(0 <= j % (nw - 1) < nw - 1);
                        }
                    }
                    if running_by(m[(run, item_id(j))], w2) {
                        assert(ws[s] == w2);
                        assert(s != nw - 1);
                        assert(s != 0);
                    }
                }
                lemma_cnt_items_zero(items, m, run, w2);
            }
        }
    }
}

/// Every id of a worker's victim listing is one of that worker's `Running` rows.
pub proof fn lemma_victim_ids_member(rr: Seq<(ContentId, WorkStateView)>, w: WorkerId, k: int) -> (j: int)
    requires
        0 <= k < victim_ids(rr, w).len(),
    ensures
        0 <= j < rr.len(),
        rr[j].0 == victim_ids(rr, w)[k],
        running_by(rr[j].1, w),
    decreases rr.len(),
{
    let p = rr.drop_last();
    if running_by(rr.last().1, w) && k == victim_ids(p, w).len() {
        assert(rr[rr.len() - 1] == rr.last());
        rr.len() - 1
    } else {
        let j = lemma_victim_ids_member(p, w, k);
        assert(rr[j] == p[j]);
        j
    }
}

/// After the biased dispatch and the last worker's completions, every
/// `Running` row of the first worker is one of the first `ceil(items / 2)`
/// items.
pub proof fn lemma_first_rows_first_half(store: &MemStorage, run: RunId, ws: Seq<WorkerId>, items: int, id: ContentId)
    requires
        store.wf(),
        ws.len() >= 2,
        distinct_workers(ws),
        holds_items(store.work.view(), run, items),
        forall|j: int| 0 <= j < items ==> store.work.view().contains_key((run, #[trigger] item_id(j))),
        forall|j: int, w: WorkerId|
            0 <= j < items ==> (#[trigger] running_by(store.work.view()[(run, item_id(j))], w) <==> (dispatch_slot(
                j,
                items,
                ws.len() as int,
            ) != ws.len() - 1 && w == ws[dispatch_slot(j, items, ws.len() as int)])),
        store.work.view().contains_key((run, id)),
        running_by(store.work.view()[(run, id)], ws[0]),
    ensures
        exists|j: int| 0 <= j < items / 2 + items % 2 && id.0@ == #[trigger] mock_item_digest(j),
{
    let m = store.work.view();
    let nw = ws.len() as int;
    let j = choose|j: int| 0 <= j < items && id.0@ == #[trigger] mock_item_digest(j);
    lemma_item_id(id, j);
    assert(running_by(m[(run, item_id(j))], ws[0]));
    let s = dispatch_slot(j, items, nw);
    assert(0 <= s < nw) by {
        if j >= items / 2 + items % 2 {
            assert(0 <= j % (nw - 1) < nw - 1);
        }
    }
    if s != 0 {
        assert(ws[s] != ws[0]);
    }
}

} // verus!

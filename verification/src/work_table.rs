//! The `work` ledger: rows keyed by `(run, work id)`, kept in key order
//! (run first, then the work id's bytes), which is the order a prefix scan
//! of the ledger visits them.

use vstd::prelude::*;

use crate::ids::{bytes_lt, lemma_bytes_lt_irreflexive, lemma_bytes_lt_total, lemma_bytes_lt_transitive, ContentId, RunId};
use crate::work_item::{WorkItemRecord, WorkState, WorkStateView};

verus! {

/// Key order of the ledger: by run, then by work-id bytes.
pub open spec fn wkey_lt(a: (RunId, ContentId), b: (RunId, ContentId)) -> bool {
    a.0.0 < b.0.0 || (a.0 == b.0 && bytes_lt(a.1.0@, b.1.0@))
}

/// `wkey_lt` is a strict total order on keys.
pub proof fn lemma_wkey_order()
    ensures
        forall|a: (RunId, ContentId)| !#[trigger] wkey_lt(a, a),
        forall|a: (RunId, ContentId), b: (RunId, ContentId), c: (RunId, ContentId)|
            #[trigger] wkey_lt(a, b) && #[trigger] wkey_lt(b, c) ==> wkey_lt(a, c),
        forall|a: (RunId, ContentId), b: (RunId, ContentId)|
            a != b ==> #[trigger] wkey_lt(a, b) || #[trigger] wkey_lt(b, a),
{
    assert forall|a: (RunId, ContentId)| !#[trigger] wkey_lt(a, a) by {
        lemma_bytes_lt_irreflexive(a.1.0@);
    }
    assert forall|a: (RunId, ContentId), b: (RunId, ContentId), c: (RunId, ContentId)|
        #[trigger] wkey_lt(a, b) && #[trigger] wkey_lt(b, c) implies wkey_lt(a, c) by {
        if a.0 == b.0 && b.0 == c.0 {
            lemma_bytes_lt_transitive(a.1.0@, b.1.0@, c.1.0@);
        }
    }
    assert forall|a: (RunId, ContentId), b: (RunId, ContentId)|
        a != b implies #[trigger] wkey_lt(a, b) || #[trigger] wkey_lt(b, a) by {
        if a.0 == b.0 {
            if a.1.0@ == b.1.0@ {
                broadcast use vstd::array::axiom_array_ext_equal;
                assert(a.1.0 =~= b.1.0);
            } else {
                lemma_bytes_lt_total(a.1.0@, b.1.0@);
            }
        }
    }
}

/// One ledger entry as a mathematical value: run, work id, state.
pub type WorkEntry = (RunId, ContentId, WorkStateView);

/// The `(id, state)` pairs of the entries that belong to `run`, in order.
pub open spec fn run_records(es: Seq<WorkEntry>, run: RunId) -> Seq<(ContentId, WorkStateView)>
    decreases es.len(),
{
    if es.len() == 0 {
        Seq::empty()
    } else {
        let r = run_records(es.drop_last(), run);
        if es.last().0 == run {
            r.push((es.last().1, es.last().2))
        } else {
            r
        }
    }
}

/// `(id, state)` value of each record of a sequence.
pub open spec fn rec_views(s: Seq<WorkItemRecord>) -> Seq<(ContentId, WorkStateView)> {
    s.map_values(|r: WorkItemRecord| (r.id, r.state@))
}

/// The work ledger.
pub struct WorkTable {
    runs: Vec<RunId>,
    recs: Vec<WorkItemRecord>,
    m: Ghost<Map<(RunId, ContentId), WorkStateView>>,
}

impl WorkTable {
    /// Map from `(run, work id)` to the row's state.
    pub closed spec fn view(&self) -> Map<(RunId, ContentId), WorkStateView> {
        self.m@
    }

    /// The rows in key order.
    pub closed spec fn entries(&self) -> Seq<WorkEntry> {
        Seq::new(self.recs@.len(), |i: int| (self.runs@[i], self.recs@[i].id, self.recs@[i].state@))
    }

    spec fn key(&self, i: int) -> (RunId, ContentId) {
        (self.runs@[i], self.recs@[i].id)
    }

    /// Internal consistency.
    pub closed spec fn wf(&self) -> bool {
        &&& self.runs@.len() == self.recs@.len()
        &&& forall|i: int, j: int| 0 <= i < j < self.recs@.len() ==> wkey_lt(self.key(i), self.key(j))
        &&& forall|i: int|
            #![trigger self.recs@[i]]
            0 <= i < self.recs@.len() ==> self.m@.contains_key(self.key(i)) && self.m@[self.key(i)]
                == self.recs@[i].state@
        &&& forall|k: (RunId, ContentId)|
            #[trigger] self.m@.contains_key(k) ==> exists|i: int|
                0 <= i < self.recs@.len() && self.key(i) == k
    }

    /// The entries are strictly increasing in key order, and they and the map
    /// describe the same rows.
    pub proof fn lemma_entries(&self)
        requires
            self.wf(),
        ensures
            forall|i: int, j: int|
                0 <= i < j < self.entries().len() ==> wkey_lt(
                    (self.entries()[i].0, self.entries()[i].1),
                    (self.entries()[j].0, self.entries()[j].1),
                ),
            forall|i: int|
                #![trigger self.entries()[i]]
                0 <= i < self.entries().len() ==> self.view().contains_key(
                    (self.entries()[i].0, self.entries()[i].1),
                ) && self.view()[(self.entries()[i].0, self.entries()[i].1)]
                    == self.entries()[i].2,
            forall|k: (RunId, ContentId)|
                #[trigger] self.view().contains_key(k) ==> exists|i: int|
                    0 <= i < self.entries().len() && (self.entries()[i].0, self.entries()[i].1)
                        == k,
    {
        assert forall|i: int|
            #![trigger self.entries()[i]]
            0 <= i < self.entries().len() implies self.view().contains_key(
            (self.entries()[i].0, self.entries()[i].1),
        ) && self.view()[(self.entries()[i].0, self.entries()[i].1)] == self.entries()[i].2 by {
            assert(self.recs@[i] == self.recs@[i]);
        }
        assert forall|k: (RunId, ContentId)| #[trigger] self.view().contains_key(k) implies exists|i: int|
            0 <= i < self.entries().len() && (self.entries()[i].0, self.entries()[i].1) == k by {
            let i = choose|i: int| 0 <= i < self.recs@.len() && self.key(i) == k;
            assert((self.entries()[i].0, self.entries()[i].1) == k);
        }
    }

    /// An empty ledger.
    pub fn new() -> (r: Self)
        ensures
            r.wf(),
            r.view() == Map::<(RunId, ContentId), WorkStateView>::empty(),
            r.entries() == Seq::<WorkEntry>::empty(),
    {
        let r = WorkTable { runs: Vec::new(), recs: Vec::new(), m: Ghost(Map::empty()) };
        assert(r.entries() =~= Seq::<WorkEntry>::empty());
        r
    }

    /// Number of rows (all runs).
    pub fn len(&self) -> (n: usize)
        requires
            self.wf(),
        ensures
            n == self.entries().len(),
    {
        self.recs.len()
    }

    fn key_before(r1: RunId, c1: &ContentId, r2: RunId, c2: &ContentId) -> (b: bool)
        ensures
            b == wkey_lt((r1, *c1), (r2, *c2)),
    {
        r1.0 < r2.0 || (r1.0 == r2.0 && c1.sorts_before(c2))
    }

    /// First position whose key is not below `(run, id)`.
    fn position(&self, run: RunId, id: &ContentId) -> (p: usize)
        requires
            self.wf(),
        ensures
            p <= self.recs@.len(),
            forall|j: int| 0 <= j < p ==> wkey_lt(self.key(j), (run, *id)),
            p < self.recs@.len() ==> !wkey_lt(self.key(p as int), (run, *id)),
    {
        let mut p: usize = 0;
        while p < self.recs.len() && Self::key_before(self.runs[p], &self.recs[p].id, run, id)
            invariant
                self.wf(),
                p <= self.recs@.len(),
                forall|j: int| 0 <= j < p ==> wkey_lt(self.key(j), (run, *id)),
            decreases self.recs@.len() - p,
        {
            p = p + 1;
        }
        p
    }

    /// Position of the row for `(run, id)`, if any.
    fn find(&self, run: RunId, id: &ContentId) -> (r: Option<usize>)
        requires
            self.wf(),
        ensures
            match r {
                Some(i) => i < self.recs@.len() && self.key(i as int) == (run, *id),
                None => !self.m@.contains_key((run, *id)),
            },
    {
        let p = self.position(run, id);
        if p < self.recs.len() && self.runs[p] == run && self.recs[p].id.same(id) {
            Some(p)
        } else {
            proof {
                lemma_wkey_order();
                if self.m@.contains_key((run, *id)) {
                    let i = choose|i: int| 0 <= i < self.recs@.len() && self.key(i) == (run, *id);
                    if i < p {
                        assert(wkey_lt(self.key(i), (run, *id)));
                    } else if i > p {
                        assert(wkey_lt(self.key(p as int), self.key(i)));
                        assert(self.key(p as int) != (run, *id));
                    }
                }
            }
            None
        }
    }

    /// The row for `(run, id)`, if any.
    pub fn get(&self, run: RunId, id: &ContentId) -> (r: Option<WorkItemRecord>)
        requires
            self.wf(),
        ensures
            match r {
                Some(rec) => self.view().contains_key((run, *id)) && rec.id == *id
                    && rec.state@ == self.view()[(run, *id)],
                None => !self.view().contains_key((run, *id)),
            },
    {
        match self.find(run, id) {
            Some(i) => {
                proof {
                    assert(self.recs@[i as int] == self.recs@[i as int]);
                }
                Some(self.recs[i].duplicate())
            },
            None => None,
        }
    }

    /// Stores `rec` under `(run, rec.id)`, replacing any previous row.
    pub fn put(&mut self, run: RunId, rec: WorkItemRecord)
        requires
            old(self).wf(),
        ensures
            final(self).wf(),
            final(self).view() == old(self).view().insert((run, rec.id), rec.state@),
    {
        let ghost old_runs = self.runs@;
        let ghost old_recs = self.recs@;
        let ghost old_m = self.m@;
        let ghost k = (run, rec.id);
        let ghost sv = rec.state@;
        proof {
            lemma_wkey_order();
        }
        let p = self.position(run, &rec.id);
        if p < self.recs.len() && self.runs[p] == run && self.recs[p].id.same(&rec.id) {
            self.recs.set(p, rec);
            self.m = Ghost(old_m.insert(k, sv));
            proof {
                assert forall|i: int, j: int|
                    0 <= i < j < self.recs@.len() implies wkey_lt(self.key(i), self.key(j)) by {
                    assert(self.key(i) == (old_runs[i], old_recs[i].id));
                    assert(self.key(j) == (old_runs[j], old_recs[j].id));
                }
                assert forall|i: int|
                    #![trigger self.recs@[i]]
                    0 <= i < self.recs@.len() implies self.m@.contains_key(self.key(i))
                        && self.m@[self.key(i)] == self.recs@[i].state@ by {
                    if i != p {
                        assert(old_recs[i] == old_recs[i]);
                        assert(self.key(i) == (old_runs[i], old_recs[i].id));
                        assert(wkey_lt(self.key(i), self.key(p as int)) || wkey_lt(
                            self.key(p as int),
                            self.key(i),
                        ));
                    }
                }
                assert forall|kk: (RunId, ContentId)| #[trigger] self.m@.contains_key(kk) implies exists|i: int|
                    0 <= i < self.recs@.len() && self.key(i) == kk by {
                    if kk != k {
                        assert(old_m.contains_key(kk));
                        let i = choose|i: int|
                            0 <= i < old_recs.len() && (old_runs[i], old_recs[i].id) == kk;
                        assert(self.key(i) == kk);
                    } else {
                        assert(self.key(p as int) == kk);
                    }
                }
            }
        } else {
            self.runs.insert(p, run);
            self.recs.insert(p, rec);
            self.m = Ghost(old_m.insert(k, sv));
            proof {
                assert(self.key(p as int) == k);
                assert forall|i: int| 0 <= i < self.recs@.len() && i != p implies self.key(i) == (
                    if i < p {
                        (old_runs[i], old_recs[i].id)
                    } else {
                        (old_runs[i - 1], old_recs[i - 1].id)
                    }
                ) by {}
                if p < old_recs.len() {
                    let kp = (old_runs[p as int], old_recs[p as int].id);
                    assert(!wkey_lt(kp, k));
                    assert(kp != k);
                    assert(wkey_lt(k, kp));
                }
                assert forall|i: int, j: int|
                    0 <= i < j < self.recs@.len() implies wkey_lt(self.key(i), self.key(j)) by {
                    if j < p {
                        assert(wkey_lt((old_runs[i], old_recs[i].id), (old_runs[j], old_recs[j].id)));
                    } else if j == p {
                    } else if i < p {
                        let kp = (old_runs[p as int], old_recs[p as int].id);
                        if j - 1 > p {
                            assert(wkey_lt(kp, (old_runs[j - 1], old_recs[j - 1].id)));
                        }
                        assert(wkey_lt(k, self.key(j)));
                    } else if i == p {
                        let kp = (old_runs[p as int], old_recs[p as int].id);
                        if j - 1 > p {
                            assert(wkey_lt(kp, (old_runs[j - 1], old_recs[j - 1].id)));
                        }
                    } else {
                        assert(wkey_lt(
                            (old_runs[i - 1], old_recs[i - 1].id),
                            (old_runs[j - 1], old_recs[j - 1].id),
                        ));
                    }
                }
                assert forall|i: int|
                    #![trigger self.recs@[i]]
                    0 <= i < self.recs@.len() implies self.m@.contains_key(self.key(i))
                        && self.m@[self.key(i)] == self.recs@[i].state@ by {
                    if i < p {
                        assert(old_recs[i] == old_recs[i]);
                        assert(wkey_lt(self.key(i), k));
                    } else if i > p {
                        assert(old_recs[i - 1] == old_recs[i - 1]);
                        assert(wkey_lt(k, self.key(i)));
                    }
                }
                assert forall|kk: (RunId, ContentId)| #[trigger] self.m@.contains_key(kk) implies exists|i: int|
                    0 <= i < self.recs@.len() && self.key(i) == kk by {
                    if kk != k {
                        assert(old_m.contains_key(kk));
                        let j = choose|j: int|
                            0 <= j < old_recs.len() && (old_runs[j], old_recs[j].id) == kk;
                        if j < p {
                            assert(self.key(j) == kk);
                        } else {
                            assert(self.key(j + 1) == kk);
                        }
                    } else {
                        assert(self.key(p as int) == kk);
                    }
                }
            }
        }
    }
}


/// Every pair listed for `run` comes from an entry of `run`, and every entry
/// of `run` is listed.
pub proof fn lemma_run_records_members(es: Seq<WorkEntry>, run: RunId)
    ensures
        forall|i: int|
            0 <= i < run_records(es, run).len() ==> exists|j: int|
                0 <= j < es.len() && es[j] == (
                    run,
                    #[trigger] run_records(es, run)[i].0,
                    run_records(es, run)[i].1,
                ),
        forall|j: int|
            0 <= j < es.len() && #[trigger] es[j].0 == run ==> run_records(es, run).contains(
                (es[j].1, es[j].2),
            ),
    decreases es.len(),
{
    if es.len() > 0 {
        let d = es.drop_last();
        lemma_run_records_members(d, run);
        let r = run_records(d, run);
        assert forall|i: int| 0 <= i < run_records(es, run).len() implies exists|j: int|
            0 <= j < es.len() && es[j] == (
                run,
                #[trigger] run_records(es, run)[i].0,
                run_records(es, run)[i].1,
            ) by {
            if i < r.len() {
                assert(run_records(es, run)[i] == r[i]);
                let j = choose|j: int| 0 <= j < d.len() && d[j] == (run, #[trigger] r[i].0, r[i].1);
                assert(es[j] == d[j]);
            } else {
                assert(es[es.len() - 1] == es.last());
            }
        }
        assert forall|j: int|
            0 <= j < es.len() && #[trigger] es[j].0 == run implies run_records(es, run).contains(
            (es[j].1, es[j].2),
        ) by {
            if j < es.len() - 1 {
                assert(es[j] == d[j]);
                assert(d[j].0 == run);
                assert(r.contains((d[j].1, d[j].2)));
                let k = choose|k: int| 0 <= k < r.len() && r[k] == (d[j].1, d[j].2);
                assert(run_records(es, run)[k] == r[k]);
            } else {
                let rr = run_records(es, run);
                assert(rr[rr.len() - 1] == (es[j].1, es[j].2));
            }
        }
    }
}

/// On key-ordered entries, the ids listed for a run are strictly increasing.
pub proof fn lemma_run_records_sorted(es: Seq<WorkEntry>, run: RunId)
    requires
        forall|i: int, j: int|
            0 <= i < j < es.len() ==> wkey_lt((es[i].0, es[i].1), (es[j].0, es[j].1)),
    ensures
        forall|i: int, j: int|
            0 <= i < j < run_records(es, run).len() ==> bytes_lt(
                run_records(es, run)[i].0.0@,
                run_records(es, run)[j].0.0@,
            ),
    decreases es.len(),
{
    if es.len() > 0 {
        let d = es.drop_last();
        lemma_run_records_sorted(d, run);
        lemma_run_records_members(d, run);
        let r = run_records(d, run);
        let rr = run_records(es, run);
        assert forall|i: int, j: int| 0 <= i < j < rr.len() implies bytes_lt(rr[i].0.0@, rr[j].0.0@) by {
            if j < r.len() {
                assert(rr[i] == r[i] && rr[j] == r[j]);
            } else {
                assert(rr[i] == r[i]);
                let k = choose|k: int| 0 <= k < d.len() && d[k] == (run, #[trigger] r[i].0, r[i].1);
                assert(es[k] == d[k]);
                assert(wkey_lt((es[k].0, es[k].1), (es[es.len() - 1].0, es[es.len() - 1].1)));
            }
        }
    }
}

impl WorkTable {
    /// The rows of `run` in key order, as records.
    pub fn scan(&self, run: RunId) -> (out: Vec<WorkItemRecord>)
        requires
            self.wf(),
        ensures
            rec_views(out@) == run_records(self.entries(), run),
    {
        let mut out: Vec<WorkItemRecord> = Vec::new();
        let mut i: usize = 0;
        proof {
            assert(self.entries().take(0) =~= Seq::<WorkEntry>::empty());
            assert(rec_views(out@) =~= Seq::<(ContentId, WorkStateView)>::empty());
        }
        while i < self.recs.len()
            invariant
                self.wf(),
                i <= self.recs@.len(),
                rec_views(out@) == run_records(self.entries().take(i as int), run),
            decreases self.recs@.len() - i,
        {
            let ghost before = out@;
            proof {
                assert(self.entries().take(i + 1).drop_last() =~= self.entries().take(i as int));
                assert(self.entries().take(i + 1).last() == self.entries()[i as int]);
            }
            if self.runs[i] == run {
                out.push(self.recs[i].duplicate());
                proof {
                    assert(rec_views(out@) =~= rec_views(before).push(
                        (self.recs@[i as int].id, self.recs@[i as int].state@),
                    ));
                }
            }
            i = i + 1;
        }
        proof {
            assert(self.entries().take(i as int) =~= self.entries());
        }
        out
    }

    /// Compare-and-swap: if the row for `(run, expected.id)` holds exactly
    /// `expected`, replace its state by `next` and return `true`; otherwise
    /// leave the ledger unchanged and return `false`.
    pub fn cas(&mut self, run: RunId, expected: &WorkItemRecord, next: WorkState) -> (won: bool)
        requires
            old(self).wf(),
        ensures
            final(self).wf(),
            won == (old(self).view().contains_key((run, expected.id)) && old(self).view()[(
                run,
                expected.id,
            )] == expected.state@),
            final(self).view() == if won {
                old(self).view().insert((run, expected.id), next@)
            } else {
                old(self).view()
            },
    {
        match self.find(run, &expected.id) {
            None => false,
            Some(i) => {
                proof {
                    assert(self.recs@[i as int] == self.recs@[i as int]);
                }
                if self.recs[i].state.same(&expected.state) {
                    self.put(run, WorkItemRecord { id: expected.id, state: next });
                    true
                } else {
                    false
                }
            },
        }
    }
}
} // verus!

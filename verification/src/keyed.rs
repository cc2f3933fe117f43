//! An ordered map from 128-bit keys to values, kept as two parallel vectors
//! with strictly increasing keys, so that walking it visits keys in order.

use vstd::prelude::*;

verus! {

/// Ordered map with `u128` keys.
pub struct KeyedRows<V> {
    keys: Vec<u128>,
    vals: Vec<V>,
    m: Ghost<Map<u128, V>>,
}

impl<V> KeyedRows<V> {
    /// The map the rows stand for.
    pub closed spec fn view(&self) -> Map<u128, V> {
        self.m@
    }

    /// The keys in increasing order.
    pub closed spec fn key_seq(&self) -> Seq<u128> {
        self.keys@
    }

    /// Internal consistency: parallel vectors, strictly increasing keys, and
    /// agreement with the map.
    pub closed spec fn wf(&self) -> bool {
        &&& self.keys@.len() == self.vals@.len()
        &&& forall|i: int, j: int|
            0 <= i < j < self.keys@.len() ==> self.keys@[i] < self.keys@[j]
        &&& forall|i: int|
            #![trigger self.keys@[i]]
            0 <= i < self.keys@.len() ==> self.m@.contains_key(self.keys@[i]) && self.m@[self.keys@[i]]
                == self.vals@[i]
        &&& forall|k: u128|
            #[trigger] self.m@.contains_key(k) ==> exists|i: int|
                0 <= i < self.keys@.len() && self.keys@[i] == k
    }

    /// Facts about the ordered keys that callers rely on.
    pub proof fn lemma_keys(&self)
        requires
            self.wf(),
        ensures
            forall|i: int, j: int|
                0 <= i < j < self.key_seq().len() ==> self.key_seq()[i] < self.key_seq()[j],
            forall|i: int|
                0 <= i < self.key_seq().len() ==> #[trigger] self.view().contains_key(
                    self.key_seq()[i],
                ),
            forall|k: u128|
                #[trigger] self.view().contains_key(k) ==> exists|i: int|
                    0 <= i < self.key_seq().len() && self.key_seq()[i] == k,
            self.view().dom().finite(),
            self.view().dom().len() == self.key_seq().len(),
    {
        self.lemma_dom();
        assert forall|k: u128| #[trigger] self.view().contains_key(k) implies exists|i: int|
            0 <= i < self.key_seq().len() && self.key_seq()[i] == k by {
            let i = choose|i: int| 0 <= i < self.keys@.len() && self.keys@[i] == k;
            assert(self.key_seq()[i] == k);
        }
    }

    proof fn lemma_dom(&self)
        requires
            self.wf(),
        ensures
            self.m@.dom() == self.keys@.to_set(),
            self.keys@.no_duplicates(),
            self.m@.dom().finite(),
            self.m@.dom().len() == self.keys@.len(),
    {
        assert(self.m@.dom() =~= self.keys@.to_set()) by {
            assert forall|k: u128| self.m@.dom().contains(k) implies self.keys@.to_set().contains(k) by {
                let i = choose|i: int| 0 <= i < self.keys@.len() && self.keys@[i] == k;
                assert(self.keys@.contains(k));
            }
            assert forall|k: u128| self.keys@.to_set().contains(k) implies self.m@.dom().contains(k) by {
                assert(self.keys@.contains(k));
                let i = choose|i: int| 0 <= i < self.keys@.len() && self.keys@[i] == k;
                assert(self.m@.contains_key(self.keys@[i]));
            }
        }
        assert(self.keys@.no_duplicates()) by {
            assert forall|i: int, j: int|
                0 <= i < self.keys@.len() && 0 <= j < self.keys@.len() && i != j implies self.keys@[i]
                != self.keys@[j] by {
                if i < j {
                } else {
                }
            }
        }
        self.keys@.unique_seq_to_set();
    }

    /// An empty map.
    pub fn new() -> (r: Self)
        ensures
            r.wf(),
            r.view() == Map::<u128, V>::empty(),
            r.key_seq() == Seq::<u128>::empty(),
    {
        KeyedRows { keys: Vec::new(), vals: Vec::new(), m: Ghost(Map::empty()) }
    }

    /// Number of rows.
    pub fn len(&self) -> (n: usize)
        requires
            self.wf(),
        ensures
            n == self.key_seq().len(),
    {
        self.keys.len()
    }

    /// The `i`-th key in increasing order.
    pub fn key_at(&self, i: usize) -> (k: u128)
        requires
            self.wf(),
            i < self.key_seq().len(),
        ensures
            k == self.key_seq()[i as int],
            self.view().contains_key(k),
    {
        self.keys[i]
    }

    /// The value under the `i`-th key.
    pub fn val_at(&self, i: usize) -> (v: &V)
        requires
            self.wf(),
            i < self.key_seq().len(),
        ensures
            *v == self.view()[self.key_seq()[i as int]],
    {
        proof {
            assert(self.keys@[i as int] == self.key_seq()[i as int]);
        }
        &self.vals[i]
    }

    /// Position of `k` among the keys, if present.
    fn find(&self, k: u128) -> (r: Option<usize>)
        requires
            self.wf(),
        ensures
            match r {
                Some(i) => i < self.keys@.len() && self.keys@[i as int] == k,
                None => !self.m@.contains_key(k),
            },
    {
        let mut i: usize = 0;
        while i < self.keys.len()
            invariant
                self.wf(),
                i <= self.keys@.len(),
                forall|j: int| 0 <= j < i ==> self.keys@[j] != k,
            decreases self.keys@.len() - i,
        {
            if self.keys[i] == k {
                return Some(i);
            }
            i = i + 1;
        }
        None
    }

    /// The value stored under `k`, if any.
    pub fn get(&self, k: u128) -> (r: Option<&V>)
        requires
            self.wf(),
        ensures
            match r {
                Some(v) => self.view().contains_key(k) && *v == self.view()[k],
                None => !self.view().contains_key(k),
            },
    {
        match self.find(k) {
            Some(i) => {
                proof {
                    assert(self.keys@[i as int] == k);
                }
                Some(&self.vals[i])
            },
            None => None,
        }
    }

    /// Stores `v` under `k`, replacing any previous value.
    pub fn insert(&mut self, k: u128, v: V)
        requires
            old(self).wf(),
        ensures
            final(self).wf(),
            final(self).view() == old(self).view().insert(k, v),
    {
        let ghost old_keys = self.keys@;
        let ghost old_vals = self.vals@;
        let ghost old_m = self.m@;
        let mut p: usize = 0;
        while p < self.keys.len() && self.keys[p] < k
            invariant
                self.wf(),
                self.keys@ == old_keys,
                p <= self.keys@.len(),
                forall|j: int| 0 <= j < p ==> self.keys@[j] < k,
            decreases self.keys@.len() - p,
        {
            p = p + 1;
        }
        if p < self.keys.len() && self.keys[p] == k {
            self.vals.set(p, v);
            self.m = Ghost(old_m.insert(k, v));
            proof {
                assert forall|i: int| 0 <= i < self.keys@.len() implies #[trigger] self.m@.contains_key(
                    self.keys@[i],
                ) && self.m@[self.keys@[i]] == self.vals@[i] by {
                    if i != p {
                        assert(old_keys[i] != k);
                        assert(old_m.contains_key(old_keys[i]));
                    }
                }
                assert forall|kk: u128| #[trigger] self.m@.contains_key(kk) implies exists|i: int|
                    0 <= i < self.keys@.len() && self.keys@[i] == kk by {
                    if kk != k {
                        assert(old_m.contains_key(kk));
                    } else {
                        assert(self.keys@[p as int] == kk);
                    }
                }
            }
        } else {
            self.keys.insert(p, k);
            self.vals.insert(p, v);
            self.m = Ghost(old_m.insert(k, v));
            proof {
                assert forall|i: int, j: int|
                    0 <= i < j < self.keys@.len() implies self.keys@[i] < self.keys@[j] by {
                    if j < p {
                    } else if j == p {
                    } else if i < p {
                        assert(self.keys@[j] == old_keys[j - 1]);
                        if p < old_keys.len() {
                            assert(old_keys[p as int] > k);
                            if j - 1 > p {
                                assert(old_keys[p as int] < old_keys[j - 1]);
                            }
                        }
                    } else if i == p {
                        assert(old_keys[p as int] > k);
                        if j - 1 > p {
                            assert(old_keys[p as int] < old_keys[j - 1]);
                        }
                    } else {
                        assert(old_keys[i - 1] < old_keys[j - 1]);
                    }
                }
                assert forall|i: int| 0 <= i < self.keys@.len() implies #[trigger] self.m@.contains_key(
                    self.keys@[i],
                ) && self.m@[self.keys@[i]] == self.vals@[i] by {
                    if i < p {
                        assert(self.keys@[i] == old_keys[i]);
                        assert(old_m.contains_key(old_keys[i]));
                    } else if i > p {
                        assert(self.keys@[i] == old_keys[i - 1]);
                        assert(old_m.contains_key(old_keys[i - 1]));
                        assert(old_keys[i - 1] != k);
                    }
                }
                assert forall|kk: u128| #[trigger] self.m@.contains_key(kk) implies exists|i: int|
                    0 <= i < self.keys@.len() && self.keys@[i] == kk by {
                    if kk != k {
                        assert(old_m.contains_key(kk));
                        let j = choose|j: int| 0 <= j < old_keys.len() && old_keys[j] == kk;
                        if j < p {
                            assert(self.keys@[j] == kk);
                        } else {
                            assert(self.keys@[j + 1] == kk);
                        }
                    } else {
                        assert(self.keys@[p as int] == kk);
                    }
                }
            }
        }
    }

    /// Removes `k` and returns its value, if present.
    pub fn remove(&mut self, k: u128) -> (r: Option<V>)
        requires
            old(self).wf(),
        ensures
            final(self).wf(),
            final(self).view() == old(self).view().remove(k),
            match r {
                Some(v) => old(self).view().contains_key(k) && v == old(self).view()[k],
                None => !old(self).view().contains_key(k),
            },
    {
        let ghost old_keys = self.keys@;
        let ghost old_vals = self.vals@;
        let ghost old_m = self.m@;
        match self.find(k) {
            None => {
                proof {
                    assert(self.m@.remove(k) =~= self.m@);
                }
                None
            },
            Some(p) => {
                proof {
                    assert(old_keys[p as int] == k);
                }
                self.keys.remove(p);
                let v = self.vals.remove(p);
                self.m = Ghost(old_m.remove(k));
                proof {
                    assert forall|i: int, j: int|
                        0 <= i < j < self.keys@.len() implies self.keys@[i] < self.keys@[j] by {
                        if j < p {
                        } else if i < p {
                            assert(self.keys@[j] == old_keys[j + 1]);
                        } else {
                            assert(self.keys@[i] == old_keys[i + 1]);
                            assert(self.keys@[j] == old_keys[j + 1]);
                        }
                    }
                    assert forall|i: int| 0 <= i < self.keys@.len() implies #[trigger] self.m@.contains_key(
                        self.keys@[i],
                    ) && self.m@[self.keys@[i]] == self.vals@[i] by {
                        if i < p {
                            assert(self.keys@[i] == old_keys[i]);
                            assert(old_m.contains_key(old_keys[i]));
                            assert(old_keys[i] < old_keys[p as int]);
                        } else {
                            assert(self.keys@[i] == old_keys[i + 1]);
                            assert(old_m.contains_key(old_keys[i + 1]));
                            assert(old_keys[p as int] < old_keys[i + 1]);
                        }
                    }
                    assert forall|kk: u128| #[trigger] self.m@.contains_key(kk) implies exists|i: int|
                        0 <= i < self.keys@.len() && self.keys@[i] == kk by {
                        assert(old_m.contains_key(kk));
                        let j = choose|j: int| 0 <= j < old_keys.len() && old_keys[j] == kk;
                        if j < p {
                            assert(self.keys@[j] == kk);
                        } else {
                            assert(j != p);
                            assert(self.keys@[j - 1] == kk);
                        }
                    }
                }
                Some(v)
            },
        }
    }
}

} // verus!

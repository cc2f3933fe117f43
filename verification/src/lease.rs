//! Coordinator lease over the storage: exactly one coordinator per run.
//!
//! - `try_acquire`: fresh acquire (`epoch = 0`) or steal-on-expiry
//!   (`epoch + 1`), as a compare-and-swap on the exact prior lease record.
//! - `renew`: the incumbent's heartbeat; keeps the epoch, and fails iff the
//!   lease record changed under the caller (it was fenced).
//! - `current`: read-only.
//!
//! Every successful acquire, steal or renewal also writes the run's
//! authoritative `epoch` row in the same step, so lease epoch and ledger
//! epoch never diverge.

use vstd::prelude::*;

use crate::ids::{RunId, WorkerId};
use crate::storage::MemStorage;

verus! {

/// Monotonic epoch stamped on every coordinator authority claim; `0` is the
/// first (fresh-acquire) epoch, and each takeover advances it by one.
#[derive(Debug, Clone, Copy, PartialEq, Eq, Structural, PartialOrd, Ord, Hash)]
pub struct CoordEpoch(pub u64);

/// Durable lease record: the value of a run's single `coordinator_lease` row.
#[derive(Debug, Clone, Copy, PartialEq, Eq, Structural)]
pub struct LeaseRecord {
    /// Coordinator instance id (a worker id) that currently holds the lease.
    pub holder: WorkerId,
    /// Monotonic epoch; advances on every successful takeover.
    pub epoch: CoordEpoch,
    /// Wall-clock deadline (Unix ms). Renew before this; steal only after.
    pub expires_at_ms: u128,
}

/// `b` equals `a` except, possibly, its lease and epoch rows.
pub open spec fn same_except_lease(a: &MemStorage, b: &MemStorage) -> bool {
    &&& a.work == b.work
    &&& a.queue == b.queue
    &&& a.workers == b.workers
    &&& a.heartbeats == b.heartbeats
}

/// The lease record that `try_acquire` proposes against the current row:
/// a fresh lease at epoch 0, or — once the current lease has expired — a
/// steal that advances the epoch by one; `None` while the lease is live.
pub open spec fn acquire_next(cur: Option<LeaseRecord>, me: WorkerId, ttl_ms: u128, now_ms: u128) -> Option<
    LeaseRecord,
> {
    match cur {
        None => Some(
            LeaseRecord { holder: me, epoch: CoordEpoch(0), expires_at_ms: (now_ms + ttl_ms) as u128 },
        ),
        Some(c) => if now_ms > c.expires_at_ms {
            Some(
                LeaseRecord {
                    holder: me,
                    epoch: CoordEpoch((c.epoch.0 + 1) as u64),
                    expires_at_ms: (now_ms + ttl_ms) as u128,
                },
            )
        } else {
            None
        },
    }
}

/// The record a successful renewal of `held` writes: same holder, same
/// epoch, expiry pushed to `now_ms + ttl_ms`.
pub open spec fn renewed(held: LeaseRecord, ttl_ms: u128, now_ms: u128) -> LeaseRecord {
    LeaseRecord { holder: held.holder, epoch: held.epoch, expires_at_ms: (now_ms + ttl_ms) as u128 }
}

/// Whether renewing `held` wins against the current row `cur`: the row
/// still holds exactly `held`.
pub open spec fn renew_wins(cur: Option<LeaseRecord>, held: LeaseRecord) -> bool {
    cur == Some(held)
}

/// Whether the arithmetic of an acquire against `cur` fits its types: the
/// new expiry `now_ms + ttl_ms` on a fresh acquire or a steal, and the
/// advanced epoch on a steal. A live lease computes nothing.
pub open spec fn acquire_fits(cur: Option<LeaseRecord>, ttl_ms: u128, now_ms: u128) -> bool {
    match cur {
        None => now_ms + ttl_ms <= u128::MAX,
        Some(c) => now_ms > c.expires_at_ms ==> now_ms + ttl_ms <= u128::MAX && c.epoch.0 < u64::MAX,
    }
}

/// The lease row of `run` in `store`, if any.
pub open spec fn lease_row(store: &MemStorage, run: RunId) -> Option<LeaseRecord> {
    if store.leases.view().contains_key(run.0) {
        Some(store.leases.view()[run.0])
    } else {
        None
    }
}

/// Wall-clock Unix milliseconds: the default lease clock. Nothing is claimed
/// of the value: it depends on the machine's clock.
pub fn system_now_ms() -> u128 {
    crate::clock::wall_clock_ms()
}

/// Compare-and-swap lease over the store: exactly one coordinator per run.
#[derive(Debug, Clone, Copy)]
pub struct StorageLease {
    run_id: RunId,
}

impl StorageLease {
    /// The run this lease guards.
    pub closed spec fn run(&self) -> RunId {
        self.run_id
    }

    /// Build a lease for `run_id`.
    pub fn new(run_id: RunId) -> (l: StorageLease)
        ensures
            l.run() == run_id,
    {
        StorageLease { run_id }
    }

    /// CAS the lease row against `expected` and, on a win, write `next` and
    /// the authoritative `epoch` row (`next.epoch`) in the same step. Returns
    /// `true` iff the current row equals `expected`.
    fn commit_claim(&self, store: &mut MemStorage, expected: Option<LeaseRecord>, next: &LeaseRecord) -> (won:
        bool)
        requires
            old(store).wf(),
        ensures
            final(store).wf(),
            same_except_lease(old(store), final(store)),
            won == (lease_row(old(store), self.run()) == expected),
            won ==> final(store).leases.view() == old(store).leases.view().insert(self.run().0, *next)
                && final(store).epochs.view() == old(store).epochs.view().insert(
                self.run().0,
                next.epoch,
            ),
            !won ==> final(store).leases == old(store).leases && final(store).epochs == old(
                store,
            ).epochs,
    {
        let cur = match store.leases.get(self.run_id.0) {
            Some(c) => Some(*c),
            None => None,
        };
        let won = match (cur, expected) {
            (None, None) => true,
            (Some(c), Some(e)) => c == e,
            _ => false,
        };
        if won {
            store.leases.insert(self.run_id.0, *next);
            store.epochs.insert(self.run_id.0, next.epoch);
        }
        won
    }

    /// Acquire (fresh) or steal (expired) the lease for `me`, with the lease
    /// running until `now_ms + ttl_ms`.
    ///
    /// Returns `Some(record)` iff this caller won: the lease row was absent
    /// (fresh acquire at epoch 0) or had expired (`now_ms > expires_at_ms`;
    /// steal at the held epoch + 1). Returns `None` — and changes nothing —
    /// while the lease is live.
    pub fn try_acquire(&self, store: &mut MemStorage, me: WorkerId, ttl_ms: u128, now_ms: u128) -> (r: Option<
        LeaseRecord,
    >)
        requires
            old(store).wf(),
            acquire_fits(lease_row(old(store), self.run()), ttl_ms, now_ms),
        ensures
            final(store).wf(),
            same_except_lease(old(store), final(store)),
            r == acquire_next(lease_row(old(store), self.run()), me, ttl_ms, now_ms),
            r is Some <==> match lease_row(old(store), self.run()) {
                None => true,
                Some(c) => now_ms > c.expires_at_ms,
            },
            r matches Some(n) ==> n.holder == me && n.expires_at_ms == now_ms + ttl_ms && n.epoch.0 == match lease_row(
                old(store),
                self.run(),
            ) {
                None => 0,
                Some(c) => c.epoch.0 + 1,
            },
            match r {
                Some(next) => final(store).leases.view() == old(store).leases.view().insert(
                    self.run().0,
                    next,
                ) && final(store).epochs.view() == old(store).epochs.view().insert(
                    self.run().0,
                    next.epoch,
                ),
                None => final(store).leases == old(store).leases && final(store).epochs == old(
                    store,
                ).epochs,
            },
    {
        let cur = match store.leases.get(self.run_id.0) {
            Some(c) => Some(*c),
            None => None,
        };
        match cur {
            None => {
                let next = LeaseRecord { holder: me, epoch: CoordEpoch(0), expires_at_ms: now_ms + ttl_ms };
                let won = self.commit_claim(store, None, &next);
                if won {
                    Some(next)
                } else {
                    None
                }
            },
            Some(c) => {
                if now_ms > c.expires_at_ms {
                    // expired -> steal; advance the epoch monotonically.
                    let next = LeaseRecord {
                        holder: me,
                        epoch: CoordEpoch(c.epoch.0 + 1),
                        expires_at_ms: now_ms + ttl_ms,
                    };
                    let won = self.commit_claim(store, Some(c), &next);
                    if won {
                        Some(next)
                    } else {
                        None
                    }
                } else {
                    // live, held by someone.
                    None
                }
            },
        }
    }

    /// Renew an owned lease (the incumbent's heartbeat): CAS the row from
    /// exactly `held` to `held` with `expires_at_ms = now_ms + ttl_ms` and
    /// the same epoch. Returns `false` — and changes nothing — iff the row no
    /// longer equals `held` (someone advanced the epoch under us: fenced).
    pub fn renew(&self, store: &mut MemStorage, held: &LeaseRecord, ttl_ms: u128, now_ms: u128) -> (won: bool)
        requires
            old(store).wf(),
            now_ms + ttl_ms <= u128::MAX,
        ensures
            final(store).wf(),
            same_except_lease(old(store), final(store)),
            won == renew_wins(lease_row(old(store), self.run()), *held),
            won <==> lease_row(old(store), self.run()) == Some(*held),
            won ==> final(store).leases.view()[self.run().0] == (LeaseRecord {
                holder: held.holder,
                epoch: held.epoch,
                expires_at_ms: (now_ms + ttl_ms) as u128,
            }),
            won ==> final(store).leases.view() == old(store).leases.view().insert(
                self.run().0,
                renewed(*held, ttl_ms, now_ms),
            ) && final(store).epochs.view() == old(store).epochs.view().insert(
                self.run().0,
                held.epoch,
            ),
            !won ==> final(store).leases == old(store).leases && final(store).epochs == old(
                store,
            ).epochs,
    {
        let next = LeaseRecord {
            holder: held.holder,
            epoch: held.epoch,  // same epoch: renew never advances
            expires_at_ms: now_ms + ttl_ms,
        };
        self.commit_claim(store, Some(*held), &next)
    }

    /// Read the current lease without mutating.
    pub fn current(&self, store: &MemStorage) -> (r: Option<LeaseRecord>)
        requires
            store.wf(),
        ensures
            r == lease_row(store, self.run()),
    {
        match store.leases.get(self.run_id.0) {
            Some(c) => Some(*c),
            None => None,
        }
    }
}

} // verus!

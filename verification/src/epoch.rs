//! Epoch read/stamp and worker-side stale-epoch rejection.
//!
//! The coordinator stamps its `coord_epoch` on every RPC response, and each
//! worker rejects any response tagged with an epoch lower than the highest it
//! has seen. Together with the monotonic-on-steal lease epoch, a deposed
//! coordinator's responses are never acted upon.

use vstd::prelude::*;

use crate::errors::{CoreError, RecoverableError, RetryHint};
use crate::ids::RunId;
use crate::lease::CoordEpoch;
use crate::storage::MemStorage;
use crate::text::{dec_text, push_decimal, push_str};

verus! {

/// The authoritative epoch of `run` in `store` (0 when no coordinator has
/// ever claimed the lease).
pub open spec fn epoch_of(store: &MemStorage, run: RunId) -> CoordEpoch {
    if store.epochs.view().contains_key(run.0) {
        store.epochs.view()[run.0]
    } else {
        CoordEpoch(0)
    }
}

/// Read the authoritative current epoch of `run_id` from the `epoch` rows;
/// `CoordEpoch(0)` when the row is absent.
pub fn current_epoch(store: &MemStorage, run_id: RunId) -> (e: CoordEpoch)
    requires
        store.wf(),
    ensures
        e == epoch_of(store, run_id),
{
    match store.epochs.get(run_id.0) {
        Some(e) => *e,
        None => CoordEpoch(0),
    }
}

/// Tag an RPC response with the coordinator's current epoch: the
/// `(payload, epoch)` pair the transport carries to the worker.
pub fn stamp_epoch<T>(resp: T, epoch: CoordEpoch) -> (r: (T, CoordEpoch))
    ensures
        r == (resp, epoch),
{
    (resp, epoch)
}

/// The guard's high-water mark after offering `e` to a guard at `seen`:
/// `e` when it is not stale, else `seen` unchanged.
pub open spec fn guard_after(seen: CoordEpoch, e: CoordEpoch) -> CoordEpoch {
    if e.0 >= seen.0 {
        e
    } else {
        seen
    }
}

/// Worker-side highest-epoch tracker: rejects stale-epoch RPC responses.
#[derive(Debug, Clone, Copy)]
pub struct EpochGuard {
    seen_max: CoordEpoch,
}

/// Message of the error returned for a stale epoch.
pub open spec fn stale_epoch_msg(resp: u64, seen: u64) -> Seq<char> {
    "stale coord_epoch "@ + dec_text(resp as nat) + " < seen_max "@ + dec_text(seen as nat)
        + " (deposed coordinator)"@
}

impl Default for EpochGuard {
    /// A guard that has seen nothing yet (`seen_max = 0`).
    fn default() -> (g: EpochGuard)
        ensures
            g.max_seen() == CoordEpoch(0),
    {
        EpochGuard { seen_max: CoordEpoch(0) }
    }
}

impl EpochGuard {
    /// The highest epoch accepted so far.
    pub closed spec fn max_seen(&self) -> CoordEpoch {
        self.seen_max
    }

    /// Build a guard seeded with the highest epoch already observed.
    pub fn new(seen_max: CoordEpoch) -> (g: EpochGuard)
        ensures
            g.max_seen() == seen_max,
    {
        EpochGuard { seen_max }
    }

    /// The highest epoch accepted so far.
    pub fn seen_max(&self) -> (e: CoordEpoch)
        ensures
            e == self.max_seen(),
    {
        self.seen_max
    }

    /// Accept or reject an RPC response's `coord_epoch`.
    ///
    /// Accepts, and raises `seen_max` to `resp_epoch`, iff `resp_epoch >=
    /// seen_max`; rejects a strictly lower epoch as a deposed coordinator's
    /// response with `Recoverable(Transient { hint: Never })`, leaving the
    /// guard unchanged.
    pub fn accept(&mut self, resp_epoch: CoordEpoch) -> (r: Result<(), CoreError>)
        ensures
            r is Ok <==> resp_epoch.0 >= old(self).max_seen().0,
            final(self).max_seen() == guard_after(old(self).max_seen(), resp_epoch),
            r is Ok ==> final(self).max_seen() == resp_epoch,
            r is Err ==> final(self).max_seen() == old(self).max_seen(),
            r matches Err(CoreError::Recoverable(RecoverableError::Transient { msg, hint })) ==> hint
                is Never && msg@ == stale_epoch_msg(resp_epoch.0, old(self).max_seen().0),
            r is Err ==> r matches Err(CoreError::Recoverable(RecoverableError::Transient { .. })),
    {
        if resp_epoch.0 < self.seen_max.0 {
            let mut msg = String::new();
            push_str(&mut msg, "stale coord_epoch ");
            push_decimal(&mut msg, resp_epoch.0);
            push_str(&mut msg, " < seen_max ");
            push_decimal(&mut msg, self.seen_max.0);
            push_str(&mut msg, " (deposed coordinator)");
            proof {
                reveal_strlit("stale coord_epoch ");
                reveal_strlit(" < seen_max ");
                reveal_strlit(" (deposed coordinator)");
                assert(msg@ =~= stale_epoch_msg(resp_epoch.0, self.seen_max.0));
            }
            return Err(
                CoreError::Recoverable(RecoverableError::Transient { msg, hint: RetryHint::Never }),
            );
        }
        self.seen_max = resp_epoch;
        Ok(())
    }
}

} // verus!

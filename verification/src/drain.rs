//! Spot-preemption graceful drain.
//!
//! On a preemption notice the worker vacates the node without losing work:
//!
//! ```text
//! stop-pull -> nack in-flight -> opportunistic TrainState snapshot? -> deregister -> ack-exit
//! ```
//!
//! Two numbers matter per provider: the cloud's notice lead (what the
//! preemption signal reports) and the conservative drain deadline the whole
//! sequence must finish within, which is strictly shorter.
//!
//! The sequence is decided here as an ordered list of actions (`drain`),
//! and `drain_next` decides each move of the executor that performs it:
//! query the preemption signal first, then the steps in order under the
//! drain deadline, stopping at the first error and propagating it.

use vstd::prelude::*;

use crate::cloud::QueueItemId;
use crate::errors::{CoreError, FatalError};
use crate::ids::RunId;
use crate::snapshot::SnapshotKind;
use crate::text::{duration_debug, duration_debug_text, push_str};

verus! {

/// The two spot numbers of a provider, in milliseconds.
#[derive(Debug, Clone, Copy, PartialEq, Eq, Structural)]
pub struct DrainConfig {
    /// Cloud preemption-notice lead time: 120 s on AWS, 30 s on GCP.
    pub notice_lead_ms: u64,
    /// Conservative drain deadline the drain completes within: 60 s on AWS,
    /// 15 s on GCP.
    pub drain_deadline_ms: u64,
}

impl DrainConfig {
    /// AWS spot budgets: notice lead 120 s, drain deadline 60 s.
    pub fn aws() -> (c: DrainConfig)
        ensures
            c.notice_lead_ms == 120_000,
            c.drain_deadline_ms == 60_000,
    {
        DrainConfig { notice_lead_ms: 120_000, drain_deadline_ms: 60_000 }
    }

    /// GCP preemption budgets: notice lead 30 s, drain deadline 15 s.
    pub fn gcp() -> (c: DrainConfig)
        ensures
            c.notice_lead_ms == 30_000,
            c.drain_deadline_ms == 15_000,
    {
        DrainConfig { notice_lead_ms: 30_000, drain_deadline_ms: 15_000 }
    }
}

/// The opportunistic-snapshot plan of a drain (`TrainState` only): a
/// snapshot is saved iff a snapshotter is present and the remaining budget
/// covers the snapshot's estimated cost.
#[derive(Debug, Clone, PartialEq, Eq)]
pub struct SnapshotPlan {
    /// Whether a snapshotter is available at all.
    pub has_snapshotter: bool,
    /// Estimated remaining drain budget (ms).
    pub remaining_budget_ms: u64,
    /// Estimated cost of taking the `TrainState` snapshot (ms).
    pub snapshot_cost_ms: u64,
    /// Run the snapshot belongs to.
    pub run_id: RunId,
    /// Algorithm producing the snapshot.
    pub algorithm_id: String,
}

/// One step of the drain sequence.
#[derive(Debug, Clone, PartialEq, Eq)]
pub enum DrainAction {
    /// Set the stop-pull flag: the worker loop refuses new pulls and steals.
    StopPull,
    /// Nack an in-flight queue item back to `Pending`.
    Nack(QueueItemId),
    /// Save a snapshot (always `TrainState`, labelled `"spot-drain"`).
    SaveSnapshot {
        /// Run the snapshot belongs to.
        run_id: RunId,
        /// Algorithm producing the snapshot.
        algorithm_id: String,
        /// Snapshot kind.
        kind: SnapshotKind,
        /// Snapshot label.
        label: String,
    },
    /// Deregister the worker from the coordinator.
    Deregister,
}

/// Whether the drain takes the opportunistic snapshot.
pub open spec fn takes_snapshot(snap: SnapshotPlan) -> bool {
    snap.has_snapshotter && snap.remaining_budget_ms >= snap.snapshot_cost_ms
}

/// The drain sequence, in order.
///
/// `StopPull` first; then one `Nack` per in-flight item, in the given
/// order; then a `TrainState` snapshot labelled `"spot-drain"` iff a
/// snapshotter is present and `remaining_budget >= snapshot_cost`; and
/// `Deregister` last.
pub fn drain(in_flight: &[QueueItemId], snap: &SnapshotPlan) -> (plan: Vec<DrainAction>)
    ensures
        plan@.len() == in_flight@.len() + 2 + if takes_snapshot(*snap) {
            1int
        } else {
            0int
        },
        plan@[0] == DrainAction::StopPull,
        forall|i: int| 0 <= i < in_flight@.len() ==> #[trigger] plan@[i + 1] == DrainAction::Nack(in_flight@[i]),
        takes_snapshot(*snap) ==> (plan@[in_flight@.len() + 1int] matches DrainAction::SaveSnapshot {
            run_id,
            algorithm_id,
            kind,
            label,
        } && run_id == snap.run_id && algorithm_id@ == snap.algorithm_id@ && kind
            == SnapshotKind::TrainState && label@ == "spot-drain"@),
        plan@.last() == DrainAction::Deregister,
        (exists|i: int| 0 <= i < plan@.len() && (#[trigger] plan@[i]) is SaveSnapshot) <==> (snap.has_snapshotter
            && snap.remaining_budget_ms >= snap.snapshot_cost_ms),
{
    let mut plan: Vec<DrainAction> = Vec::new();
    // 1. stop-pull.
    plan.push(DrainAction::StopPull);
    // 2. requeue in-flight via nack.
    let mut i: usize = 0;
    while i < in_flight.len()
        invariant
            i <= in_flight@.len(),
            plan@.len() == i + 1,
            plan@[0] == DrainAction::StopPull,
            forall|j: int| 0 <= j < i ==> #[trigger] plan@[j + 1] == DrainAction::Nack(in_flight@[j]),
        decreases in_flight@.len() - i,
    {
        plan.push(DrainAction::Nack(in_flight[i]));
        i = i + 1;
    }
    // 3. opportunistic TrainState snapshot, only if the budget allows.
    if snap.has_snapshotter && snap.remaining_budget_ms >= snap.snapshot_cost_ms {
        plan.push(
            DrainAction::SaveSnapshot {
                run_id: snap.run_id,
                algorithm_id: snap.algorithm_id.clone(),
                kind: SnapshotKind::TrainState,
                label: "spot-drain".to_owned(),
            },
        );
    }
    // 4. deregister.
    plan.push(DrainAction::Deregister);
    proof {
        let n = in_flight@.len() as int;
        if snap.has_snapshotter && snap.remaining_budget_ms >= snap.snapshot_cost_ms {
            assert(plan@[n + 1] is SaveSnapshot);
        } else {
            assert forall|i: int| 0 <= i < plan@.len() implies !((#[trigger] plan@[i]) is SaveSnapshot) by {
                if 1 <= i <= n {
                    assert(plan@[(i - 1) + 1] == DrainAction::Nack(in_flight@[i - 1]));
                }
            }
        }
    }
    plan
}

/// Message of the error for a drain that overran its deadline.
pub open spec fn overrun_msg(cfg: DrainConfig) -> Seq<char> {
    "spot drain exceeded drain_deadline "@ + duration_debug_text(cfg.drain_deadline_ms)
        + " (notice lead was "@ + duration_debug_text(cfg.notice_lead_ms) + ")"@
}

/// The error a drain returns when the whole sequence exceeds
/// `cfg.drain_deadline_ms`: `Fatal(Internal)` naming both numbers.
pub fn drain_overrun_error(cfg: &DrainConfig) -> (e: CoreError)
    ensures
        e matches CoreError::Fatal(FatalError::Internal { msg }) && msg@ == overrun_msg(*cfg),
{
    let mut msg = String::new();
    push_str(&mut msg, "spot drain exceeded drain_deadline ");
    let d = duration_debug(cfg.drain_deadline_ms);
    push_str(&mut msg, d.as_str());
    push_str(&mut msg, " (notice lead was ");
    let n = duration_debug(cfg.notice_lead_ms);
    push_str(&mut msg, n.as_str());
    push_str(&mut msg, ")");
    proof {
        reveal_strlit("spot drain exceeded drain_deadline ");
        reveal_strlit(" (notice lead was ");
        reveal_strlit(")");
        assert(msg@ =~= overrun_msg(*cfg));
    }
    CoreError::Fatal(FatalError::Internal { msg })
}

/// What a drain does next.
#[derive(Debug)]
pub enum DrainNext {
    /// Ask the compute hint for the preemption signal (always first).
    QuerySignal,
    /// Perform step `k` of the drain plan.
    Perform(usize),
    /// Every step succeeded within the deadline: acknowledge and exit.
    Finished,
    /// The drain stops with this error; no later step is performed.
    Abort(CoreError),
}

/// One decision of the drain executor over a plan of `plan_len` steps.
///
/// `done` counts the calls made so far: 0 before anything, 1 once the
/// preemption signal was queried, `1 + k` once plan steps `0..k` ran.
/// `last` is the outcome of the latest call (`Ok(())` before any) and
/// `elapsed_ms` the time since the first plan step began: the deadline
/// window covers the plan steps, not the signal query.
///
/// First the signal is queried; its error stops the drain. Then the plan
/// steps run in order. Once the window exceeds `cfg.drain_deadline_ms` the
/// drain stops with the overrun error, whatever the last step returned;
/// within it, a failed step stops the drain with that step's error.
pub fn drain_next(plan_len: usize, done: usize, last: Result<(), CoreError>, elapsed_ms: u64, cfg: &DrainConfig) -> (n:
    DrainNext)
    requires
        done <= plan_len + 1,
    ensures
        done == 0 ==> n is QuerySignal,
        done == 1 ==> match last {
            Err(e) => n == DrainNext::Abort(e),
            Ok(_) => if plan_len > 0 {
                n == DrainNext::Perform(0)
            } else {
                n is Finished
            },
        },
        done >= 2 && elapsed_ms > cfg.drain_deadline_ms ==> (n matches DrainNext::Abort(
            CoreError::Fatal(FatalError::Internal { msg }),
        ) && msg@ == overrun_msg(*cfg)),
        done >= 2 && elapsed_ms <= cfg.drain_deadline_ms ==> match last {
            Err(e) => n == DrainNext::Abort(e),
            Ok(_) => if done - 1 < plan_len {
                n == DrainNext::Perform((done - 1) as usize)
            } else {
                n is Finished
            },
        },
{
    if done == 0 {
        return DrainNext::QuerySignal;
    }
    if done >= 2 && elapsed_ms > cfg.drain_deadline_ms {
        return DrainNext::Abort(drain_overrun_error(cfg));
    }
    match last {
        Err(e) => DrainNext::Abort(e),
        Ok(()) => {
            if done - 1 < plan_len {
                DrainNext::Perform(done - 1)
            } else {
                DrainNext::Finished
            }
        },
    }
}

} // verus!

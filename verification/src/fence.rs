//! Self-fence decision for a deposed coordinator.
//!
//! When the old coordinator learns its lease was stolen (the epoch advanced
//! under it), it must stop all shared-state writes, emit exactly one
//! `coordinator_fenced` event through the observability sink (never the
//! shared store), flushed before returning, and then abort.

use vstd::prelude::*;

use crate::ids::{RunId, WorkerId};
use crate::lease::CoordEpoch;
use crate::observability::{DomainEvent, EventAttrs, Level};
use crate::text::{dec_text, push_decimal, push_str};

verus! {

/// What a fenced coordinator should do.
#[derive(Debug, Clone, Copy, PartialEq, Eq, Structural)]
pub enum FenceDecision {
    /// Emit the fence event, then abort the process.
    Abort,
}

/// Message of the fence event.
pub open spec fn fence_msg(stale: u64, observed: u64) -> Seq<char> {
    "coordinator fenced: stale_epoch="@ + dec_text(stale as nat) + " < observed_epoch="@ + dec_text(
        observed as nat,
    )
}

/// Self-fence: returns exactly one `coordinator_fenced` event (level
/// `Error`, scoped to `run_id` and `coord_id`, carrying both epochs) for the
/// caller to emit and flush, and the decision to abort. Touches no shared
/// state. `stale` is the epoch this coordinator held; `observed` is the
/// higher epoch that deposed it.
pub fn fence_old_coordinator(coord_id: WorkerId, run_id: RunId, stale: CoordEpoch, observed: CoordEpoch) -> (r: (
    DomainEvent,
    FenceDecision,
))
    ensures
        r.1 == FenceDecision::Abort,
        r.0.topic@ == "coordinator_fenced"@,
        r.0.level == Level::Error,
        r.0.run_id == Some(run_id),
        r.0.worker_id == Some(coord_id),
        r.0.message matches Some(m) && m@ == fence_msg(stale.0, observed.0),
        r.0.attrs == (EventAttrs::Fence { stale, observed }),
{
    let mut msg = String::new();
    push_str(&mut msg, "coordinator fenced: stale_epoch=");
    push_decimal(&mut msg, stale.0);
    push_str(&mut msg, " < observed_epoch=");
    push_decimal(&mut msg, observed.0);
    proof {
        reveal_strlit("coordinator fenced: stale_epoch=");
        reveal_strlit(" < observed_epoch=");
        assert(msg@ =~= fence_msg(stale.0, observed.0));
    }
    let event = DomainEvent {
        topic: "coordinator_fenced".to_owned(),
        level: Level::Error,
        run_id: Some(run_id),
        worker_id: Some(coord_id),
        message: Some(msg),
        attrs: EventAttrs::Fence { stale, observed },
    };
    (event, FenceDecision::Abort)
}

} // verus!

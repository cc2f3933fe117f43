//! Worker lifecycle types: drain reasons, reported lifecycle states, and
//! the heartbeat a worker sends.

use vstd::prelude::*;

use crate::ids::{RunId, WorkerId};

verus! {

/// Runtime-injected worker context (no fields yet).
pub struct WorkerContext;

/// Reason a worker is being drained.
#[derive(Debug, Clone, Copy, PartialEq, Eq, Structural)]
pub enum DrainReason {
    /// Run was cancelled by the operator.
    Cancelled,
    /// Coordinator requested a snapshot.
    SnapshotRequest,
    /// Process is shutting down.
    Shutdown,
}

/// Lifecycle state reported in a heartbeat.
#[derive(Debug, Clone, Copy, PartialEq, Eq, Structural, Hash)]
pub enum WorkerState {
    /// Worker is initialising.
    Init,
    /// Worker has finished `ready()` and is awaiting work.
    Ready,
    /// Worker is actively running.
    Running,
    /// Worker is draining in-flight work.
    Draining,
}

/// A worker's "I am alive" assertion, valid until `due_at_ms`.
#[derive(Debug, Clone, Copy, PartialEq, Eq, Structural)]
pub struct Heartbeat {
    /// Worker emitting the heartbeat.
    pub worker_id: WorkerId,
    /// Run the worker is attached to.
    pub run_id: RunId,
    /// Self-reported lifecycle state.
    pub state: WorkerState,
    /// Deadline by which the next heartbeat must arrive (ms since UNIX epoch).
    pub due_at_ms: u128,
}

} // verus!

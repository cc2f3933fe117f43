//! Observability event shapes: log levels, span phases, and the domain
//! events the coordinator decides to emit (the emitting itself is done by
//! the caller's event sink).

use vstd::prelude::*;

use crate::errors::CoreError;
use crate::ids::{RunId, WorkerId};
use crate::lease::CoordEpoch;

verus! {

/// Log level of an event.
#[derive(Debug, Clone, Copy, PartialEq, Eq, Structural)]
pub enum Level {
    /// Verbose tracing (rarely enabled).
    Trace,
    /// Debug-level diagnostic.
    Debug,
    /// Informational event.
    Info,
    /// Recoverable warning.
    Warn,
    /// Error or failure.
    Error,
}

/// Span lifecycle marker.
#[derive(Debug, Clone, Copy, PartialEq, Eq, Structural)]
pub enum SpanPhase {
    /// Span has started.
    Start,
    /// Span has ended.
    End,
}

/// Structured attributes some domain events carry.
#[derive(Debug, Clone, PartialEq, Eq)]
pub enum EventAttrs {
    /// No attributes.
    Empty,
    /// `{ "due_at_ms": .. }` of a failed worker's last heartbeat.
    DueAt(u128),
    /// `{ "stale_epoch": .., "observed_epoch": .. }` of a fenced coordinator.
    Fence {
        /// The epoch the fenced coordinator held.
        stale: CoordEpoch,
        /// The higher epoch that deposed it.
        observed: CoordEpoch,
    },
    /// `{ "work_id": .. }` of a dispatched / completed work item.
    WorkId(String),
    /// `{ "work_id": .., "thief": .. }` of a stolen work item.
    Stolen {
        /// Hex work id.
        work_id: String,
        /// Thief worker ULID text.
        thief: String,
    },
    /// `{ "items": .., "done": .., "stolen": .. }` at the end of a mock run.
    RunDone {
        /// Items enqueued.
        items: usize,
        /// Items `Done` at the end.
        done: usize,
        /// Items stolen.
        stolen: usize,
    },
}

/// A domain event decided by the coordinator logic, for an event sink to
/// stamp with a timestamp and emit.
#[derive(Debug, Clone, PartialEq, Eq)]
pub struct DomainEvent {
    /// Dot- or underscore-delimited topic, e.g. `"worker_registered"`.
    pub topic: String,
    /// Log level.
    pub level: Level,
    /// Run scope, if applicable.
    pub run_id: Option<RunId>,
    /// Worker scope, if applicable.
    pub worker_id: Option<WorkerId>,
    /// Free-form message, if any.
    pub message: Option<String>,
    /// Structured attributes.
    pub attrs: EventAttrs,
}

/// Build a domain event with no message and no attributes.
pub fn domain_event(topic: &str, level: Level, run_id: Option<RunId>, worker_id: Option<WorkerId>) -> (e:
    DomainEvent)
    ensures
        e.topic@ == topic@,
        e.level == level,
        e.run_id == run_id,
        e.worker_id == worker_id,
        e.message is None,
        e.attrs == EventAttrs::Empty,
{
    DomainEvent { topic: topic.to_owned(), level, run_id, worker_id, message: None, attrs: EventAttrs::Empty }
}

/// Sink for domain events, implemented per output channel.
pub trait EventEmitter {
    /// Emit one event.
    fn emit(&self, event: DomainEvent) -> Result<(), CoreError>;
}

/// Discards events.
#[derive(Debug, Clone, Copy, Default)]
pub struct NoopEmitter;

impl EventEmitter for NoopEmitter {
    /// Accepts every event and drops it.
    fn emit(&self, event: DomainEvent) -> (r: Result<(), CoreError>)
        ensures
            r is Ok,
    {
        Ok(())
    }
}

} // verus!

//! Snapshot identifiers, kinds and policies.

use std::time::Duration;
use vstd::prelude::*;

use crate::ids::{ContentId, RunId};

verus! {

/// Snapshot identifier (a content id of the snapshot's canonical metadata).
#[derive(Debug, Clone, Copy, PartialEq, Eq, Hash)]
pub struct SnapshotId(pub ContentId);

impl vstd::std_specs::convert::FromSpecImpl<ContentId> for SnapshotId {
    open spec fn obeys_from_spec() -> bool {
        true
    }

    open spec fn from_spec(c: ContentId) -> SnapshotId {
        SnapshotId(c)
    }
}

impl From<ContentId> for SnapshotId {
    fn from(c: ContentId) -> (r: SnapshotId) {
        SnapshotId(c)
    }
}

/// Snapshot kind discriminant.
#[derive(Debug, Clone, Copy, PartialEq, Eq, Structural, Hash)]
pub enum SnapshotKind {
    /// Training state — weights, optimizer, LR schedule, RNG, algorithm meta.
    TrainState,
    /// Replay/rollout buffer.
    Buffer,
    /// Process-level snapshot.
    Process,
    /// Episodic agent memory.
    EpisodicMemory,
}

/// Snapshot retention policy enforced by prune.
#[derive(Debug, Clone, Copy)]
pub struct RetentionPolicy {
    /// Keep at least this many most-recent snapshots.
    pub keep_last: u32,
    /// Always keep labeled snapshots regardless of `keep_last`.
    pub keep_labeled: bool,
    /// Delete snapshots older than this. `None` = no age limit.
    pub max_age: Option<Duration>,
}

/// Snapshot list filter; every `None` field leaves that criterion open.
#[derive(Debug, Clone)]
pub struct SnapshotFilter {
    /// Restrict to this run.
    pub run_id: Option<RunId>,
    /// Restrict to this kind.
    pub kind: Option<SnapshotKind>,
    /// Substring match on `label`.
    pub label_contains: Option<String>,
    /// Cap result length.
    pub limit: Option<u32>,
}

impl Default for SnapshotFilter {
    /// The filter that restricts nothing.
    fn default() -> (f: SnapshotFilter)
        ensures
            f.run_id is None,
            f.kind is None,
            f.label_contains is None,
            f.limit is None,
    {
        SnapshotFilter { run_id: None, kind: None, label_contains: None, limit: None }
    }
}

/// Prune policy: which snapshots to delete from a run.
#[derive(Debug, Clone)]
pub struct PrunePolicy {
    /// Run whose snapshots are subject to pruning.
    pub run_id: RunId,
    /// Retention rules applied within the run.
    pub retention: RetentionPolicy,
}

/// Default `keep_last`: 3.
pub fn default_keep_last() -> (n: u32)
    ensures
        n == 3,
{
    3
}

/// Default `keep_labeled`: true.
pub fn default_keep_labeled() -> (b: bool)
    ensures
        b,
{
    true
}

impl Default for RetentionPolicy {
    /// Keep the last 3, keep labeled snapshots, no age limit.
    fn default() -> (p: RetentionPolicy)
        ensures
            p.keep_last == 3,
            p.keep_labeled,
            p.max_age is None,
    {
        RetentionPolicy { keep_last: default_keep_last(), keep_labeled: default_keep_labeled(), max_age: None }
    }
}

/// Periodic snapshot cadence.
#[derive(Debug, Clone)]
pub struct PeriodicPolicy {
    /// Snapshot every N training steps.
    pub interval_steps: Option<u32>,
    /// Snapshot every N tokens processed.
    pub interval_tokens: Option<u64>,
    /// Snapshot every N of wall-clock time.
    pub interval_walltime: Option<Duration>,
    /// Snapshot kinds to produce at each interval.
    pub kinds: Vec<SnapshotKind>,
}

/// Per-run snapshot policy.
#[derive(Debug, Clone)]
pub struct SnapshotPolicy {
    /// Take a snapshot when the run completes normally.
    pub on_completion: bool,
    /// Take an opportunistic snapshot on SIGTERM / preemption.
    pub on_preemption: bool,
    /// Periodic snapshot policy.
    pub periodic: Option<PeriodicPolicy>,
    /// Retention.
    pub retention: RetentionPolicy,
}

/// Default `on_completion`: true.
pub fn snapshot_default_on_completion() -> (b: bool)
    ensures
        b,
{
    true
}

/// Default `on_preemption`: true.
pub fn snapshot_default_on_preemption() -> (b: bool)
    ensures
        b,
{
    true
}

impl Default for SnapshotPolicy {
    /// Snapshot on completion and on preemption, no periodic policy, default
    /// retention.
    fn default() -> (p: SnapshotPolicy)
        ensures
            p.on_completion,
            p.on_preemption,
            p.periodic is None,
            p.retention.keep_last == 3,
            p.retention.keep_labeled,
            p.retention.max_age is None,
    {
        SnapshotPolicy {
            on_completion: snapshot_default_on_completion(),
            on_preemption: snapshot_default_on_preemption(),
            periodic: None,
            retention: RetentionPolicy::default(),
        }
    }
}

} // verus!

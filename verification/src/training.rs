//! Training-side configuration types.

use std::time::Duration;
use vstd::prelude::*;

verus! {

/// Optimizer kind discriminant.
#[derive(Debug, Clone, Copy, PartialEq, Eq, Structural)]
pub enum OptimizerKind {
    /// AdamW (recommended).
    AdamW,
    /// Adam.
    Adam,
    /// Plain SGD.
    Sgd,
}

/// Learning-rate schedule kind.
#[derive(Debug, Clone, Copy, PartialEq, Eq, Structural)]
pub enum LrSchedule {
    /// Constant LR.
    Constant,
    /// Linear warmup + linear decay.
    Linear,
    /// Linear warmup + cosine decay.
    Cosine,
}

/// Default learning-rate schedule: constant.
pub fn default_schedule() -> (s: LrSchedule)
    ensures
        s == LrSchedule::Constant,
{
    LrSchedule::Constant
}

/// Default gradient accumulation factor: 1.
pub fn default_grad_accum() -> (n: u32)
    ensures
        n == 1,
{
    1
}

/// Training budget bounds.
#[derive(Debug, Clone, Copy, Default)]
pub struct TrainingBudget {
    /// Maximum number of optimizer steps.
    pub max_steps: Option<u32>,
    /// Maximum tokens to consume.
    pub max_tokens: Option<u64>,
    /// Maximum wall-clock duration.
    pub max_walltime: Option<Duration>,
}

/// Sequence packing kind.
#[derive(Debug, Clone, Copy, PartialEq, Eq, Structural)]
pub enum PackingKind {
    /// Concatenate sequences up to `max_seq_len` with EOS separators.
    Concat,
    /// Bucketed (length-similar) packing.
    Bucketed,
    /// No packing — one sequence per minibatch row.
    Off,
}

/// Packing policy.
#[derive(Debug, Clone, Copy, PartialEq, Eq, Structural)]
pub struct PackingPolicy {
    /// Packing kind.
    pub kind: PackingKind,
    /// Maximum packed sequence length (tokens).
    pub max_seq_len: u32,
}

/// Reward-model head kind.
#[derive(Debug, Clone, Copy, PartialEq, Eq, Structural)]
pub enum RmHeadKind {
    /// Bradley-Terry pairwise comparison head.
    BradleyTerry,
    /// Pairwise logistic loss (alternative form).
    PairwiseLogistic,
}

} // verus!

//! Inference / training backend value types.

use vstd::prelude::*;

use crate::ids::ContentId;

verus! {

/// A prompt string.
#[derive(Debug, Clone, PartialEq, Eq, Hash)]
pub struct Prompt(pub String);

/// A generated completion produced by an inference backend.
#[derive(Debug, Clone, PartialEq, Eq)]
pub struct Completion {
    /// Completion text returned by the model.
    pub text: String,
    /// Why generation stopped (`stop`, `length`, `eos`, ...).
    pub finish_reason: String,
    /// Prompt token count reported by the engine.
    pub prompt_tokens: u32,
    /// Completion token count reported by the engine.
    pub completion_tokens: u32,
}

/// Reference to a model — HuggingFace id, local path, or content-addressed URI.
#[derive(Debug, Clone, PartialEq, Eq)]
pub struct ModelRef {
    /// HuggingFace repo id, local path, or object-store URI.
    pub uri: String,
    /// Optional content-addressed pin for reproducibility.
    pub content_id: Option<ContentId>,
    /// Tokenizer override; default uses the model's own.
    pub tokenizer: Option<String>,
}

/// Default sampling `top_k`: -1 (disabled).
pub fn top_k() -> (k: i32)
    ensures
        k == -1,
{
    -1
}

/// Default sampling `max_tokens`: 16.
pub fn max_tokens() -> (n: u32)
    ensures
        n == 16,
{
    16
}

/// Opaque handle to gradients computed by a forward pass with loss.
#[derive(Debug, Default)]
pub struct GradHandle {
    /// Monotonic step counter (mock backends use it; real ones ignore it).
    pub step: u64,
}

/// A training batch handed to a forward pass with loss.
#[derive(Debug, Clone, Default)]
#[non_exhaustive]
pub struct TrainBatch {
    /// Number of sequences in this minibatch.
    pub n_sequences: u32,
    /// Total tokens across all sequences in this minibatch.
    pub n_tokens: u32,
    /// Raw text rows (the backend tokenizes).
    pub rows: Vec<String>,
}

impl TrainBatch {
    /// An empty batch.
    pub fn new() -> (b: TrainBatch)
        ensures
            b.n_sequences == 0,
            b.n_tokens == 0,
            b.rows@.len() == 0,
    {
        TrainBatch { n_sequences: 0, n_tokens: 0, rows: Vec::new() }
    }

    /// A batch from raw text rows and counts.
    pub fn with_rows(n_sequences: u32, n_tokens: u32, rows: Vec<String>) -> (b: TrainBatch)
        ensures
            b.n_sequences == n_sequences,
            b.n_tokens == n_tokens,
            b.rows == rows,
    {
        TrainBatch { n_sequences, n_tokens, rows }
    }

    /// Number of tokens in this batch.
    pub fn n_tokens(&self) -> (n: u32)
        ensures
            n == self.n_tokens,
    {
        self.n_tokens
    }
}

/// Placeholder for a custom loss-mask specification.
#[derive(Debug, Clone, Copy, Default, PartialEq, Eq)]
pub struct MaskSpec {}

/// Selector for which tokens contribute to the loss in supervised training.
#[derive(Debug, Clone, Copy, PartialEq, Eq)]
pub enum LossScope {
    /// Mask loss to assistant-role spans.
    AssistantOnly,
    /// Compute loss across all tokens.
    Full,
    /// Custom mask specification.
    Custom(MaskSpec),
}

/// Monotonic clock (injectable for deterministic tests).
pub trait Clock {
    /// Monotonic nanoseconds since an unspecified epoch.
    fn now_nanos(&self) -> u128;
}

/// Outcome of an algorithm run.
#[derive(Debug, Clone, Copy, PartialEq, Eq, Structural)]
pub enum RunOutcome {
    /// Run completed normally.
    Completed,
    /// Run was preempted; a snapshot was opportunistically saved.
    Preempted,
}

/// Plan-time validation violation.
#[derive(Debug, Clone, PartialEq, Eq)]
pub struct ConfigViolation {
    /// JSON-path-like locator into the config (e.g. `"algorithm.sft.optimizer.lr"`).
    pub locator: String,
    /// Human-readable explanation.
    pub message: String,
}

} // verus!

//! Error taxonomy: `CoreError` splits into `Recoverable` (worker may retry)
//! and `Fatal` (operator intervention required). Recoverable errors carry a
//! `RetryHint`.

use vstd::prelude::*;

use crate::text::{duration_debug, duration_debug_text, push_str};

verus! {

/// Top-level framework error.
#[derive(Debug)]
pub enum CoreError {
    /// Worker should retry per the embedded hint.
    Recoverable(RecoverableError),
    /// Operator must intervene; do not retry.
    Fatal(FatalError),
}

/// Transient failure categories — safe to retry.
#[derive(Debug)]
pub enum RecoverableError {
    /// Upstream applied rate limiting.
    Throttled {
        /// When/how to retry.
        hint: RetryHint,
    },
    /// Transient I/O / network / dependency failure.
    Transient {
        /// Human-readable cause.
        msg: String,
        /// When/how to retry.
        hint: RetryHint,
    },
    /// Worker was preempted (e.g., spot reclamation).
    Preempted {
        /// When/how to retry.
        hint: RetryHint,
    },
}

/// Non-recoverable failures.
#[derive(Debug)]
pub enum FatalError {
    /// Config rejected at plan time or load time.
    ConfigInvalid {
        /// Human-readable cause.
        msg: String,
    },
    /// Config / payload failed schema validation.
    SchemaViolation {
        /// Human-readable cause.
        msg: String,
    },
    /// Plugin returned a value violating its trait contract.
    PluginContract {
        /// Offending plugin name.
        plugin: String,
        /// Human-readable cause.
        msg: String,
    },
    /// Internal invariant violated; treat as a bug.
    Internal {
        /// Human-readable cause.
        msg: String,
    },
}

/// Retry strategy hint attached to recoverable errors. Delays are in
/// milliseconds.
#[derive(Debug, Clone, Copy)]
pub enum RetryHint {
    /// Never retry; the caller should propagate.
    Never,
    /// Retry once after the given delay (ms).
    After(u64),
    /// Exponential backoff between `base` and `max` (ms).
    Backoff {
        /// Initial delay (ms).
        base: u64,
        /// Cap on delay (ms).
        max: u64,
    },
}

/// Text of a retry hint, in the layout of a derived `Debug` whose delays
/// print as `Duration`s: `"Never"`, `"After(2s)"`,
/// `"Backoff { base: 1s, max: 30s }"`.
pub open spec fn hint_text(h: RetryHint) -> Seq<char> {
    match h {
        RetryHint::Never => "Never"@,
        RetryHint::After(ms) => "After("@ + duration_debug_text(ms) + ")"@,
        RetryHint::Backoff { base, max } => "Backoff { base: "@ + duration_debug_text(base)
            + ", max: "@ + duration_debug_text(max) + " }"@,
    }
}

impl RetryHint {
    /// Renders the hint as `hint_text` describes.
    pub fn render(&self) -> (s: String)
        ensures
            s@ == hint_text(*self),
    {
        let mut s = String::new();
        match self {
            RetryHint::Never => {
                push_str(&mut s, "Never");
            },
            RetryHint::After(ms) => {
                push_str(&mut s, "After(");
                let d = duration_debug(*ms);
                push_str(&mut s, d.as_str());
                push_str(&mut s, ")");
            },
            RetryHint::Backoff { base, max } => {
                push_str(&mut s, "Backoff { base: ");
                let b = duration_debug(*base);
                push_str(&mut s, b.as_str());
                push_str(&mut s, ", max: ");
                let m = duration_debug(*max);
                push_str(&mut s, m.as_str());
                push_str(&mut s, " }");
            },
        }
        proof {
            reveal_strlit("Never");
            reveal_strlit("After(");
            reveal_strlit(")");
            reveal_strlit("Backoff { base: ");
            reveal_strlit(", max: ");
            reveal_strlit(" }");
            assert(s@ =~= hint_text(*self));
        }
        s
    }
}

impl vstd::std_specs::convert::FromSpecImpl<RecoverableError> for CoreError {
    open spec fn obeys_from_spec() -> bool {
        true
    }

    open spec fn from_spec(e: RecoverableError) -> CoreError {
        CoreError::Recoverable(e)
    }
}

impl From<RecoverableError> for CoreError {
    fn from(e: RecoverableError) -> (r: CoreError) {
        CoreError::Recoverable(e)
    }
}

impl vstd::std_specs::convert::FromSpecImpl<FatalError> for CoreError {
    open spec fn obeys_from_spec() -> bool {
        true
    }

    open spec fn from_spec(e: FatalError) -> CoreError {
        CoreError::Fatal(e)
    }
}

impl From<FatalError> for CoreError {
    fn from(e: FatalError) -> (r: CoreError) {
        CoreError::Fatal(e)
    }
}

/// Text of a fatal error, as `"<kind>: <detail>"`.
pub open spec fn fatal_text(e: FatalError) -> Seq<char> {
    match e {
        FatalError::ConfigInvalid { msg } => "config invalid: "@ + msg@,
        FatalError::SchemaViolation { msg } => "schema violation: "@ + msg@,
        FatalError::PluginContract { plugin, msg } => "plugin contract violation: "@ + plugin@
            + ": "@ + msg@,
        FatalError::Internal { msg } => "internal: "@ + msg@,
    }
}

/// Text of recoverable error `e`, e.g. `"throttled: retry After(2s)"`.
pub open spec fn recoverable_text(e: RecoverableError) -> Seq<char> {
    match e {
        RecoverableError::Throttled { hint } => "throttled: retry "@ + hint_text(hint),
        RecoverableError::Transient { msg, .. } => "transient: "@ + msg@,
        RecoverableError::Preempted { .. } => "preempted"@,
    }
}

impl FatalError {
    /// Human-readable rendering, e.g. `"config invalid: <msg>"`.
    pub fn describe(&self) -> (s: String)
        ensures
            s@ == fatal_text(*self),
    {
        let mut s = String::new();
        match self {
            FatalError::ConfigInvalid { msg } => {
                push_str(&mut s, "config invalid: ");
                push_str(&mut s, msg.as_str());
            },
            FatalError::SchemaViolation { msg } => {
                push_str(&mut s, "schema violation: ");
                push_str(&mut s, msg.as_str());
            },
            FatalError::PluginContract { plugin, msg } => {
                push_str(&mut s, "plugin contract violation: ");
                push_str(&mut s, plugin.as_str());
                push_str(&mut s, ": ");
                push_str(&mut s, msg.as_str());
            },
            FatalError::Internal { msg } => {
                push_str(&mut s, "internal: ");
                push_str(&mut s, msg.as_str());
            },
        }
        proof {
            reveal_strlit("config invalid: ");
            reveal_strlit("schema violation: ");
            reveal_strlit("plugin contract violation: ");
            reveal_strlit(": ");
            reveal_strlit("internal: ");
            assert(s@ =~= fatal_text(*self));
        }
        s
    }
}

impl RecoverableError {
    /// Human-readable rendering, e.g. `"transient: <msg>"`.
    pub fn describe(&self) -> (s: String)
        ensures
            s@ == recoverable_text(*self),
    {
        let mut s = String::new();
        match self {
            RecoverableError::Throttled { hint } => {
                push_str(&mut s, "throttled: retry ");
                let h = hint.render();
                push_str(&mut s, h.as_str());
                proof {
                    reveal_strlit("throttled: retry ");
                }
            },
            RecoverableError::Transient { msg, .. } => {
                push_str(&mut s, "transient: ");
                push_str(&mut s, msg.as_str());
                proof {
                    reveal_strlit("transient: ");
                }
            },
            RecoverableError::Preempted { .. } => {
                push_str(&mut s, "preempted");
                proof {
                    reveal_strlit("preempted");
                }
            },
        }
        s
    }
}

impl CoreError {
    /// Human-readable rendering: `"recoverable: ..."` or `"fatal: ..."`.
    pub fn describe(&self) -> (s: String)
        ensures
            match *self {
                CoreError::Recoverable(r) => s@ == "recoverable: "@ + recoverable_text(r),
                CoreError::Fatal(f) => s@ == "fatal: "@ + fatal_text(f),
            },
    {
        let mut s = String::new();
        match self {
            CoreError::Recoverable(r) => {
                push_str(&mut s, "recoverable: ");
                let inner = r.describe();
                push_str(&mut s, inner.as_str());
            },
            CoreError::Fatal(f) => {
                push_str(&mut s, "fatal: ");
                let inner = f.describe();
                push_str(&mut s, inner.as_str());
            },
        }
        proof {
            reveal_strlit("recoverable: ");
            reveal_strlit("fatal: ");
        }
        s
    }

    /// Whether this is a `Fatal(ConfigInvalid { .. })` error.
    pub fn is_config_invalid(&self) -> (r: bool)
        ensures
            r == (*self matches CoreError::Fatal(FatalError::ConfigInvalid { .. })),
    {
        match self {
            CoreError::Fatal(FatalError::ConfigInvalid { .. }) => true,
            _ => false,
        }
    }
}

} // verus!

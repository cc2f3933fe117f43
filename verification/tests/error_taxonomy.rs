//! `CoreError` variants, `From` propagation, and the rendered texts.
use rollout_coordinator::errors::{CoreError, FatalError, RecoverableError, RetryHint};

#[test]
fn variants_exist() {
    let r: CoreError = CoreError::Recoverable(RecoverableError::Preempted { hint: RetryHint::Never });
    let f: CoreError = CoreError::Fatal(FatalError::Internal { msg: "x".into() });
    assert!(matches!(r, CoreError::Recoverable(_)));
    assert!(matches!(f, CoreError::Fatal(_)));
}

#[test]
fn from_propagation() {
    fn inner() -> Result<(), CoreError> {
        Err(RecoverableError::Preempted { hint: RetryHint::Never })?;
        Ok(())
    }
    let err = inner().expect_err("must error");
    assert!(matches!(err, CoreError::Recoverable(_)));
}

#[test]
fn display_formats_recoverable_and_fatal() {
    let r = CoreError::Recoverable(RecoverableError::Throttled { hint: RetryHint::Never });
    assert!(r.describe().starts_with("recoverable: "));
    let f = CoreError::Fatal(FatalError::ConfigInvalid { msg: "bad".into() });
    assert!(f.describe().starts_with("fatal: "));
}

/// Probe whose inherent `is_serializable` exists only for `Serialize`
/// types; for any other type the blanket trait method answers `false`.
struct Probe<T>(std::marker::PhantomData<T>);

trait NotSerializable {
    fn is_serializable(&self) -> bool {
        false
    }
}

impl<T> NotSerializable for Probe<T> {}

#[allow(dead_code)]
impl<T: serde::Serialize> Probe<T> {
    fn is_serializable(&self) -> bool {
        true
    }
}

#[test]
fn not_serializable() {
    // The error taxonomy must not implement serde's traits.
    assert!(Probe::<String>(std::marker::PhantomData).is_serializable(), "the probe detects Serialize");
    assert!(!Probe::<CoreError>(std::marker::PhantomData).is_serializable());
    assert!(!Probe::<RecoverableError>(std::marker::PhantomData).is_serializable());
    assert!(!Probe::<FatalError>(std::marker::PhantomData).is_serializable());
    assert!(!Probe::<RetryHint>(std::marker::PhantomData).is_serializable());
}

#[test]
fn every_variant_renders_its_text() {
    let cases: Vec<(CoreError, &str)> = vec![
        (
            CoreError::Recoverable(RecoverableError::Throttled { hint: RetryHint::Never }),
            "recoverable: throttled: retry Never",
        ),
        (
            CoreError::Recoverable(RecoverableError::Transient { msg: "net".into(), hint: RetryHint::Never }),
            "recoverable: transient: net",
        ),
        (CoreError::Recoverable(RecoverableError::Preempted { hint: RetryHint::Never }), "recoverable: preempted"),
        (CoreError::Fatal(FatalError::ConfigInvalid { msg: "bad".into() }), "fatal: config invalid: bad"),
        (CoreError::Fatal(FatalError::SchemaViolation { msg: "s".into() }), "fatal: schema violation: s"),
        (
            CoreError::Fatal(FatalError::PluginContract { plugin: "p".into(), msg: "m".into() }),
            "fatal: plugin contract violation: p: m",
        ),
        (CoreError::Fatal(FatalError::Internal { msg: "i".into() }), "fatal: internal: i"),
    ];
    for (e, want) in cases {
        assert_eq!(e.describe(), want);
    }
}

#[test]
fn throttled_renders_hint_debug() {
    let r = RecoverableError::Throttled { hint: RetryHint::After(2000) };
    assert_eq!(r.describe(), "throttled: retry After(2s)");
}

#[test]
fn throttled_renders_backoff_and_subsecond_hints() {
    let b = RecoverableError::Throttled { hint: RetryHint::Backoff { base: 1000, max: 30_000 } };
    assert_eq!(b.describe(), "throttled: retry Backoff { base: 1s, max: 30s }");
    let a = CoreError::Recoverable(RecoverableError::Throttled { hint: RetryHint::After(250) });
    assert_eq!(a.describe(), "recoverable: throttled: retry After(250ms)");
    assert_eq!(RetryHint::Never.render(), "Never");
}

#[test]
fn fatal_from_converts() {
    let e: CoreError = FatalError::Internal { msg: "boom".into() }.into();
    assert!(matches!(e, CoreError::Fatal(FatalError::Internal { .. })));
    assert!(!e.is_config_invalid());
    let c: CoreError = FatalError::ConfigInvalid { msg: "c".into() }.into();
    assert!(c.is_config_invalid());
}

//! Worker-side epoch guard, response stamping, epoch ordering.
use rollout_coordinator::epoch::{stamp_epoch, EpochGuard};
use rollout_coordinator::errors::{CoreError, RecoverableError, RetryHint};
use rollout_coordinator::lease::CoordEpoch;

#[test]
fn worker_rejects_stale_epoch() {
    let mut guard = EpochGuard::new(CoordEpoch(2));
    assert!(guard.accept(CoordEpoch(1)).is_err(), "stale epoch rejected");
    assert!(guard.accept(CoordEpoch(2)).is_ok(), "equal epoch accepted");
    assert!(guard.accept(CoordEpoch(3)).is_ok(), "higher epoch accepted");
    assert_eq!(guard.seen_max().0, 3, "seen_max advanced to 3");
}

#[test]
fn seen_max_is_monotonic() {
    let mut guard = EpochGuard::default();
    assert!(guard.accept(CoordEpoch(3)).is_ok());
    assert!(guard.accept(CoordEpoch(1)).is_err());
    assert!(guard.accept(CoordEpoch(2)).is_err());
    assert!(guard.accept(CoordEpoch(5)).is_ok());
    assert_eq!(guard.seen_max().0, 5, "feeding 3,1,2,5 leaves seen_max=5");
}

#[test]
fn stamp_epoch_carries_epoch() {
    let (payload, epoch) = stamp_epoch("hb-resp", CoordEpoch(7));
    assert_eq!(payload, "hb-resp");
    assert_eq!(epoch.0, 7);
}

#[test]
fn coord_epoch_orders_monotonically() {
    assert!(CoordEpoch(0) < CoordEpoch(1));
    assert!(CoordEpoch(1) > CoordEpoch(0));
    assert_eq!(CoordEpoch(42), CoordEpoch(42));
    let mut epochs = [CoordEpoch(3), CoordEpoch(1), CoordEpoch(2)];
    epochs.sort();
    assert_eq!(epochs, [CoordEpoch(1), CoordEpoch(2), CoordEpoch(3)]);
}

#[test]
fn stale_epoch_error_is_transient_never_with_message() {
    let mut guard = EpochGuard::new(CoordEpoch(4));
    match guard.accept(CoordEpoch(2)) {
        Err(CoreError::Recoverable(RecoverableError::Transient { msg, hint })) => {
            assert_eq!(msg, "stale coord_epoch 2 < seen_max 4 (deposed coordinator)");
            assert!(matches!(hint, RetryHint::Never));
        },
        other => panic!("unexpected {other:?}"),
    }
    assert_eq!(guard.seen_max(), CoordEpoch(4), "a rejection leaves the guard unchanged");
}

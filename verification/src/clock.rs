//! Wall-clock access. The current time is an outside input: nothing is
//! proved about its value, only what the library computes from it.

use std::time::{Duration, SystemTime};
use vstd::prelude::*;

verus! {

/// `std::time::SystemTime`, carried opaquely.
#[verifier::external_type_specification]
#[verifier::external_body]
pub struct ExSystemTime(SystemTime);

/// Calls `SystemTime::now`. Nothing is claimed: the value is the machine's clock.
#[verifier::external_body]
pub(crate) fn wall_clock_now() -> SystemTime {
    SystemTime::now()
}

/// The instant `secs` seconds and `nanos` nanoseconds after the Unix
/// epoch, if the platform's `SystemTime` can hold it.
pub uninterp spec fn epoch_after(secs: u64, nanos: u32) -> Option<SystemTime>;

/// `SystemTime::UNIX_EPOCH`. Claims that it is the epoch plus nothing:
/// adding a zero `Duration` to a time yields that time.
#[verifier::external_body]
pub(crate) fn unix_epoch() -> (t: SystemTime)
    ensures
        epoch_after(0, 0) == Some(t),
{
    SystemTime::UNIX_EPOCH
}

/// Time elapsed from the Unix epoch to `t`; `None` for a time before it.
pub uninterp spec fn elapsed_since_epoch(t: SystemTime) -> Option<Duration>;

/// Whole milliseconds contained in a duration.
pub uninterp spec fn duration_ms(d: Duration) -> u128;

/// Calls `SystemTime::duration_since(UNIX_EPOCH)`; `None` for a time before
/// the epoch. The result is named.
#[verifier::external_body]
pub(crate) fn since_unix_epoch(t: SystemTime) -> (r: Option<Duration>)
    ensures
        r == elapsed_since_epoch(t),
{
    match t.duration_since(SystemTime::UNIX_EPOCH) {
        Ok(d) => Some(d),
        Err(_) => None,
    }
}

/// Calls `Duration::as_millis`. The result is named.
#[verifier::external_body]
pub(crate) fn duration_millis(d: Duration) -> (r: u128)
    ensures
        r == duration_ms(d),
{
    d.as_millis()
}

/// Calls `SystemTime::UNIX_EPOCH.checked_add(Duration::new(secs, nanos))`:
/// the instant that far after the epoch, `None` when it is outside the
/// platform's time range. The result is named; with `nanos` below one
/// second `Duration::new` cannot overflow. Claims too that the time elapsed
/// from the epoch to that instant holds `secs * 1000 + nanos / 1_000_000`
/// whole milliseconds: `duration_since` gives the time elapsed since the
/// earlier instant, and `as_millis` the whole milliseconds of a duration.
#[verifier::external_body]
pub(crate) fn unix_epoch_checked_add(secs: u64, nanos: u32) -> (r: Option<SystemTime>)
    requires
        nanos < 1_000_000_000,
    ensures
        r == epoch_after(secs, nanos),
        r matches Some(t) ==> (elapsed_since_epoch(t) matches Some(d) && duration_ms(d) == secs as u128 * 1000
            + nanos as u128 / 1_000_000),
{
    SystemTime::UNIX_EPOCH.checked_add(Duration::new(secs, nanos))
}

/// Whole milliseconds from the Unix epoch to `t`, 0 for a time before it.
pub open spec fn systime_ms_spec(t: SystemTime) -> u128 {
    match elapsed_since_epoch(t) {
        Some(d) => duration_ms(d),
        None => 0,
    }
}

/// Unix milliseconds of `t`: `t.duration_since(UNIX_EPOCH)` in whole
/// milliseconds, 0 for a time before the epoch.
pub fn systime_ms(t: SystemTime) -> (r: u128)
    ensures
        r == systime_ms_spec(t),
{
    match since_unix_epoch(t) {
        Some(d) => duration_millis(d),
        None => 0,
    }
}

/// Wall-clock Unix milliseconds, 0 for a clock set before the epoch.
/// Nothing is claimed of the value: it is the machine's clock.
pub fn wall_clock_ms() -> u128 {
    systime_ms(wall_clock_now())
}

} // verus!

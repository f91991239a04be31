//! The wall clock, read through std's `SystemTime`.

use vstd::prelude::*;
use std::time::{Duration, SystemTime, UNIX_EPOCH};

verus! {

/// `std::time::SystemTime`, carried as an opaque value.
#[verifier::external_type_specification]
#[verifier::external_body]
pub struct ExSystemTime(SystemTime);

/// The number of whole nanoseconds in `d`.
pub uninterp spec fn nanos_of(d: Duration) -> u128;

/// Trusted: wraps `Duration::as_nanos`, which returns the total number of
/// whole nanoseconds in the duration; it is named by `nanos_of`.
#[verifier::external_body]
pub fn duration_nanos(d: Duration) -> (r: u128)
    ensures
        r == nanos_of(d),
{
    d.as_nanos()
}

/// Trusted: wraps `SystemTime::now`. Nothing is stated of the instant it
/// returns: it is whatever the system clock reads.
#[verifier::external_body]
pub fn system_now() -> SystemTime {
    SystemTime::now()
}

/// Trusted: wraps `SystemTime::duration_since` against `UNIX_EPOCH`, which
/// fails when the instant lies before the epoch. Nothing is stated of the
/// duration: it follows from the opaque instant.
#[verifier::external_body]
pub fn since_epoch(t: &SystemTime) -> Option<Duration> {
    t.duration_since(UNIX_EPOCH).ok()
}

/// The current time in nanoseconds since the UNIX epoch; 0 when the clock
/// reads an instant before the epoch. Which instant the clock reads is not
/// stated: the result is the whole nanoseconds of the duration the clock
/// reports since the epoch, or 0.
pub fn now_nanos() -> (r: u128)
    ensures
        r == 0 || exists|d: Duration| r == #[trigger] nanos_of(d),
{
    let t = system_now();
    match since_epoch(&t) {
        Some(d) => duration_nanos(d),
        None => 0,
    }
}

} // verus!

verus! {

/// Trusted: wraps `Duration::from_secs`, which makes a duration of exactly
/// `secs` whole seconds, that is `secs` times 10^9 nanoseconds.
#[verifier::external_body]
pub fn duration_from_secs(secs: u64) -> (r: Duration)
    ensures
        nanos_of(r) == secs * 1_000_000_000,
{
    Duration::from_secs(secs)
}

} // verus!

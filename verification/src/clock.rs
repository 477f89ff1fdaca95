//! The wall clock, read as whole seconds since the Unix epoch.

use vstd::prelude::*;

use std::time::{Duration, SystemTime};

verus! {

/// `std::time::SystemTime`, held opaque: nothing inside it is read here.
#[verifier::external_type_specification]
#[verifier::external_body]
pub struct ExSystemTime(SystemTime);

/// `SystemTime::now()`: the current wall-clock time. Nothing is stated of it.
#[verifier::external_body]
fn system_time_now() -> SystemTime {
    SystemTime::now()
}

/// `t.duration_since(UNIX_EPOCH)`, `None` when `t` lies before the epoch.
/// Nothing is stated of the duration: `SystemTime` is opaque here.
#[verifier::external_body]
fn since_unix_epoch(t: &SystemTime) -> Option<Duration> {
    t.duration_since(std::time::UNIX_EPOCH).ok()
}

/// `d.as_secs()`: the whole seconds of a duration. Nothing is stated of it:
/// `Duration` is opaque here.
#[verifier::external_body]
fn duration_secs(d: &Duration) -> u64 {
    d.as_secs()
}

/// Epoch seconds as a signed timestamp: the seconds (cast, as `as i64`
/// does), or 0 for a time before the epoch.
pub fn epoch_secs_from(since: Option<u64>) -> (r: i64)
    ensures
        r == match since {
            Some(s) => s as i64,
            None => 0i64,
        },
{
    match since {
        Some(s) => s as i64,
        None => 0,
    }
}

/// The current wall-clock time as Unix epoch seconds (0 before the epoch).
/// The value depends on the clock, so nothing is stated of it.
pub fn unix_secs_now() -> i64 {
    let now = system_time_now();
    let since = match since_unix_epoch(&now) {
        Some(d) => Some(duration_secs(&d)),
        None => None,
    };
    epoch_secs_from(since)
}

} // verus!

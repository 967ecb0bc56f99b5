//! The wall clock.
use vstd::prelude::*;

use std::time::{Duration, SystemTime, SystemTimeError};

verus! {

/// A reading of the system clock.
#[verifier::external_type_specification]
#[verifier::external_body]
pub struct ExSystemTime(std::time::SystemTime);

/// How far a reading lies before another one.
#[verifier::external_type_specification]
#[verifier::external_body]
pub struct ExSystemTimeError(std::time::SystemTimeError);

/// `SystemTime::now`: the present reading of the system clock, of which nothing
/// is claimed.
pub assume_specification[ SystemTime::now ]() -> (t: SystemTime)
;

/// `SystemTime::duration_since`, from the Unix epoch: an error when the reading
/// lies before it. Nothing is claimed of the duration.
#[verifier::external_body]
fn since_epoch(t: SystemTime) -> (r: Result<Duration, SystemTimeError>) {
    t.duration_since(std::time::UNIX_EPOCH)
}

/// `Duration::as_secs`: the whole seconds of a duration. A duration is opaque
/// here, so nothing is claimed of them.
pub assume_specification[ Duration::as_secs ](d: &Duration) -> (seconds: u64)
;

/// The seconds that a clock counts which is this far past the Unix epoch; 0
/// for one that stands before it, and for one past the end of the range.
pub fn seconds_counted(elapsed: Option<u64>) -> (seconds: i64)
    ensures
        seconds == (match elapsed {
            Some(n) => if n <= i64::MAX {
                n as int
            } else {
                0
            },
            None => 0,
        }),
{
    match elapsed {
        Some(n) => if n <= i64::MAX as u64 {
            n as i64
        } else {
            0
        },
        None => 0,
    }
}

/// The current time in whole seconds since the Unix epoch, and 0 when the
/// clock stands before it. Apart from not being negative, nothing is claimed
/// of the value.
pub(crate) fn unix_seconds() -> (seconds: i64)
    ensures
        0 <= seconds,
{
    let now: SystemTime = SystemTime::now();
    match since_epoch(now) {
        Ok(d) => seconds_counted(Some(d.as_secs())),
        Err(_) => seconds_counted(None),
    }
}

} // verus!

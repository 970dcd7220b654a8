//! Wall-clock time since the Unix epoch.

use std::time::{Duration, SystemTime, SystemTimeError};
use vstd::prelude::*;

verus! {

/// std's `SystemTime`: a clock reading, held opaque.
#[verifier::external_type_specification]
#[verifier::external_body]
pub struct ExSystemTime(SystemTime);

/// std's `SystemTimeError`: a clock reading before the reference point.
#[verifier::external_type_specification]
#[verifier::external_body]
pub struct ExSystemTimeError(SystemTimeError);

/// Relies on `SystemTime::now`: a reading of the system clock; nothing is
/// known of its value.
pub assume_specification[ SystemTime::now ]() -> SystemTime;

/// Relies on `SystemTime::duration_since`: the time elapsed since
/// `earlier`, or an error when `earlier` is later.
pub assume_specification[ SystemTime::duration_since ](
    t: &SystemTime,
    earlier: SystemTime,
) -> Result<Duration, SystemTimeError>;

/// Relies on `Duration::as_secs`: the whole seconds of a duration.
pub assume_specification[ Duration::as_secs ](d: &Duration) -> u64;

/// Relies on `Duration::as_millis`: the whole milliseconds of a duration.
pub assume_specification[ Duration::as_millis ](d: &Duration) -> u128;

/// Relies on `SystemTime::UNIX_EPOCH`: the epoch as a clock reading.
#[verifier::external_body]
fn unix_epoch() -> SystemTime {
    SystemTime::UNIX_EPOCH
}

/// `v`, or `i64::MAX` when it does not fit.
pub fn clamp_u64(v: u64) -> (r: i64)
    ensures
        r == if v > i64::MAX { i64::MAX as int } else { v as int },
{
    if v > i64::MAX as u64 {
        i64::MAX
    } else {
        v as i64
    }
}

/// `v`, or `i64::MAX` when it does not fit.
pub fn clamp_u128(v: u128) -> (r: i64)
    ensures
        r == if v > i64::MAX { i64::MAX as int } else { v as int },
{
    if v > i64::MAX as u128 {
        i64::MAX
    } else {
        v as i64
    }
}

/// Whole seconds since the Unix epoch (`clamp_u64` of the clock's
/// seconds); 0 when the clock reads earlier.
pub fn unix_timestamp() -> (r: i64)
    ensures
        r >= 0,
{
    match SystemTime::now().duration_since(unix_epoch()) {
        Ok(d) => clamp_u64(d.as_secs()),
        Err(_) => 0,
    }
}

/// Whole milliseconds since the Unix epoch (`clamp_u128` of the clock's
/// milliseconds); 0 when the clock reads earlier.
pub fn unix_timestamp_millis() -> (r: i64)
    ensures
        r >= 0,
{
    match SystemTime::now().duration_since(unix_epoch()) {
        Ok(d) => clamp_u128(d.as_millis()),
        Err(_) => 0,
    }
}

} // verus!

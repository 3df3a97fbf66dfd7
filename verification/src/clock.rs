use std::time::{Duration, SystemTime, SystemTimeError, UNIX_EPOCH};

use vstd::prelude::*;

verus! {

#[verifier::external_type_specification]
#[verifier::external_body]
pub struct ExSystemTime(SystemTime);

#[verifier::external_type_specification]
#[verifier::external_body]
pub struct ExSystemTimeError(SystemTimeError);

/// The current time of the system clock, by `SystemTime::now`.
///
/// Trusted: nothing is stated of the result, which depends on the time.
#[verifier::external_body]
fn system_now() -> SystemTime {
    SystemTime::now()
}

/// How far `time` lies after the Unix epoch, by `SystemTime::duration_since`
/// with `UNIX_EPOCH`: `Ok` with that span, or `Err` for a time before the epoch.
///
/// Trusted: nothing is stated of the result, which is opaque here.
#[verifier::external_body]
fn since_epoch(time: &SystemTime) -> Result<Duration, SystemTimeError> {
    time.duration_since(UNIX_EPOCH)
}

/// The span by which a time falls short of the epoch, by `SystemTimeError::duration`.
///
/// Trusted: nothing is stated of the result, which is opaque here.
#[verifier::external_body]
fn shortfall(error: &SystemTimeError) -> Duration {
    error.duration()
}

/// The whole seconds of a span, by `Duration::as_secs`.
///
/// Trusted: nothing is stated of the result, since the span is opaque here.
#[verifier::external_body]
fn whole_seconds(span: &Duration) -> u64 {
    span.as_secs()
}

/// The nanoseconds of a span beyond its whole seconds, by
/// `Duration::subsec_nanos`, which std documents as less than one billion.
#[verifier::external_body]
fn subsec_nanos(span: &Duration) -> (r: u32)
    ensures
        r < 1000000000,
{
    span.subsec_nanos()
}

/// The signed number of nanoseconds from the Unix epoch to a time that lies
/// `seconds` and `nanos` after it (`after_epoch`) or before it.
pub open spec fn signed_nanos_spec(after_epoch: bool, seconds: int, nanos: int) -> int {
    if after_epoch {
        seconds * 1000000000 + nanos
    } else {
        -(seconds * 1000000000 + nanos)
    }
}

/// The signed number of nanoseconds from the Unix epoch to a time that lies
/// `seconds` and `nanos` after it (`after_epoch`) or before it.
pub fn signed_nanos(after_epoch: bool, seconds: u64, nanos: u32) -> (r: i128)
    ensures
        r == signed_nanos_spec(after_epoch, seconds as int, nanos as int),
{
    let magnitude = seconds as i128 * 1000000000i128 + nanos as i128;
    if after_epoch {
        magnitude
    } else {
        -magnitude
    }
}

/// Reads the system clock, as signed nanoseconds since the Unix epoch: a
/// clock set before the epoch reads as a negative number.
pub(crate) fn now_nanos() -> i128 {
    let now = system_now();
    match since_epoch(&now) {
        Ok(elapsed) => signed_nanos(true, whole_seconds(&elapsed), subsec_nanos(&elapsed)),
        Err(error) => {
            let early = shortfall(&error);
            signed_nanos(false, whole_seconds(&early), subsec_nanos(&early))
        },
    }
}

} // verus!

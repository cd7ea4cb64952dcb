//! The machine's clock, read through the standard library's `SystemTime`.

use vstd::prelude::*;
use std::time::{Duration, SystemTime, SystemTimeError};

verus! {

#[verifier::external_type_specification]
#[verifier::external_body]
pub struct ExSystemTime(SystemTime);

#[verifier::external_type_specification]
#[verifier::external_body]
pub struct ExSystemTimeError(SystemTimeError);

/// `SystemTime::now`: the machine's clock. Nothing is stated of it.
#[verifier::external_body]
fn system_now() -> SystemTime {
    SystemTime::now()
}

/// `SystemTime::duration_since` with `UNIX_EPOCH`: the time since 1970, an
/// error for a clock set before it. Nothing is stated of which comes back.
#[verifier::external_body]
fn since_unix_epoch(t: &SystemTime) -> Result<Duration, SystemTimeError> {
    t.duration_since(std::time::UNIX_EPOCH)
}

/// `Duration::as_nanos`. Nothing is stated of the value: a duration is
/// opaque here.
#[verifier::external_body]
fn duration_nanos(d: &Duration) -> u128 {
    d.as_nanos()
}

/// `Duration::as_millis`. Nothing is stated of the value.
#[verifier::external_body]
fn duration_millis(d: &Duration) -> u128 {
    d.as_millis()
}

/// Nanoseconds since the Unix epoch; 0 for a clock set before it.
pub(crate) fn epoch_nanos() -> u128 {
    match since_unix_epoch(&system_now()) {
        Ok(d) => duration_nanos(&d),
        Err(_) => 0,
    }
}

/// Milliseconds since the Unix epoch; 0 for a clock set before it. The
/// count is cut to `i64` as an `as` cast does.
pub(crate) fn epoch_millis() -> i64 {
    match since_unix_epoch(&system_now()) {
        Ok(d) => {
            let m = duration_millis(&d);
            #[verifier::truncate]
            (m as i64)
        },
        Err(_) => 0,
    }
}

} // verus!

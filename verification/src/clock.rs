use vstd::prelude::*;
use std::time::{Duration, SystemTime, SystemTimeError, UNIX_EPOCH};
use crate::error::BucketListError;

verus! {

/// `std::time::SystemTime`, taken as an opaque value.
#[verifier::external_type_specification]
#[verifier::external_body]
pub struct ExSystemTime(SystemTime);

/// `std::time::SystemTimeError`, taken as an opaque value.
#[verifier::external_type_specification]
#[verifier::external_body]
pub struct ExSystemTimeError(SystemTimeError);

/// `SystemTime::now`: the clock's reading. Nothing is known of it.
#[verifier::external_body]
fn system_now() -> (t: SystemTime) {
    SystemTime::now()
}

/// `SystemTime::duration_since` against `UNIX_EPOCH`: the time from the epoch
/// to `t`, or an error where `t` is the earlier. Nothing is claimed of either.
#[verifier::external_body]
fn since_epoch(t: &SystemTime) -> (r: Result<Duration, SystemTimeError>) {
    t.duration_since(UNIX_EPOCH)
}

/// `Duration::as_secs`: the whole seconds of `d`. Nothing is claimed of them.
#[verifier::external_body]
fn whole_secs(d: &Duration) -> (s: u64) {
    d.as_secs()
}

/// What a reading of the clock means to the list: the seconds as they are,
/// and `Time` for a clock that stands before the epoch.
pub fn seconds_or_time_error(reading: Result<u64, SystemTimeError>) -> (r: Result<
    u64,
    BucketListError,
>)
    ensures
        match reading {
            Ok(s) => r == Ok::<u64, BucketListError>(s),
            Err(_) => r == Err::<u64, BucketListError>(BucketListError::Time),
        },
{
    match reading {
        Ok(s) => Ok(s),
        Err(_) => Err(BucketListError::Time),
    }
}

/// Seconds since the epoch by the system clock.
///
/// Fails with `Time`, and with nothing else, where the clock stands before the
/// epoch.
pub fn now_secs() -> (r: Result<u64, BucketListError>)
    ensures
        r is Err ==> r == Err::<u64, BucketListError>(BucketListError::Time),
{
    let t = system_now();
    let reading: Result<u64, SystemTimeError> = match since_epoch(&t) {
        Ok(d) => Ok(whole_secs(&d)),
        Err(e) => Err(e),
    };
    seconds_or_time_error(reading)
}

} // verus!

//! Readings of the clocks. Nothing is promised of their values: the code
//! that uses them is verified for whatever they return.
use vstd::prelude::*;

use std::time::{Instant, SystemTime};

verus! {

#[verifier::external_type_specification]
#[verifier::external_body]
pub struct ExInstant(Instant);

#[verifier::external_type_specification]
#[verifier::external_body]
pub struct ExSystemTime(SystemTime);

/// `Instant::now`: a reading of the monotonic clock.
#[verifier::external_body]
pub(crate) fn instant_now() -> (r: Instant) {
    Instant::now()
}

/// `Instant::elapsed`, in nanoseconds: the time since `origin`.
#[verifier::external_body]
pub(crate) fn nanos_since(origin: &Instant) -> (r: u128) {
    origin.elapsed().as_nanos()
}

/// `SystemTime::now`: a reading of the wall clock.
#[verifier::external_body]
pub(crate) fn system_now() -> (r: SystemTime) {
    SystemTime::now()
}

/// `SystemTime::duration_since(UNIX_EPOCH)`, in whole seconds; `None` for
/// a time before the epoch.
#[verifier::external_body]
pub(crate) fn secs_since_unix_epoch(t: &SystemTime) -> (r: Option<u64>) {
    match t.duration_since(std::time::UNIX_EPOCH) {
        Ok(d) => Some(d.as_secs()),
        Err(_) => None,
    }
}

/// `SystemTime::duration_since(UNIX_EPOCH)`, in whole milliseconds; `None`
/// for a time before the epoch.
#[verifier::external_body]
pub(crate) fn millis_since_unix_epoch(t: &SystemTime) -> (r: Option<u128>) {
    match t.duration_since(std::time::UNIX_EPOCH) {
        Ok(d) => Some(d.as_millis()),
        Err(_) => None,
    }
}

/// The seconds since the Unix epoch now, 0 when the wall clock reads
/// earlier than the epoch.
pub(crate) fn epoch_seconds() -> (r: u64) {
    let now = system_now();
    match secs_since_unix_epoch(&now) {
        Some(s) => s,
        None => 0,
    }
}

/// A nanosecond count as a `u64`, saturating.
pub(crate) fn saturating_nanos(n: u128) -> (r: u64)
    ensures
        r == (if n > u64::MAX {
            u64::MAX as int
        } else {
            n as int
        }),
{
    if n > u64::MAX as u128 {
        u64::MAX
    } else {
        n as u64
    }
}

} // verus!

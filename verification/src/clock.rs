//! The wall clock, read through `std::time`. Nothing is known of what it says; the
//! logic that uses the time takes it as an argument and is verified for every value.

use vstd::prelude::*;

use std::time::{Duration, SystemTime, UNIX_EPOCH};

verus! {

#[verifier::external_type_specification]
#[verifier::external_body]
pub struct ExSystemTime(SystemTime);

/// `SystemTime::now()`: the current wall-clock time. Nothing is stated of it.
#[verifier::external_body]
fn system_time_now() -> SystemTime {
    SystemTime::now()
}

/// `t.duration_since(UNIX_EPOCH)`: the time elapsed since the Unix epoch, or `None`
/// when `t` lies before it. Nothing is stated of the duration.
#[verifier::external_body]
fn since_unix_epoch(t: &SystemTime) -> Option<Duration> {
    match t.duration_since(UNIX_EPOCH) {
        Ok(d) => Some(d),
        Err(_) => None,
    }
}

/// `Duration::as_secs`: the whole seconds of a duration. Nothing is stated of them.
#[verifier::external_body]
fn duration_secs(d: &Duration) -> u64 {
    d.as_secs()
}

/// `Duration::as_millis`: the whole milliseconds of a duration. Nothing is stated of them.
#[verifier::external_body]
fn duration_millis(d: &Duration) -> u128 {
    d.as_millis()
}

/// Seconds since the Unix epoch, or 0 when the clock reads a time before it.
pub fn now_secs() -> u64 {
    match since_unix_epoch(&system_time_now()) {
        Some(d) => duration_secs(&d),
        None => 0,
    }
}

/// Milliseconds since the Unix epoch, or 0 when the clock reads a time before it; a
/// count beyond `u64::MAX` is held at `u64::MAX`.
pub fn now_millis() -> u64 {
    match since_unix_epoch(&system_time_now()) {
        Some(d) => {
            let m = duration_millis(&d);
            if m <= 0xffff_ffff_ffff_ffffu128 {
                m as u64
            } else {
                0xffff_ffff_ffff_ffffu64
            }
        },
        None => 0,
    }
}

} // verus!

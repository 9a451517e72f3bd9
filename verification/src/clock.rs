//! Wall-clock time, read once per call and handed on as plain integers.

use vstd::prelude::*;

verus! {

#[verifier::external_type_specification]
#[verifier::external_body]
pub struct ExSystemTime(std::time::SystemTime);

/// `std::time::SystemTime::now`: the machine's wall clock. Nothing is
/// promised about the value.
#[verifier::external_body]
fn system_now() -> std::time::SystemTime {
    std::time::SystemTime::now()
}

/// `SystemTime::duration_since(UNIX_EPOCH)`; `None` for a time before the
/// epoch. Nothing is promised about the duration.
#[verifier::external_body]
fn since_epoch(t: &std::time::SystemTime) -> Option<std::time::Duration> {
    t.duration_since(std::time::UNIX_EPOCH).ok()
}

/// `Duration::as_millis`: the whole milliseconds of a duration (opaque here).
#[verifier::external_body]
fn whole_millis(d: &std::time::Duration) -> u128 {
    d.as_millis()
}

/// `Duration::as_secs`: the whole seconds of a duration (opaque here).
#[verifier::external_body]
fn whole_secs(d: &std::time::Duration) -> u64 {
    d.as_secs()
}

/// Unix milliseconds from a clock reading: truncated to `u64`, 0 when the
/// clock was before the epoch.
pub fn millis_of(elapsed: Option<u128>) -> (r: u64)
    ensures
        r == match elapsed {
            Some(ms) => ms as u64,
            None => 0u64,
        },
{
    match elapsed {
        Some(ms) => ms as u64,
        None => 0,
    }
}

/// Unix time in ms (vote ordering, message timestamps); see `millis_of`.
pub fn now_ms() -> u64 {
    let elapsed = match since_epoch(&system_now()) {
        Some(d) => Some(whole_millis(&d)),
        None => None,
    };
    millis_of(elapsed)
}

/// Unix seconds from a clock reading: 0 when the clock was before the epoch.
pub fn secs_of(elapsed: Option<u64>) -> (r: u64)
    ensures
        r == match elapsed {
            Some(s) => s,
            None => 0u64,
        },
{
    match elapsed {
        Some(s) => s,
        None => 0,
    }
}

/// Unix time in whole seconds (token expiry); see `secs_of`.
pub fn now_secs() -> u64 {
    let elapsed = match since_epoch(&system_now()) {
        Some(d) => Some(whole_secs(&d)),
        None => None,
    };
    secs_of(elapsed)
}

} // verus!

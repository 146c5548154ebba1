//! The current time, from the system clock.

use vstd::prelude::*;

verus! {

/// Relies on std's `SystemTime::now` and `SystemTime::duration_since`: the
/// distance of the current time from the Unix epoch, `Ok` at or after it and
/// `Err` before it, in whole seconds and the nanoseconds beyond them, which
/// `Duration::subsec_nanos` keeps below one second. Nothing else is known of
/// its value.
#[verifier::external_body]
fn system_time_now() -> (r: Result<(u64, u32), (u64, u32)>)
    ensures
        match r {
            Ok((_, nanos)) => nanos < 1_000_000_000,
            Err((_, nanos)) => nanos < 1_000_000_000,
        },
{
    match std::time::SystemTime::now().duration_since(std::time::UNIX_EPOCH) {
        Ok(d) => Ok((d.as_secs(), d.subsec_nanos())),
        Err(e) => Err((e.duration().as_secs(), e.duration().subsec_nanos())),
    }
}

/// Relies on chrono's `DateTime::<Utc>::from_timestamp` and its `Display`:
/// the text of the instant `seconds` and `nanos` past the Unix epoch, or
/// `None` where chrono cannot represent it. Nothing else is known of it.
#[verifier::external_body]
fn utc_text(seconds: i64, nanos: u32) -> (r: Option<String>) {
    match chrono::DateTime::from_timestamp(seconds, nanos) {
        Some(d) => Some(d.to_string()),
        None => None,
    }
}

/// The current time as whole seconds past the Unix epoch (negative before
/// it) and the nanoseconds beyond them, or `None` where the seconds do not
/// fit an `i64`.
pub fn unix_time_now() -> (r: Option<(i64, u32)>)
    ensures
        r matches Some((_, nanos)) ==> nanos < 1_000_000_000,
{
    match system_time_now() {
        Ok((seconds, nanos)) => {
            if seconds <= i64::MAX as u64 {
                Some((seconds as i64, nanos))
            } else {
                None
            }
        },
        Err((seconds, nanos)) => {
            if seconds > i64::MAX as u64 {
                None
            } else if nanos == 0 {
                Some((0 - seconds as i64, 0))
            } else {
                Some((0 - seconds as i64 - 1, 1_000_000_000 - nanos))
            }
        },
    }
}

/// The current time in whole seconds past the Unix epoch, where the clock
/// gives one that fits an `i64`.
pub fn unix_seconds_now() -> (r: Option<i64>) {
    match unix_time_now() {
        Some((seconds, _)) => Some(seconds),
        None => None,
    }
}

/// The current time as text, where the clock gives one that chrono can represent.
pub fn now_text() -> (r: Option<String>) {
    match unix_time_now() {
        Some((seconds, nanos)) => utc_text(seconds, nanos),
        None => None,
    }
}

} // verus!

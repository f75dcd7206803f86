//! Time, in whole seconds.
use std::time::{SystemTime, UNIX_EPOCH};
use vstd::prelude::*;

verus! {

/// Calls `std::time::SystemTime::now` and converts the reading to the whole seconds
/// since the Unix epoch, `None` for a clock set before it. Nothing is claimed of the
/// reading: it is whatever the clock of the machine shows.
#[verifier::external_body]
fn unix_seconds() -> (seconds: Option<u64>) {
    match SystemTime::now().duration_since(UNIX_EPOCH) {
        Ok(elapsed) => Some(elapsed.as_secs()),
        Err(_) => None,
    }
}

/// The timestamp for a time in seconds since the Unix epoch: its low 32 bits.
pub fn timestamp(seconds: u64) -> (ts: u32)
    ensures
        ts == seconds % 0x1_0000_0000,
{
    (seconds % 0x1_0000_0000) as u32
}

/// Whether the clock may be found to show a reading: whether `unix_seconds` may return it.
pub closed spec fn clock_may_show(reading: Option<u64>) -> bool {
    call_ensures(unix_seconds, (), reading)
}

/// The current timestamp, `None` where the clock is set before the Unix epoch: the low
/// 32 bits of what the clock shows.
pub fn now_ts() -> (ts: Option<u32>)
    ensures
        exists|reading: Option<u64>| #[trigger]
            clock_may_show(reading) && (ts is Some <==> reading is Some) && (ts matches Some(t)
                ==> t == reading->0 % 0x1_0000_0000),
{
    let reading: Option<u64> = unix_seconds();
    proof {
        the_clock_shows_what_is_read(reading);
    }
    reading_ts(reading)
}

/// The timestamp for a reading of the clock in seconds since the Unix epoch, `None` for
/// a clock set before it.
pub fn reading_ts(reading: Option<u64>) -> (ts: Option<u32>)
    ensures
        ts is Some <==> reading is Some,
        ts matches Some(t) ==> t == reading->0 % 0x1_0000_0000,
{
    match reading {
        Some(seconds) => Some(timestamp(seconds)),
        None => None,
    }
}

/// Whether something last active at `last` has been inactive for too long.
pub open spec fn expired(now: u32, last: u32, inactivity_timeout_sec: u32) -> bool {
    now - last > inactivity_timeout_sec
}

/// Whether something last active at `last` has been inactive for too long.
pub fn is_expired(now: u32, last: u32, inactivity_timeout_sec: u32) -> (yes: bool)
    requires
        last <= now,
    ensures
        yes <==> now - last > inactivity_timeout_sec,
        yes == expired(now, last, inactivity_timeout_sec),
{
    now - last > inactivity_timeout_sec
}

/// How many seconds to wait between two looks for what has expired.
pub fn check_interval_secs(inactivity_timeout_sec: u32) -> (seconds: u64)
    ensures
        seconds == inactivity_timeout_sec / 2,
{
    (inactivity_timeout_sec / 2) as u64
}

/// Something has been inactive for too long exactly when more seconds than the timeout
/// have passed since it was last active.
pub proof fn only_the_timeout_expires(now: u32, last: u32, inactivity_timeout_sec: u32)
    ensures
        expired(now, last, inactivity_timeout_sec) <==> now > last + inactivity_timeout_sec,
{
}

/// The clock may be found to show just what reading it may return.
proof fn the_clock_shows_what_is_read(reading: Option<u64>)
    ensures
        clock_may_show(reading) <==> call_ensures(unix_seconds, (), reading),
{
}

} // verus!

//! The system clock, read as the time since the Unix epoch.

use std::time::SystemTime;
use vstd::prelude::*;

verus! {

/// Nanoseconds in a second.
pub const NANOS_PER_SECOND: u32 = 1_000_000_000;

/// A time since the epoch.
#[derive(Debug, Clone, Copy, PartialEq, Eq, Structural)]
pub struct SinceEpoch {
    /// Whole seconds.
    pub seconds: u64,
    /// What is left of the last second, in nanoseconds.
    pub nanos: u32,
}

/// `std::time::SystemTime`, carried from the clock to the epoch and not
/// looked into.
#[verifier::external_type_specification]
#[verifier::external_body]
pub struct ExSystemTime(std::time::SystemTime);

/// `std::time::SystemTime::now`. Nothing is claimed of what it reads.
pub assume_specification[ std::time::SystemTime::now ]() -> (now: std::time::SystemTime)
;

/// `std::time::SystemTime::duration_since`, from the Unix epoch on, the
/// duration taken apart into its whole seconds and its fractional part; `None`
/// where it fails because the time lies before the epoch.
///
/// The fractional part of a duration is less than one second. Nothing else is
/// claimed: a `SystemTime` is not looked into, so which time gives which
/// duration is left unsaid.
#[verifier::external_body]
fn duration_since_epoch(time: SystemTime) -> (since: Option<SinceEpoch>)
    ensures
        since is Some ==> since->0.nanos < NANOS_PER_SECOND,
{
    match time.duration_since(std::time::UNIX_EPOCH) {
        Ok(since) => Some(SinceEpoch { seconds: since.as_secs(), nanos: since.subsec_nanos() }),
        Err(_) => None,
    }
}

/// The time since the epoch, unless the clock predates it.
#[must_use]
pub fn since_epoch() -> (since: Option<SinceEpoch>)
    ensures
        since is Some ==> since->0.nanos < NANOS_PER_SECOND,
{
    duration_since_epoch(SystemTime::now())
}

/// Whole seconds since the epoch, or zero before it.
#[must_use]
pub fn seconds_of(since: Option<SinceEpoch>) -> (seconds: u64)
    ensures
        seconds == match since {
            Some(since) => since.seconds,
            None => 0,
        },
{
    match since {
        Some(since) => since.seconds,
        None => 0,
    }
}

/// Nanoseconds since the epoch, or zero before it, held to what a `u64` can
/// count.
#[must_use]
pub fn nanos_of(since: Option<SinceEpoch>) -> (nanos: u64)
    ensures
        nanos == match since {
            Some(since) => {
                let exact = since.seconds * NANOS_PER_SECOND + since.nanos;
                if exact <= u64::MAX {
                    exact
                } else {
                    u64::MAX as int
                }
            },
            None => 0,
        },
{
    match since {
        Some(since) => {
            let exact: u128 = since.seconds as u128 * NANOS_PER_SECOND as u128
                + since.nanos as u128;
            if exact <= u64::MAX as u128 {
                exact as u64
            } else {
                u64::MAX
            }
        },
        None => 0,
    }
}

} // verus!

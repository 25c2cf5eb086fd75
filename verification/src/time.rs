//! Whole seconds since the Unix epoch, the time base used by job
//! identifiers and the request journal.

use vstd::prelude::*;

verus! {

/// Whole seconds since 1970-01-01 UTC. A host clock that reports a
/// moment before the epoch is rendered as zero.
#[derive(Clone, Copy, Debug, PartialEq, Eq, Structural, Hash)]
pub struct UnixTime {
    pub seconds: u64,
}

impl UnixTime {
    /// The instant `seconds` whole seconds after the epoch.
    pub fn from(seconds: u64) -> (t: UnixTime)
        ensures
            t.seconds == seconds,
    {
        UnixTime { seconds }
    }

    /// The current instant, read from the host clock.
    pub fn now() -> (t: UnixTime) {
        UnixTime::from(unix_time_now_secs())
    }

    pub fn as_secs(&self) -> (s: u64)
        ensures
            s == self.seconds,
    {
        self.seconds
    }
}

/// Relies on std::time::SystemTime::now: the result is the host clock
/// reading, converted to whole seconds after the epoch, or zero when
/// the clock stands before the epoch. Nothing can be promised of a
/// clock reading.
#[verifier::external_body]
fn unix_time_now_secs() -> u64 {
    std::time::SystemTime::now()
        .duration_since(std::time::SystemTime::UNIX_EPOCH)
        .map(|d| d.as_secs())
        .unwrap_or(0)
}

} // verus!

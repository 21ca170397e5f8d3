//! Instants of UTC as plain numbers, and the clock.

use vstd::prelude::*;

verus! {

/// An instant of UTC: the whole seconds since 1970-01-01 00:00:00 UTC, and the
/// nanoseconds since that second began.
#[derive(Clone, Copy, Debug, PartialEq, Eq)]
pub struct UtcInstant {
    pub secs: i64,
    pub nanos: u32,
}

impl UtcInstant {
    /// `self` is strictly later than `other`.
    pub open spec fn after(self, other: UtcInstant) -> bool {
        self.secs > other.secs || (self.secs == other.secs && self.nanos > other.nanos)
    }

    /// Whether `self` is strictly later than `other`.
    pub fn is_after(&self, other: &UtcInstant) -> (later: bool)
        ensures
            later == self.after(*other),
    {
        self.secs > other.secs || (self.secs == other.secs && self.nanos > other.nanos)
    }
}

/// `chrono::Utc::now`, read off as seconds and nanoseconds by `DateTime::timestamp`
/// and `DateTime::timestamp_subsec_nanos`. Nothing is claimed of the instant: it is
/// whatever the system clock says. chrono panics where the clock reads a time before
/// 1970.
#[verifier::external_body]
pub(crate) fn utc_now() -> UtcInstant {
    let now = chrono::Utc::now();
    UtcInstant { secs: now.timestamp(), nanos: now.timestamp_subsec_nanos() }
}

} // verus!

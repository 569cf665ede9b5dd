//! Instants on the UTC time line, and the comparison against a trailing window.

use vstd::prelude::*;

verus! {

/// Seconds in one hour of the window.
pub const SECONDS_PER_HOUR: u64 = 3600;

/// An instant on the UTC time line: the whole seconds since the Unix epoch
/// and the nanoseconds into that second. Instants are ordered by `seconds`,
/// then by `nanos`.
#[derive(Clone, Copy, Debug, PartialEq, Eq, Structural)]
pub struct Timestamp {
    pub seconds: i64,
    pub nanos: u32,
}

impl Timestamp {
    /// `self` is strictly later than `other`.
    pub open spec fn later_than(self, other: Timestamp) -> bool {
        self.seconds > other.seconds || (self.seconds == other.seconds && self.nanos > other.nanos)
    }

    /// `self` is not later than `other`.
    pub open spec fn at_most(self, other: Timestamp) -> bool {
        !self.later_than(other)
    }

    /// `self` is strictly later than the instant `hours` hours before `now`.
    /// There is no upper bound: an instant after `now` is within every window.
    pub open spec fn within_window(self, now: Timestamp, hours: nat) -> bool {
        let shifted = self.seconds + hours * SECONDS_PER_HOUR;
        shifted > now.seconds || (shifted == now.seconds && self.nanos > now.nanos)
    }

    /// Builds the instant `seconds` seconds and `nanos` nanoseconds after the epoch.
    pub fn new(seconds: i64, nanos: u32) -> (t: Timestamp)
        ensures
            t.seconds == seconds,
            t.nanos == nanos,
    {
        Timestamp { seconds, nanos }
    }

    /// Decides `later_than`.
    pub fn is_later_than(&self, other: &Timestamp) -> (r: bool)
        ensures
            r == self.later_than(*other),
    {
        self.seconds > other.seconds || (self.seconds == other.seconds && self.nanos > other.nanos)
    }

    /// Decides `within_window`, for every hour count and every pair of instants.
    pub fn is_within_window(&self, now: &Timestamp, hours: usize) -> (r: bool)
        ensures
            r == self.within_window(*now, hours as nat),
    {
        assert(hours * SECONDS_PER_HOUR <= u64::MAX * 3600) by (nonlinear_arith)
            requires
                hours <= u64::MAX,
                SECONDS_PER_HOUR == 3600,
        ;
        let span: i128 = (hours as i128) * (SECONDS_PER_HOUR as i128);
        let shifted: i128 = (self.seconds as i128) + span;
        let limit: i128 = now.seconds as i128;
        shifted > limit || (shifted == limit && self.nanos > now.nanos)
    }
}

/// The order of instants is total: of two instants, one is not later than the other.
pub proof fn lemma_instants_totally_ordered(a: Timestamp, b: Timestamp)
    ensures
        a.at_most(b) || b.at_most(a),
        a.at_most(b) && b.at_most(a) ==> a == b,
{
}

/// A wider window keeps everything that a narrower one keeps.
pub proof fn lemma_window_monotone(t: Timestamp, now: Timestamp, narrow: nat, wide: nat)
    requires
        narrow <= wide,
        t.within_window(now, narrow),
    ensures
        t.within_window(now, wide),
{
    assert(narrow * SECONDS_PER_HOUR <= wide * SECONDS_PER_HOUR) by (nonlinear_arith)
        requires
            narrow <= wide,
    ;
}

/// Reads the clock through `chrono::Utc::now`, and takes the instant apart
/// with `DateTime::timestamp` and `DateTime::timestamp_subsec_nanos`. Nothing
/// is claimed of the instant returned: it is whatever the machine's clock says.
#[verifier::external_body]
pub(crate) fn current_time() -> (now: Timestamp) {
    let now = chrono::Utc::now();
    Timestamp { seconds: now.timestamp(), nanos: now.timestamp_subsec_nanos() }
}

} // verus!

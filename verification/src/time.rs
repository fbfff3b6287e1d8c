//! Points in time, as seconds since the Unix epoch and the nanoseconds past that second.

use vstd::prelude::*;

verus! {

/// A UTC instant: whole seconds since 1970-01-01T00:00:00Z and the nanoseconds
/// within that second (at or above one billion only inside a leap second).
#[derive(Clone, Copy, Debug, PartialEq, Eq, Structural)]
pub struct Timestamp {
    pub secs: i64,
    pub nanos: u32,
}

impl Timestamp {
    /// `self` is strictly earlier than `other`.
    pub open spec fn earlier_than(self, other: Timestamp) -> bool {
        self.secs < other.secs || (self.secs == other.secs && self.nanos < other.nanos)
    }

    /// Signed nanoseconds from `self` to `later`.
    pub open spec fn nanos_until(self, later: Timestamp) -> int {
        (later.secs - self.secs) * 1_000_000_000 + (later.nanos - self.nanos)
    }

    /// Whether `self` is strictly earlier than `other`.
    pub fn is_before(&self, other: &Timestamp) -> (r: bool)
        ensures
            r == self.earlier_than(*other),
    {
        self.secs < other.secs || (self.secs == other.secs && self.nanos < other.nanos)
    }

    /// Signed nanoseconds from `self` to `later`.
    pub fn nanos_to(&self, later: &Timestamp) -> (d: i128)
        ensures
            d == self.nanos_until(*later),
    {
        let secs: i128 = later.secs as i128 - self.secs as i128;
        let nanos: i128 = later.nanos as i128 - self.nanos as i128;
        assert(-0x1_0000_0000_0000_0000 <= secs <= 0x1_0000_0000_0000_0000);
        assert(secs * 1_000_000_000 <= 0x1_0000_0000_0000_0000 * 1_000_000_000) by (nonlinear_arith)
            requires secs <= 0x1_0000_0000_0000_0000;
        assert(secs * 1_000_000_000 >= -0x1_0000_0000_0000_0000 * 1_000_000_000) by (nonlinear_arith)
            requires secs >= -0x1_0000_0000_0000_0000;
        secs * 1_000_000_000 + nanos
    }
}

/// Calls `chrono::Utc::now` and converts the instant to seconds and nanoseconds
/// (`DateTime::timestamp`, `DateTime::timestamp_subsec_nanos`). Nothing is stated
/// of the result: it is the current time.
#[verifier::external_body]
pub(crate) fn now() -> (t: Timestamp) {
    let t = chrono::Utc::now();
    Timestamp { secs: t.timestamp(), nanos: t.timestamp_subsec_nanos() }
}

} // verus!

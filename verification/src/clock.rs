//! The wall clock.

use vstd::prelude::*;

verus! {

/// An instant: whole seconds and microseconds since the Unix epoch, read
/// from one reading of the clock.
#[derive(Clone, Copy, Debug, PartialEq, Eq)]
pub struct Instant {
    pub secs: i64,
    pub micros: i64,
}

impl Instant {
    /// The seconds and microseconds agree as `chrono` defines them:
    /// `micros` is `secs` in microseconds plus the sub-second part, which is
    /// below two seconds (a leap second may carry over).
    pub open spec fn wf(self) -> bool {
        self.secs * 1_000_000 <= self.micros < self.secs * 1_000_000 + 2_000_000
    }
}

/// `chrono::Utc::now`, read as `timestamp()` and `timestamp_micros()`.
/// Claimed: the two readings agree as `Instant::wf` states, which is how
/// `timestamp_micros` is computed from `timestamp` in chrono's source. The
/// instant itself is whatever the clock says.
#[verifier::external_body]
pub(crate) fn utc_now() -> (res: Instant)
    ensures
        res.wf(),
{
    let t = chrono::Utc::now();
    Instant { secs: t.timestamp(), micros: t.timestamp_micros() }
}

} // verus!

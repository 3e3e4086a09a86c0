//! The tap session state machine.
//!
//! A session owns the instant of its first tap (`start`, in milliseconds on a
//! monotonic clock) and the offsets of every tap recorded since, in
//! milliseconds relative to `start`. An external inactivity timer may clear
//! `start` without touching the offsets, which puts the session in its
//! "just reset" state until the next tap seeds a fresh session.

use vstd::prelude::*;

verus! {

/// The states of one tapping session.
///
/// - empty: no tap has ever been recorded (`start` is `None`, no offsets);
/// - active: `start` holds the first tap of the running session and
///   `timestamps` its offsets, beginning with `0`;
/// - reset: the inactivity timer cleared `start`, but the offsets of the
///   finished session are still readable.
pub struct TapData {
    /// The instant of the first tap of the current session, in milliseconds
    /// on a monotonic clock; `None` before the first tap and after a reset.
    pub start: Option<u64>,
    /// Milliseconds elapsed between each tap and the first tap of its
    /// session; non-decreasing, and starting with `0` while a session runs.
    pub timestamps: Vec<u64>,
}

/// The session invariant: offsets never decrease, and a running session
/// records its own first tap as offset `0`.
pub open spec fn wf(t: TapData) -> bool {
    &&& forall|i: int, j: int|
        0 <= i <= j < t.timestamps@.len() ==> t.timestamps@[i] <= t.timestamps@[j]
    &&& t.start is Some ==> t.timestamps@.len() >= 1 && t.timestamps@[0] == 0
}

impl TapData {
    /// Records one tap at instant `now`.
    ///
    /// While a session runs, the new offset `now - start` is appended; the
    /// monotonic clock guarantees that `now` is not earlier than the previous
    /// tap, which the precondition states as `now - start` being at least the
    /// last offset. When no session runs, `now` seeds a fresh session and the
    /// previous session's offsets are discarded.
    pub fn record(&mut self, now: u64)
        requires
            wf(*old(self)),
            old(self).start is Some ==> now >= old(self).start->0 + old(self).timestamps@.last(),
        ensures
            wf(*final(self)),
            old(self).start is Some ==> final(self).start == old(self).start
                && final(self).timestamps@ == old(self).timestamps@.push(
                    (now - old(self).start->0) as u64,
                ),
            old(self).start is None ==> final(self).start == Some(now)
                && final(self).timestamps@ == seq![0u64],
    {
        match self.start {
            Some(start) => {
                self.timestamps.push(now - start);
            }
            None => {
                self.start = Some(now);
                let mut fresh: Vec<u64> = Vec::new();
                fresh.push(0);
                self.timestamps = fresh;
            }
        }
    }

    /// Ends the running session without discarding its offsets; the sole
    /// transition into the "just reset" state, driven by the caller's
    /// inactivity timer.
    pub fn clear_origin(&mut self)
        requires
            wf(*old(self)),
        ensures
            wf(*final(self)),
            final(self).start is None,
            final(self).timestamps@ == old(self).timestamps@,
    {
        self.start = None;
    }

    /// Returns true exactly when a session existed and timed out, and no tap
    /// has started a new one yet.
    pub fn is_reset(&self) -> (r: bool)
        ensures
            r == (self.start is None && self.timestamps@.len() > 0),
    {
        self.start.is_none() && self.timestamps.len() > 0
    }
}

impl Default for TapData {
    /// A session that has never seen a tap.
    fn default() -> (r: TapData)
        ensures
            wf(r),
            r.start is None,
            r.timestamps@ == Seq::<u64>::empty(),
    {
        TapData { start: None, timestamps: Vec::new() }
    }
}

} // verus!

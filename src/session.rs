use vstd::prelude::*;

use crate::rate::Rate;
use crate::stats::{stats_of, tap_stats, valid_log, TapStats, MAX_ELAPSED_MICROS, MAX_TAPS};

verus! {

/// Elapsed time recorded for a tap at clock reading `now`: zero for the first tap of a
/// session, else the time since the session's first tap.
pub open spec fn elapsed_at(start: Option<u64>, now: u64) -> u64 {
    match start {
        None => 0,
        Some(s) => (now - s) as u64,
    }
}

/// One tapping session: the log of tap times since its first tap, the clock reading
/// of that first tap, and the statistics last computed from the log.
///
/// Clock readings are in microseconds from any fixed origin of a monotonic clock.
pub struct TapSession {
    taps: Vec<u64>,
    start: Option<u64>,
    bpm: Option<Rate>,
    ci_low: Option<Rate>,
    ci_high: Option<Rate>,
}

impl TapSession {
    /// Elapsed times of the taps since the first one, in microseconds.
    pub closed spec fn log(&self) -> Seq<u64> {
        self.taps@
    }

    /// Clock reading of the first tap; unset before it.
    pub closed spec fn start_ref(&self) -> Option<u64> {
        self.start
    }

    pub closed spec fn well_formed(&self) -> bool {
        &&& valid_log(self.taps@)
        &&& (self.start is None <==> self.taps@.len() == 0)
        &&& (self.taps@.len() > 0 ==> self.taps@[0] == 0)
        &&& (TapStats { bpm: self.bpm, ci_low: self.ci_low, ci_high: self.ci_high }) == stats_of(
            self.taps@,
        )
    }

    /// Whether a tap at clock reading `now` can be recorded: the log has room, and `now`
    /// is no earlier than the last tap and within `MAX_ELAPSED_MICROS` of the first.
    pub open spec fn accepts(&self, now: u64) -> bool {
        &&& self.log().len() < MAX_TAPS
        &&& match self.start_ref() {
            None => true,
            Some(s) => s <= now && now - s <= MAX_ELAPSED_MICROS && self.log().last() <= now - s,
        }
    }

    /// An empty session: no taps, no start, no statistics.
    pub fn new() -> (r: TapSession)
        ensures
            r.well_formed(),
            r.log() == Seq::<u64>::empty(),
            r.start_ref() is None,
    {
        TapSession { taps: Vec::new(), start: None, bpm: None, ci_low: None, ci_high: None }
    }

    /// Discards every tap and statistic: the session is as new.
    pub fn reset(&mut self)
        ensures
            final(self).well_formed(),
            final(self).log() == Seq::<u64>::empty(),
            final(self).start_ref() is None,
    {
        *self = TapSession::new();
    }

    /// The statistics of the taps so far. Reading changes nothing, so two reads with no
    /// tap or reset between them agree.
    pub fn stats(&self) -> (r: TapStats)
        requires
            self.well_formed(),
        ensures
            r == stats_of(self.log()),
    {
        TapStats { bpm: self.bpm, ci_low: self.ci_low, ci_high: self.ci_high }
    }

    /// Tests `accepts`.
    pub fn can_register(&self, now: u64) -> (r: bool)
        requires
            self.well_formed(),
        ensures
            r == self.accepts(now),
    {
        if self.taps.len() >= MAX_TAPS {
            return false;
        }
        match self.start {
            None => true,
            Some(s) => s <= now && now - s <= MAX_ELAPSED_MICROS && self.taps[self.taps.len()
                - 1] <= now - s,
        }
    }

    /// Records a tap at clock reading `now` and returns the statistics of the log after it.
    /// The first tap of a session sets its start and is recorded at elapsed time zero.
    pub fn register_tap(&mut self, now: u64) -> (r: TapStats)
        requires
            old(self).well_formed(),
            old(self).accepts(now),
        ensures
            final(self).well_formed(),
            final(self).log() == old(self).log().push(elapsed_at(old(self).start_ref(), now)),
            final(self).start_ref() == Some(
                match old(self).start_ref() {
                    None => now,
                    Some(s) => s,
                },
            ),
            r == stats_of(final(self).log()),
    {
        let t: u64 = match self.start {
            Some(s) => now - s,
            None => {
                self.start = Some(now);
                0
            },
        };
        self.taps.push(t);
        if self.taps.len() >= 2 {
            self.compute_stats();
        } else {
            assert(stats_of(self.taps@) == TapStats { bpm: None, ci_low: None, ci_high: None });
        }
        TapStats { bpm: self.bpm, ci_low: self.ci_low, ci_high: self.ci_high }
    }

    /// Recomputes the cached statistics from the log.
    fn compute_stats(&mut self)
        requires
            valid_log(old(self).taps@),
        ensures
            final(self).taps == old(self).taps,
            final(self).start == old(self).start,
            (TapStats { bpm: final(self).bpm, ci_low: final(self).ci_low, ci_high: final(self).ci_high })
                == stats_of(final(self).taps@),
    {
        let r = tap_stats(&self.taps);
        self.bpm = r.bpm;
        self.ci_low = r.ci_low;
        self.ci_high = r.ci_high;
    }
}

impl Default for TapSession {
    fn default() -> (r: TapSession)
        ensures
            r.well_formed(),
            r.log() == Seq::<u64>::empty(),
            r.start_ref() is None,
    {
        TapSession::new()
    }
}

} // verus!

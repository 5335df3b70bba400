use vstd::prelude::*;

use crate::rate::{no_faster, Rate};
use crate::session::{elapsed_at, TapSession};
use crate::stats::{
    interval_seq, lemma_stats_bounds, lemma_total_telescopes, margin, no_stats, spread, stats_of,
    total, valid_log, MAX_ELAPSED_MICROS,
};

verus! {

/// The tempo of a log is its number of intervals over the span from its first tap to
/// its last: `60 * n / (t_n - t_0)` beats per minute.
pub proof fn lemma_bpm_is_span_rate(taps: Seq<u64>)
    requires
        valid_log(taps),
        taps.len() >= 2,
    ensures
        stats_of(taps).bpm == Some(
            Rate { beats: (taps.len() - 1) as u64, micros: (taps.last() - taps[0]) as i64 },
        ),
{
    let iv = interval_seq(taps);
    lemma_total_telescopes(taps, iv.len() as int);
    assert(iv.take(iv.len() as int) =~= iv);
}

/// A session just reset and a new one look the same: no statistics, and the next tap
/// of either is recorded at elapsed time zero, after which neither has statistics yet.
pub proof fn lemma_reset_is_fresh(reset: TapSession, fresh: TapSession, now: u64)
    requires
        reset.log() == Seq::<u64>::empty(),
        reset.start_ref() is None,
        fresh.log() == Seq::<u64>::empty(),
        fresh.start_ref() is None,
    ensures
        stats_of(reset.log()) == no_stats(),
        stats_of(reset.log()) == stats_of(fresh.log()),
        elapsed_at(reset.start_ref(), now) == 0,
        reset.log().push(elapsed_at(reset.start_ref(), now)) == fresh.log().push(
            elapsed_at(fresh.start_ref(), now),
        ),
        stats_of(reset.log().push(elapsed_at(reset.start_ref(), now))) == no_stats(),
{
}

/// One tap gives no statistics; two give a tempo but no band; three or more give the
/// tempo and both bounds of its band.
pub proof fn lemma_stats_by_count(taps: Seq<u64>)
    ensures
        taps.len() <= 1 ==> stats_of(taps) == no_stats(),
        taps.len() == 2 ==> stats_of(taps).bpm is Some && stats_of(taps).ci_low is None
            && stats_of(taps).ci_high is None,
        taps.len() >= 3 ==> stats_of(taps).bpm is Some && stats_of(taps).ci_low is Some
            && stats_of(taps).ci_high is Some,
{
}

/// Where the intervals vary and the shorter bound on the mean interval is positive,
/// the lower bound of the band is no faster than the tempo, and the tempo no faster
/// than the upper bound.
pub proof fn lemma_band_brackets_bpm(taps: Seq<u64>)
    requires
        valid_log(taps),
        taps.len() >= 3,
        spread(interval_seq(taps)) > 0,
        total(interval_seq(taps)) - margin(interval_seq(taps)) > 0,
    ensures
        stats_of(taps).bpm.unwrap().micros > 0,
        stats_of(taps).ci_low.unwrap().micros > 0,
        stats_of(taps).ci_high.unwrap().micros > 0,
        no_faster(stats_of(taps).ci_low.unwrap(), stats_of(taps).bpm.unwrap()),
        no_faster(stats_of(taps).bpm.unwrap(), stats_of(taps).ci_high.unwrap()),
{
    let iv = interval_seq(taps);
    lemma_stats_bounds(taps);
    let (n, s, m) = (iv.len() as int, total(iv), margin(iv));
    assert(s <= MAX_ELAPSED_MICROS);
    assert(n * s <= n * (s + m)) by (nonlinear_arith)
        requires
            n >= 0,
            m >= 0,
    ;
    assert(n * (s - m) <= n * s) by (nonlinear_arith)
        requires
            n >= 0,
            m >= 0,
    ;
}

} // verus!

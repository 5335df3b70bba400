use vstd::prelude::*;

use crate::rate::Rate;

verus! {

/// Most taps that one tap log can hold.
pub const MAX_TAPS: usize = 1_048_576;

/// Latest elapsed time, in microseconds, that a tap log can hold (2^44, about 203 days).
pub const MAX_ELAPSED_MICROS: u64 = 17_592_186_044_416;

/// 1.96, the two-sided 95% normal quantile, squared: 3.8416 = 2401 / 625.
pub const Z_SQUARED_NUM: u128 = 2401;

/// Denominator of `Z_SQUARED_NUM`.
pub const Z_SQUARED_DEN: u128 = 625;

/// The statistics of a tap log: the tempo and the bounds of its 95% confidence
/// band, each unset until enough taps exist.
#[derive(Clone, Copy, Debug, PartialEq, Eq, Structural)]
pub struct TapStats {
    pub bpm: Option<Rate>,
    pub ci_low: Option<Rate>,
    pub ci_high: Option<Rate>,
}

/// The statistics of a log with too few taps: all unset.
pub open spec fn no_stats() -> TapStats {
    TapStats { bpm: None, ci_low: None, ci_high: None }
}

/// A tap log: elapsed times in microseconds, in the order they were recorded,
/// never decreasing, each within `MAX_ELAPSED_MICROS`.
pub open spec fn valid_log(taps: Seq<u64>) -> bool {
    &&& taps.len() <= MAX_TAPS
    &&& forall|i: int| 0 <= i < taps.len() - 1 ==> #[trigger] taps[i] <= taps[i + 1]
    &&& forall|i: int| 0 <= i < taps.len() ==> #[trigger] taps[i] <= MAX_ELAPSED_MICROS
}

/// The gaps between consecutive taps.
pub open spec fn interval_seq(taps: Seq<u64>) -> Seq<int> {
    if taps.len() == 0 {
        Seq::empty()
    } else {
        Seq::new((taps.len() - 1) as nat, |i: int| taps[i + 1] - taps[i])
    }
}

pub open spec fn total(xs: Seq<int>) -> int
    decreases xs.len(),
{
    if xs.len() == 0 {
        0
    } else {
        total(xs.drop_last()) + xs.last()
    }
}

pub open spec fn total_sq(xs: Seq<int>) -> int
    decreases xs.len(),
{
    if xs.len() == 0 {
        0
    } else {
        total_sq(xs.drop_last()) + xs.last() * xs.last()
    }
}

/// `n * sum(x^2) - sum(x)^2`: `n^2` times the mean squared deviation from the mean.
/// The sample variance is `spread / (n * (n - 1))`.
pub open spec fn spread(xs: Seq<int>) -> int {
    xs.len() * total_sq(xs) - total(xs) * total(xs)
}

/// The integer square root, rounded down.
pub open spec fn isqrt(x: nat) -> nat
    decreases x,
{
    if x == 0 {
        0
    } else {
        let r = isqrt((x - 1) as nat);
        if (r + 1) * (r + 1) <= x {
            r + 1
        } else {
            r
        }
    }
}

/// Half the width of the 95% band on the summed intervals, in microseconds, rounded
/// down: `1.96 * sqrt(spread / (n - 1))`, which is `n * 1.96 * se` with
/// `se = std / sqrt(n)`.
pub open spec fn margin(xs: Seq<int>) -> int {
    isqrt(
        ((Z_SQUARED_NUM as int * spread(xs)) / (Z_SQUARED_DEN as int * (xs.len() - 1))) as nat,
    ) as int
}

/// The statistics of a tap log. With `n` intervals summing to `S` microseconds, the
/// tempo is `n` beats over `S`, that is `60 / mean`. From two intervals on, the band on
/// the mean interval is `(S -+ margin) / n`; inverted, the longer bound gives the lower
/// tempo: `n` beats over `S + margin`, and the shorter the upper one.
pub open spec fn stats_of(taps: Seq<u64>) -> TapStats {
    let iv = interval_seq(taps);
    let beats = iv.len() as u64;
    if iv.len() == 0 {
        no_stats()
    } else if iv.len() == 1 {
        TapStats { bpm: Some(Rate { beats, micros: total(iv) as i64 }), ci_low: None, ci_high: None }
    } else {
        TapStats {
            bpm: Some(Rate { beats, micros: total(iv) as i64 }),
            ci_low: Some(Rate { beats, micros: (total(iv) + margin(iv)) as i64 }),
            ci_high: Some(Rate { beats, micros: (total(iv) - margin(iv)) as i64 }),
        }
    }
}

pub proof fn lemma_isqrt_bounds(x: nat)
    ensures
        isqrt(x) * isqrt(x) <= x,
        x < (isqrt(x) + 1) * (isqrt(x) + 1),
    decreases x,
{
    if x > 0 {
        lemma_isqrt_bounds((x - 1) as nat);
        let r = isqrt((x - 1) as nat);
        let s = isqrt(x);
        if (r + 1) * (r + 1) <= x {
            assert(s == r + 1);
            assert(x < (s + 1) * (s + 1)) by (nonlinear_arith)
                requires
                    s == r + 1,
                    x - 1 < (r + 1) * (r + 1),
            ;
        } else {
            assert(s == r);
            assert(x < (s + 1) * (s + 1));
        }
    } else {
        let s = isqrt(x);
        assert(s == 0);
        assert((s + 1) * (s + 1) == 1) by (nonlinear_arith)
            requires
                s == 0,
        ;
    }
}

/// The integer square root is the one `r` with `r^2 <= x < (r + 1)^2`.
pub proof fn lemma_isqrt_unique(x: nat, r: nat)
    requires
        r * r <= x,
        x < (r + 1) * (r + 1),
    ensures
        isqrt(x) == r,
{
    lemma_isqrt_bounds(x);
    let s = isqrt(x);
    if s < r {
        assert((s + 1) * (s + 1) <= r * r) by (nonlinear_arith)
            requires
                s + 1 <= r,
        ;
    }
    if r < s {
        assert((r + 1) * (r + 1) <= s * s) by (nonlinear_arith)
            requires
                r + 1 <= s,
        ;
    }
}

/// The floor of the square root of `x`.
pub fn isqrt_floor(x: u128) -> (r: u64)
    ensures
        r as nat == isqrt(x as nat),
{
    let mut lo: u128 = 0;
    let mut hi: u128 = 0x1_0000_0000_0000_0000;
    assert(x < hi * hi);
    while hi - lo > 1
        invariant
            lo < hi <= 0x1_0000_0000_0000_0000,
            lo * lo <= x,
            x < hi * hi,
        decreases hi - lo,
    {
        let mid: u128 = lo + (hi - lo) / 2;
        assert(mid * mid < 0x1_0000_0000_0000_0000_0000_0000_0000_0000) by (nonlinear_arith)
            requires
                mid < 0x1_0000_0000_0000_0000,
        ;
        if mid * mid <= x {
            lo = mid;
        } else {
            hi = mid;
        }
    }
    proof {
        lemma_isqrt_unique(x as nat, lo as nat);
    }
    lo as u64
}

/// The intervals of a log sum to the span from its first tap to its `k`-th.
pub proof fn lemma_total_telescopes(taps: Seq<u64>, k: int)
    requires
        1 <= taps.len(),
        0 <= k < taps.len(),
    ensures
        total(interval_seq(taps).take(k)) == taps[k] - taps[0],
    decreases k,
{
    let iv = interval_seq(taps);
    if k > 0 {
        lemma_total_telescopes(taps, k - 1);
        assert(iv.take(k).drop_last() =~= iv.take(k - 1));
    } else {
        assert(iv.take(0) =~= Seq::<int>::empty());
    }
}

proof fn lemma_deviation_nonneg(xs: Seq<int>, y: int)
    ensures
        total_sq(xs) - 2 * y * total(xs) + xs.len() * y * y >= 0,
    decreases xs.len(),
{
    if xs.len() > 0 {
        let p = xs.drop_last();
        let x = xs.last();
        lemma_deviation_nonneg(p, y);
        let (q0, s0, n0) = (total_sq(p), total(p), p.len() as int);
        assert(total_sq(xs) - 2 * y * total(xs) + xs.len() * y * y >= 0) by (nonlinear_arith)
            requires
                q0 - 2 * y * s0 + n0 * y * y >= 0,
                total_sq(xs) == q0 + x * x,
                total(xs) == s0 + x,
                xs.len() == n0 + 1,
        ;
    }
}

/// `n * sum(x^2) >= sum(x)^2` (Cauchy-Schwarz): the spread is never negative.
pub proof fn lemma_spread_nonneg(xs: Seq<int>)
    ensures
        spread(xs) >= 0,
    decreases xs.len(),
{
    if xs.len() > 0 {
        let p = xs.drop_last();
        let y = xs.last();
        lemma_spread_nonneg(p);
        lemma_deviation_nonneg(p, y);
        let (q0, s0, n0) = (total_sq(p), total(p), p.len() as int);
        assert(xs.len() * total_sq(xs) - total(xs) * total(xs) >= 0) by (nonlinear_arith)
            requires
                n0 * q0 - s0 * s0 >= 0,
                q0 - 2 * y * s0 + n0 * y * y >= 0,
                total_sq(xs) == q0 + y * y,
                total(xs) == s0 + y,
                xs.len() == n0 + 1,
        ;
    }
}

proof fn lemma_total_sq_le(xs: Seq<int>)
    requires
        forall|i: int| 0 <= i < xs.len() ==> #[trigger] xs[i] >= 0,
    ensures
        0 <= total(xs),
        0 <= total_sq(xs) <= total(xs) * total(xs),
    decreases xs.len(),
{
    if xs.len() > 0 {
        let p = xs.drop_last();
        let x = xs.last();
        assert(x == xs[xs.len() - 1]);
        lemma_total_sq_le(p);
        let (q0, s0) = (total_sq(p), total(p));
        assert(0 <= q0 + x * x <= (s0 + x) * (s0 + x)) by (nonlinear_arith)
            requires
                0 <= q0 <= s0 * s0,
                0 <= s0,
                0 <= x,
        ;
    }
}

/// For a valid log with at least two intervals, the intervals span at most
/// `MAX_ELAPSED_MICROS`, their spread is not negative, and the margin is under 2^60.
pub proof fn lemma_stats_bounds(taps: Seq<u64>)
    requires
        valid_log(taps),
        taps.len() >= 3,
    ensures
        0 <= total(interval_seq(taps)) <= MAX_ELAPSED_MICROS,
        total(interval_seq(taps)) == taps.last() - taps[0],
        spread(interval_seq(taps)) >= 0,
        0 <= margin(interval_seq(taps)) < 0x1000_0000_0000_0000,
{
    let iv = interval_seq(taps);
    let n = iv.len() as int;
    lemma_total_telescopes(taps, n);
    assert(iv.take(n as int) =~= iv);
    assert forall|i: int| 0 <= i < iv.len() implies #[trigger] iv[i] >= 0 by {
        assert(taps[i] <= taps[i + 1]);
    }
    lemma_total_sq_le(iv);
    lemma_spread_nonneg(iv);
    let (s, q) = (total(iv), total_sq(iv));
    assert(taps[n as int] <= MAX_ELAPSED_MICROS);
    assert(n * q <= 0x1000_0000_0000_0000_0000_0000_0000) by (nonlinear_arith)
        requires
            q <= s * s,
            0 <= s <= MAX_ELAPSED_MICROS,
            0 <= n <= MAX_TAPS,
    ;
    let d = spread(iv);
    assert(d <= n * q) by (nonlinear_arith)
        requires
            d == n * q - s * s,
    ;
    let z = (Z_SQUARED_NUM as int * d) / (Z_SQUARED_DEN as int * (n - 1));
    assert(z <= 2401 * d) by (nonlinear_arith)
        requires
            z == (2401 * d) / (625 * (n - 1)),
            n >= 2,
            d >= 0,
    ;
    let m = isqrt(z as nat);
    lemma_isqrt_bounds(z as nat);
    assert(m < 0x1000_0000_0000_0000) by (nonlinear_arith)
        requires
            m * m <= z,
            z < 0x100_0000_0000_0000_0000_0000_0000_0000,
    ;
}

/// The statistics of a tap log: its intervals, their mean and spread, the tempo, and
/// from two intervals on the bounds of the 95% band.
pub fn tap_stats(taps: &Vec<u64>) -> (r: TapStats)
    requires
        valid_log(taps@),
    ensures
        r == stats_of(taps@),
{
    let len = taps.len();
    if len < 2 {
        return TapStats { bpm: None, ci_low: None, ci_high: None };
    }
    let n: usize = len - 1;
    let ghost iv = interval_seq(taps@);
    let mut s: u64 = 0;
    let mut q: u128 = 0;
    let mut i: usize = 0;
    while i < n
        invariant
            valid_log(taps@),
            n == taps@.len() - 1,
            iv == interval_seq(taps@),
            0 <= i <= n,
            s == taps@[i as int] - taps@[0],
            s == total(iv.take(i as int)),
            q == total_sq(iv.take(i as int)),
            q <= s * s,
        decreases n - i,
    {
        let x: u64 = taps[i + 1] - taps[i];
        assert(iv.take(i + 1).drop_last() =~= iv.take(i as int));
        assert(iv.take(i + 1).last() == x);
        assert(taps@[i + 1] <= MAX_ELAPSED_MICROS);
        assert(q + x * x <= (s + x) * (s + x)) by (nonlinear_arith)
            requires
                q <= s * s,
                0 <= s,
                0 <= x,
        ;
        assert((s + x) * (s + x) <= 0x100_0000_0000_0000_0000_0000) by (nonlinear_arith)
            requires
                s + x <= MAX_ELAPSED_MICROS,
                0 <= s + x,
        ;
        s = s + x;
        q = q + (x as u128) * (x as u128);
        i = i + 1;
    }
    assert(iv.take(n as int) =~= iv);
    let beats = n as u64;
    let bpm = Some(Rate { beats, micros: s as i64 });
    if n < 2 {
        return TapStats { bpm, ci_low: None, ci_high: None };
    }
    proof {
        lemma_spread_nonneg(iv);
        assert(s <= MAX_ELAPSED_MICROS);
        assert(n * q <= 0x1000_0000_0000_0000_0000_0000_0000) by (nonlinear_arith)
            requires
                q <= s * s,
                s <= MAX_ELAPSED_MICROS,
                n <= MAX_TAPS,
        ;
    }
    let nq: u128 = (n as u128) * q;
    let ss: u128 = (s as u128) * (s as u128);
    let d: u128 = nq - ss;
    let z: u128 = (Z_SQUARED_NUM * d) / (Z_SQUARED_DEN * ((n - 1) as u128));
    let m: u64 = isqrt_floor(z);
    proof {
        assert(z <= Z_SQUARED_NUM * d);
        assert(d <= 0x1000_0000_0000_0000_0000_0000_0000);
        assert(2401 * d < 0x100_0000_0000_0000_0000_0000_0000_0000);
        assert(z < 0x100_0000_0000_0000_0000_0000_0000_0000);
        lemma_isqrt_bounds(z as nat);
        assert(m < 0x1000_0000_0000_0000) by (nonlinear_arith)
            requires
                m * m <= z,
                z < 0x100_0000_0000_0000_0000_0000_0000_0000,
        ;
    }
    let lo_span: i64 = (s as i64) + (m as i64);
    let hi_span: i64 = (s as i64) - (m as i64);
    TapStats {
        bpm,
        ci_low: Some(Rate { beats, micros: lo_span }),
        ci_high: Some(Rate { beats, micros: hi_span }),
    }
}

} // verus!

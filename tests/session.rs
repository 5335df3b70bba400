use tap_bpm::rate::Rate;
use tap_bpm::session::TapSession;
use tap_bpm::stats::{isqrt_floor, tap_stats, TapStats, MAX_ELAPSED_MICROS};

fn bpm_of(r: Rate) -> f64 {
    r.beats as f64 * 60_000_000.0 / r.micros as f64
}

fn tapped(times: &[u64]) -> (TapSession, TapStats) {
    let mut s = TapSession::new();
    let mut last = s.stats();
    for &t in times {
        assert!(s.can_register(t));
        last = s.register_tap(t);
    }
    (s, last)
}

fn unset() -> TapStats {
    TapStats { bpm: None, ci_low: None, ci_high: None }
}

#[test]
fn even_spacing_gives_flat_band() {
    let base: u64 = 7_000_000;
    let (_, st) = tapped(&[base, base + 500_000, base + 1_000_000, base + 1_500_000]);
    let bpm = st.bpm.unwrap();
    assert_eq!(bpm, Rate { beats: 3, micros: 1_500_000 });
    assert_eq!(bpm_of(bpm), 120.0);
    assert_eq!(st.ci_low, Some(bpm));
    assert_eq!(st.ci_high, Some(bpm));
}

#[test]
fn uneven_spacing_band() {
    let (_, st) = tapped(&[0, 1_000_000, 1_800_000]);
    let bpm = st.bpm.unwrap();
    assert_eq!(bpm, Rate { beats: 2, micros: 1_800_000 });
    assert!((bpm_of(bpm) - 66.67).abs() < 0.01);
    let lo = st.ci_low.unwrap();
    let hi = st.ci_high.unwrap();
    assert_eq!(lo, Rate { beats: 2, micros: 2_192_000 });
    assert_eq!(hi, Rate { beats: 2, micros: 1_408_000 });
    assert!((bpm_of(lo) - 54.74).abs() < 0.01);
    assert!((bpm_of(hi) - 85.23).abs() < 0.01);
}

#[test]
fn bpm_is_beats_over_span() {
    let (_, st) = tapped(&[100, 400_100, 1_300_100, 1_500_100, 2_600_100]);
    assert_eq!(st.bpm, Some(Rate { beats: 4, micros: 2_600_000 }));
    assert!((bpm_of(st.bpm.unwrap()) - 60.0 * 4.0 / 2.6).abs() < 1e-9);
}

#[test]
fn counts_decide_what_is_set() {
    let (s, st) = tapped(&[5]);
    assert_eq!(st, unset());
    assert_eq!(s.stats(), unset());
    let (_, st) = tapped(&[5, 600_005]);
    assert_eq!(st.bpm, Some(Rate { beats: 1, micros: 600_000 }));
    assert_eq!(st.ci_low, None);
    assert_eq!(st.ci_high, None);
    let (_, st) = tapped(&[5, 600_005, 1_100_005]);
    assert!(st.bpm.is_some() && st.ci_low.is_some() && st.ci_high.is_some());
}

#[test]
fn empty_session_has_no_stats() {
    assert_eq!(TapSession::new().stats(), unset());
    assert_eq!(TapSession::default().stats(), unset());
}

#[test]
fn reset_restores_a_fresh_session() {
    let (mut s, _) = tapped(&[1_000, 501_000, 1_101_000]);
    s.reset();
    assert_eq!(s.stats(), unset());
    let st = s.register_tap(9_000_000);
    assert_eq!(st, unset());
    let st = s.register_tap(9_400_000);
    assert_eq!(st.bpm, Some(Rate { beats: 1, micros: 400_000 }));
    // After the reset an earlier clock reading than the old taps is fine again.
    s.reset();
    assert!(s.can_register(0));
}

#[test]
fn reading_twice_agrees() {
    let (s, st) = tapped(&[0, 450_000, 1_000_000, 1_520_000]);
    let a = s.stats();
    let b = s.stats();
    assert_eq!(a, b);
    assert_eq!(a, st);
}

#[test]
fn band_brackets_the_tempo() {
    let (_, st) = tapped(&[0, 480_000, 1_000_000, 1_470_000, 2_010_000]);
    let (lo, bpm, hi) = (st.ci_low.unwrap(), st.bpm.unwrap(), st.ci_high.unwrap());
    assert!(lo.micros > bpm.micros && bpm.micros > hi.micros && hi.micros > 0);
    assert!(bpm_of(lo) <= bpm_of(bpm) && bpm_of(bpm) <= bpm_of(hi));
}

#[test]
fn very_wide_band_has_non_positive_upper_span() {
    // Intervals of 0.1 s and 9.9 s: the band on the mean interval reaches below zero.
    let (_, st) = tapped(&[0, 100_000, 10_000_000]);
    assert_eq!(st.bpm, Some(Rate { beats: 2, micros: 10_000_000 }));
    let hi = st.ci_high.unwrap();
    assert!(hi.micros < 0);
    assert!(bpm_of(hi) < 0.0);
}

#[test]
fn duplicate_times_give_zero_span() {
    let (_, st) = tapped(&[3, 3]);
    let bpm = st.bpm.unwrap();
    assert_eq!(bpm, Rate { beats: 1, micros: 0 });
    assert!(bpm_of(bpm).is_infinite());
}

#[test]
fn stats_of_a_log() {
    assert_eq!(tap_stats(&vec![]), unset());
    assert_eq!(tap_stats(&vec![0]), unset());
    let st = tap_stats(&vec![0, 1_000_000, 1_800_000]);
    assert_eq!(st.ci_low, Some(Rate { beats: 2, micros: 2_192_000 }));
}

#[test]
fn clock_readings_that_are_refused() {
    let (s, _) = tapped(&[1_000, 2_000]);
    assert!(!s.can_register(1_500));
    assert!(!s.can_register(500));
    assert!(s.can_register(2_000));
    assert!(s.can_register(1_000 + MAX_ELAPSED_MICROS));
    assert!(!s.can_register(1_001 + MAX_ELAPSED_MICROS));
}

#[test]
fn integer_square_roots() {
    assert_eq!(isqrt_floor(0), 0);
    assert_eq!(isqrt_floor(1), 1);
    assert_eq!(isqrt_floor(3), 1);
    assert_eq!(isqrt_floor(4), 2);
    assert_eq!(isqrt_floor(15), 3);
    assert_eq!(isqrt_floor(16), 4);
    assert_eq!(isqrt_floor(153_664_000_000), 392_000);
    assert_eq!(isqrt_floor(u128::MAX), u64::MAX);
}

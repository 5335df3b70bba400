use vstd::prelude::*;

verus! {

/// A tempo held exactly: `beats` beats over a span of `micros` microseconds.
/// Its value in beats per minute is `60_000_000 * beats / micros`. The span may be
/// zero or negative, as it is for the upper bound of a very wide confidence band.
#[derive(Clone, Copy, Debug, PartialEq, Eq, Structural)]
pub struct Rate {
    pub beats: u64,
    pub micros: i64,
}

/// `a` is no faster than `b`: `a.beats / a.micros <= b.beats / b.micros`, for positive spans.
pub open spec fn no_faster(a: Rate, b: Rate) -> bool {
    a.beats * b.micros <= b.beats * a.micros
}

} // verus!

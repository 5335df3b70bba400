//! Tap tempo: a session records the times of taps, and turns the gaps between them
//! into a tempo in beats per minute with a 95% confidence band, all in exact integer
//! arithmetic over microsecond clock readings.
use vstd::prelude::*;

pub mod laws;
pub mod rate;
pub mod session;
pub mod stats;

verus! {

} // verus!

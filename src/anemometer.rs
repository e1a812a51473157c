//! Frequency of a pulse train measured between two edges by a free-running
//! timer.
use vstd::prelude::*;
use crate::calibration::Fraction;

verus! {

/// Frequency, in hertz, of an edge measured `counter` timer ticks after the
/// previous one on a timer running at `tick_hz`: `tick_hz / counter`. `None`
/// when the timer overflowed between the edges (the pulse train is too slow
/// to measure) or counted no tick.
pub fn event_frequency(tick_hz: u64, counter: u64, overflowed: bool) -> (r: Option<Fraction>)
    ensures
        r is Some <==> !overflowed && counter > 0,
        r matches Some(f) ==> f.numerator == tick_hz && f.denominator == counter,
{
    if overflowed || counter == 0 {
        None
    } else {
        Some(Fraction { numerator: tick_hz as u128, denominator: counter as u128 })
    }
}

} // verus!

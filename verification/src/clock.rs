use vstd::prelude::*;

use quanta::Clock;

verus! {

#[verifier::external_type_specification]
#[verifier::external_body]
pub struct ExClock(Clock);

/// `quanta::Clock::raw`: the raw counter of the clock's source. quanta's
/// documentation promises neither a unit nor monotonicity, so nothing is
/// stated about the value.
#[verifier::external_body]
pub(crate) fn read_clock(clock: &Clock) -> u64 {
    clock.raw()
}

} // verus!

//! The fixed time step: game logic runs in whole ticks, whatever the frame
//! rate.

use vstd::prelude::*;

verus! {

/// The length of a tick, in milliseconds.
pub const TICK_DURATION: u128 = 20;

/// The ticks that are due, and the time that is left over for the next
/// frame, after a frame of `delta_time` milliseconds: the time not yet
/// spent on ticks is added up and cut into whole ticks.
pub fn fixed_tick_manager(tick_accumulator: u128, delta_time: u128) -> (due: (u128, u128))
    requires
        tick_accumulator + delta_time <= u128::MAX,
    ensures
        due.0 == (tick_accumulator + delta_time) / (TICK_DURATION as int),
        due.1 == (tick_accumulator + delta_time) % (TICK_DURATION as int),
        due.1 < TICK_DURATION,
{
    let total = tick_accumulator + delta_time;
    (total / TICK_DURATION, total % TICK_DURATION)
}

} // verus!

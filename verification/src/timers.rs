//! What waits for a while.

use vstd::prelude::*;

verus! {

/// What a timer asks for.
#[derive(Clone, Copy, PartialEq, Eq, Structural, Debug)]
pub enum Timer {
    /// The time is over.
    Over,
    /// Look again after this many milliseconds.
    Wait(u64),
}

/// A changed frame rate is saved when it has not been changed for 800 milliseconds.
pub fn fps_timer(elapsed: u64) -> (r: Timer)
    ensures
        r == (if elapsed >= 800 {
            Timer::Over
        } else {
            Timer::Wait((820 - elapsed) as u64)
        }),
{
    if elapsed >= 800 {
        Timer::Over
    } else {
        Timer::Wait(820 - elapsed)
    }
}

/// That a project was saved is shown for two and a half seconds.
pub fn saved_timer(elapsed: u64) -> (r: Timer)
    ensures
        r == (if elapsed >= 2500 {
            Timer::Over
        } else {
            Timer::Wait((2550 - elapsed) as u64)
        }),
{
    if elapsed >= 2500 {
        Timer::Over
    } else {
        Timer::Wait(2550 - elapsed)
    }
}

} // verus!

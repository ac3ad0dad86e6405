//! When a frame is due, and waiting for that moment.
//!
//! Times are in nanoseconds.

use vstd::prelude::*;

verus! {

/// What the operating system can be expected to be precise about when it puts us to sleep.
pub const ACCURACY: u128 = 125_000;

/// A frame that is due later than this is left for a later pass.
pub const DRAW_AHEAD: u128 = 1_200_000;

/// Where a wait has got to.
#[derive(Clone, Copy, PartialEq, Eq, Structural, Debug)]
pub enum Wait {
    /// It has just begun.
    Begun,
    /// Whatever could be slept away has been.
    Watching,
}

/// What to do next in a wait.
#[derive(Clone, Copy, PartialEq, Eq, Structural, Debug)]
pub enum SpinStep {
    /// Sleep for this long, then watch the clock.
    Sleep(u128),
    /// Let others run, then look at the clock again.
    Yield,
    /// The time is up.
    Done,
}

/// What to do in a wait for `duration`, of which `elapsed` has passed: all of it but the part that
/// the operating system is not precise about is slept away at the beginning. From then on the
/// clock is watched.
pub open spec fn spin_step(duration: u128, wait: Wait, elapsed: u128) -> SpinStep {
    match wait {
        Wait::Begun if duration > ACCURACY => SpinStep::Sleep((duration - ACCURACY) as u128),
        _ if elapsed < duration => SpinStep::Yield,
        _ => SpinStep::Done,
    }
}

/// Waits for `duration`, of which `elapsed` has passed: sleeps through all of it but the part that
/// the operating system is not precise about, and spends that watching the clock.
pub fn spin_sleep(duration: u128, wait: &mut Wait, elapsed: u128) -> (step: SpinStep)
    ensures
        step == spin_step(duration, *old(wait), elapsed),
        *final(wait) == Wait::Watching,
        step matches SpinStep::Sleep(nanoseconds) ==> nanoseconds + ACCURACY == duration,
        step is Done ==> elapsed >= duration,
{
    let step = match *wait {
        Wait::Begun if duration > ACCURACY => SpinStep::Sleep(duration - ACCURACY),
        _ => {
            if elapsed < duration {
                SpinStep::Yield
            } else {
                SpinStep::Done
            }
        },
    };
    *wait = Wait::Watching;
    step
}

/// Where a wait has got to after so many steps.
pub open spec fn wait_after(steps: int) -> Wait {
    if steps == 0 {
        Wait::Begun
    } else {
        Wait::Watching
    }
}

/// The step of a wait at which the clock shows the time at `k`, when it has shown these in turn.
pub open spec fn step_at(duration: u128, times: Seq<u128>, k: int) -> SpinStep {
    spin_step(duration, wait_after(k), times[k])
}

/// A wait sleeps at most once, as its first step, and then for all but the part that is watched.
/// It is over when the time is up, and not before. What is watched is the last 125 microseconds.
pub proof fn law_waits_sleep_once(duration: u128, times: Seq<u128>, k: int)
    requires
        0 <= k < times.len(),
    ensures
        step_at(duration, times, k) is Sleep <==> k == 0 && duration > ACCURACY,
        step_at(duration, times, k) matches SpinStep::Sleep(nanoseconds) ==> nanoseconds + ACCURACY
            == duration,
        step_at(duration, times, k) is Done ==> times[k] >= duration,
        step_at(duration, times, k) is Yield ==> times[k] < duration,
        ACCURACY == 125 * 1000,
{
}

} // verus!

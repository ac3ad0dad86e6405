//! How long to wait for the compositor and for clients before drawing again.

use vstd::prelude::*;

verus! {

/// How long to poll. It makes sure that frames are drawn at the right time. What must not be drawn
/// yet, because a frame callback has not come back or the frame is not due, is waited for with a
/// short poll. The transitions that a client asked for are begun at once.
#[derive(Clone, Copy, PartialEq, Eq, Structural, Debug)]
pub enum PollTime {
    /// Nothing is to be drawn: wait until something happens.
    Never,
    /// Do not wait at all.
    Instant,
    /// Wait for the smallest time there is.
    Short,
}

/// The timeout in milliseconds, with a negative one for no timeout.
pub open spec fn milliseconds(time: PollTime) -> i32 {
    match time {
        PollTime::Never => (-1) as i32,
        PollTime::Instant => 0,
        PollTime::Short => 1,
    }
}

impl From<PollTime> for i32 {
    fn from(value: PollTime) -> (timeout: i32) {
        match value {
            PollTime::Never => -1,
            PollTime::Instant => 0,
            PollTime::Short => 1,
        }
    }
}

impl vstd::std_specs::convert::FromSpecImpl<PollTime> for i32 {
    open spec fn obeys_from_spec() -> bool {
        true
    }

    open spec fn from_spec(v: PollTime) -> i32 {
        milliseconds(v)
    }
}

/// Nothing to draw means no timeout, drawing at once means not to wait, and drawing soon means the
/// least time that can be waited.
pub proof fn law_timeouts(time: PollTime)
    ensures
        -1 <= milliseconds(time) <= 1,
        milliseconds(time) < 0 <==> time is Never,
        milliseconds(time) == 0 <==> time is Instant,
        milliseconds(time) > 0 <==> time is Short,
{
}

} // verus!

//! The main loop: waiting, receiving, serving and drawing, in turn.

use vstd::prelude::*;

use crate::exit::{should_daemon_exit, ExitFlag};
use crate::poll::{milliseconds, PollTime};

verus! {

/// What kept something from being done.
#[derive(Clone, Copy, PartialEq, Eq, Structural, Debug)]
pub enum IoErrorKind {
    /// A signal came in between.
    Interrupted,
    /// There is nothing to be had without waiting.
    WouldBlock,
    /// Something else.
    Other,
}

/// Why something was not done.
pub struct IoError {
    pub kind: IoErrorKind,
    /// The error in words.
    pub reason: String,
}

/// What has happened.
pub enum LoopEvent {
    /// The loop has begun.
    Begun,
    /// It was waited: whether there is something of the compositor, and whether a client is there.
    Polled(Result<(bool, bool), IoError>),
    /// An event of the compositor was received, or was not.
    Received(Result<(), IoError>),
    /// The event was handled.
    Handled,
    /// A client was let in, or was not.
    Accepted(Result<(), IoError>),
    /// The client was served.
    Served,
    /// What there was to draw was drawn.
    Drawn,
}

/// What to do next.
pub enum LoopStep {
    /// Wait for the compositor and for clients, for so many milliseconds at most, or for as long
    /// as it takes if that is negative.
    Poll(i32),
    /// Receive an event of the compositor.
    Receive,
    /// Handle the event.
    Handle,
    /// Let a client in.
    Accept,
    /// Serve the client.
    Serve,
    /// Draw.
    Draw,
    /// Stop, because that was asked for.
    Stop,
    /// Stop, because it cannot go on, for this reason.
    Fail(String),
}

/// The model of what to do next.
pub enum LoopStepState {
    Poll(i32),
    Receive,
    Handle,
    Accept,
    Serve,
    Draw,
    Stop,
    Fail(Seq<char>),
}

impl View for LoopStep {
    type V = LoopStepState;

    open spec fn view(&self) -> LoopStepState {
        match *self {
            LoopStep::Poll(timeout) => LoopStepState::Poll(timeout),
            LoopStep::Receive => LoopStepState::Receive,
            LoopStep::Handle => LoopStepState::Handle,
            LoopStep::Accept => LoopStepState::Accept,
            LoopStep::Serve => LoopStepState::Serve,
            LoopStep::Draw => LoopStepState::Draw,
            LoopStep::Stop => LoopStepState::Stop,
            LoopStep::Fail(reason) => LoopStepState::Fail(reason@),
        }
    }
}

/// A failure, in words.
pub open spec fn failure(what: Seq<char>, e: IoError) -> LoopStepState {
    LoopStepState::Fail(what + e.reason@)
}

/// What a round of the loop begins with.
pub open spec fn round(exit: bool, time: PollTime) -> LoopStepState {
    if exit {
        LoopStepState::Stop
    } else {
        LoopStepState::Poll(milliseconds(time))
    }
}

/// What follows when clients have had their turn: drawing, unless there is nothing to draw.
pub open spec fn after_clients(exit: bool, time: PollTime) -> LoopStepState {
    if time == PollTime::Never {
        round(exit, time)
    } else {
        LoopStepState::Draw
    }
}

/// What follows when the compositor has had its turn: a client, if there is one.
pub open spec fn after_compositor(client: bool, exit: bool, time: PollTime) -> LoopStepState {
    if client {
        LoopStepState::Accept
    } else {
        after_clients(exit, time)
    }
}

/// What follows an event. `client` is whether the last wait has found one.
pub open spec fn loop_next(
    client: bool,
    event: LoopEvent,
    exit: bool,
    time: PollTime,
) -> LoopStepState {
    match event {
        LoopEvent::Begun | LoopEvent::Drawn => round(exit, time),
        LoopEvent::Polled(Ok((compositor, client))) => if compositor {
            LoopStepState::Receive
        } else {
            after_compositor(client, exit, time)
        },
        LoopEvent::Polled(Err(e)) => match e.kind {
            IoErrorKind::Interrupted => round(exit, time),
            _ => failure("failed to poll file descriptors: "@, e),
        },
        LoopEvent::Received(Ok(())) => LoopStepState::Handle,
        LoopEvent::Received(Err(e)) => match e.kind {
            IoErrorKind::Interrupted => round(exit, time),
            _ => failure("failed to receive wire message: "@, e),
        },
        LoopEvent::Handled => after_compositor(client, exit, time),
        LoopEvent::Accepted(Ok(())) => LoopStepState::Serve,
        LoopEvent::Accepted(Err(e)) => match e.kind {
            IoErrorKind::Interrupted | IoErrorKind::WouldBlock => round(exit, time),
            IoErrorKind::Other => failure("failed to accept incoming connection: "@, e),
        },
        LoopEvent::Served => after_clients(exit, time),
    }
}

/// Whether a client was there when it was last waited.
pub open spec fn client_after(client: bool, event: LoopEvent) -> bool {
    match event {
        LoopEvent::Polled(Ok((_, there))) => there,
        _ => client,
    }
}

/// The main loop.
pub struct EventLoop {
    client: bool,
}

impl View for EventLoop {
    type V = bool;

    closed spec fn view(&self) -> bool {
        self.client
    }
}

impl EventLoop {
    pub fn new() -> (new: EventLoop)
        ensures
            !new@,
    {
        EventLoop { client: false }
    }

    fn round(exit: &ExitFlag, time: PollTime) -> (step: LoopStep)
        ensures
            step@ == round(exit@, time),
    {
        if should_daemon_exit(exit) {
            LoopStep::Stop
        } else {
            LoopStep::Poll(i32::from(time))
        }
    }

    fn after_clients(exit: &ExitFlag, time: PollTime) -> (step: LoopStep)
        ensures
            step@ == after_clients(exit@, time),
    {
        match time {
            PollTime::Never => Self::round(exit, time),
            _ => LoopStep::Draw,
        }
    }

    fn after_compositor(&self, exit: &ExitFlag, time: PollTime) -> (step: LoopStep)
        ensures
            step@ == after_compositor(self@, exit@, time),
    {
        if self.client {
            LoopStep::Accept
        } else {
            Self::after_clients(exit, time)
        }
    }

    fn fail(what: &str, e: IoError) -> (step: LoopStep)
        ensures
            step@ == failure(what@, e),
    {
        LoopStep::Fail(what.to_owned().concat(e.reason.as_str()))
    }

    /// What to do next, now that something has happened. `time` is how long the daemon would wait.
    pub fn next(&mut self, event: LoopEvent, exit: &ExitFlag, time: PollTime) -> (step: LoopStep)
        ensures
            step@ == loop_next(old(self)@, event, exit@, time),
            final(self)@ == client_after(old(self)@, event),
    {
        match event {
            LoopEvent::Begun | LoopEvent::Drawn => Self::round(exit, time),
            LoopEvent::Polled(Ok((compositor, client))) => {
                self.client = client;
                if compositor {
                    LoopStep::Receive
                } else {
                    self.after_compositor(exit, time)
                }
            },
            LoopEvent::Polled(Err(e)) => match e.kind {
                IoErrorKind::Interrupted => Self::round(exit, time),
                _ => Self::fail("failed to poll file descriptors: ", e),
            },
            LoopEvent::Received(Ok(())) => LoopStep::Handle,
            LoopEvent::Received(Err(e)) => match e.kind {
                IoErrorKind::Interrupted => Self::round(exit, time),
                _ => Self::fail("failed to receive wire message: ", e),
            },
            LoopEvent::Handled => self.after_compositor(exit, time),
            LoopEvent::Accepted(Ok(())) => LoopStep::Serve,
            LoopEvent::Accepted(Err(e)) => match e.kind {
                IoErrorKind::Interrupted | IoErrorKind::WouldBlock => Self::round(exit, time),
                IoErrorKind::Other => Self::fail("failed to accept incoming connection: ", e),
            },
            LoopEvent::Served => Self::after_clients(exit, time),
        }
    }
}

/// Once the daemon was asked to stop, the loop never waits again.
pub proof fn law_no_waiting_after_exit(client: bool, event: LoopEvent, time: PollTime)
    ensures
        loop_next(client, event, true, time) !is Poll,
{
}

/// The loop stops on request alone.
pub proof fn law_stops_only_on_request(client: bool, event: LoopEvent, exit: bool, time: PollTime)
    requires
        loop_next(client, event, exit, time) is Stop,
    ensures
        exit,
{
}

/// The error that an event brings, if it brings one.
pub open spec fn error_of(event: LoopEvent) -> Option<IoError> {
    match event {
        LoopEvent::Polled(Err(e)) => Some(e),
        LoopEvent::Received(Err(e)) => Some(e),
        LoopEvent::Accepted(Err(e)) => Some(e),
        _ => None,
    }
}

/// An interruption begins a new round: nothing is drawn, and nobody is let in, before it is waited
/// again.
pub proof fn law_interruptions_start_over(
    client: bool,
    event: LoopEvent,
    exit: bool,
    time: PollTime,
)
    requires
        error_of(event) matches Some(e) && e.kind == IoErrorKind::Interrupted,
    ensures
        loop_next(client, event, exit, time) == round(exit, time),
{
}

/// The loop fails on errors alone, and says why.
pub proof fn law_fails_only_on_errors(client: bool, event: LoopEvent, exit: bool, time: PollTime)
    requires
        loop_next(client, event, exit, time) is Fail,
    ensures
        error_of(event) matches Some(e) && e.kind != IoErrorKind::Interrupted
            && e.reason@.is_suffix_of(loop_next(client, event, exit, time)->Fail_0),
{
    if let Some(e) = error_of(event) {
        let poll = "failed to poll file descriptors: "@;
        let wire = "failed to receive wire message: "@;
        let accept = "failed to accept incoming connection: "@;
        assert((poll + e.reason@).skip(poll.len() as int) =~= e.reason@);
        assert((wire + e.reason@).skip(wire.len() as int) =~= e.reason@);
        assert((accept + e.reason@).skip(accept.len() as int) =~= e.reason@);
    }
}

/// Whether an event is what comes of a step.
pub open spec fn comes_of(step: LoopStepState, event: LoopEvent) -> bool {
    match step {
        LoopStepState::Poll(_) => event is Polled,
        LoopStepState::Receive => event is Received,
        LoopStepState::Handle => event is Handled,
        LoopStepState::Accept => event is Accepted,
        LoopStepState::Serve => event is Served,
        LoopStepState::Draw => event is Drawn,
        LoopStepState::Stop | LoopStepState::Fail(_) => false,
    }
}

/// The place of a step in a round.
pub open spec fn turn(step: LoopStepState) -> int {
    match step {
        LoopStepState::Poll(_) => 0,
        LoopStepState::Receive => 1,
        LoopStepState::Handle => 2,
        LoopStepState::Accept => 3,
        LoopStepState::Serve => 4,
        LoopStepState::Draw => 5,
        LoopStepState::Stop | LoopStepState::Fail(_) => 6,
    }
}

/// A round goes in order, the compositor first, then a client, then drawing. What comes next is
/// later in the round, or begins another.
pub proof fn law_rounds_go_in_order(
    step: LoopStepState,
    client: bool,
    event: LoopEvent,
    exit: bool,
    time: PollTime,
)
    requires
        comes_of(step, event),
    ensures
        ({
            let next = loop_next(client, event, exit, time);
            next is Poll || turn(next) > turn(step)
        }),
{
}

/// A client that was found when it was waited is let in as soon as the compositor has had its
/// turn.
pub proof fn law_clients_get_their_turn(
    before: bool,
    compositor: bool,
    exit: bool,
    time: PollTime,
)
    ensures
        ({
            let polled = LoopEvent::Polled(Ok((compositor, true)));
            let client = client_after(client_after(before, polled), LoopEvent::Received(Ok(())));
            if compositor {
                &&& loop_next(before, polled, exit, time) is Receive
                &&& loop_next(client, LoopEvent::Handled, exit, time) is Accept
            } else {
                loop_next(before, polled, exit, time) is Accept
            }
        }),
{
}

/// While there is nothing to draw, nothing is drawn, and the wait that follows is without limit.
pub proof fn law_idle_waits_without_limit(client: bool, event: LoopEvent, exit: bool)
    ensures
        loop_next(client, event, exit, PollTime::Never) !is Draw,
        loop_next(client, event, exit, PollTime::Never) matches LoopStepState::Poll(timeout)
            ==> timeout < 0,
{
}

/// A client that was let in is served next, and an event that was received is handled next,
/// whatever the time and whether or not the daemon was asked to stop. Nothing else is served or
/// handled.
pub proof fn law_whoever_is_let_in_is_served(
    client: bool,
    event: LoopEvent,
    exit: bool,
    time: PollTime,
)
    ensures
        loop_next(client, event, exit, time) is Serve <==> {
            &&& event matches LoopEvent::Accepted(accepted)
            &&& accepted is Ok
        },
        loop_next(client, event, exit, time) is Handle <==> {
            &&& event matches LoopEvent::Received(received)
            &&& received is Ok
        },
{
}

/// The loop receives where the compositor has something, and where it was last found that a client
/// is there, lets that client in as soon as the compositor has had its turn.
pub proof fn law_whoever_is_there_gets_a_turn(
    client: bool,
    event: LoopEvent,
    exit: bool,
    time: PollTime,
)
    ensures
        loop_next(client, event, exit, time) is Receive <==> {
            &&& event matches LoopEvent::Polled(Ok(found))
            &&& found.0
        },
        loop_next(client, event, exit, time) is Accept <==> {
            ||| event is Handled && client
            ||| event matches LoopEvent::Polled(Ok(found)) && !found.0 && found.1
        },
        event matches LoopEvent::Polled(Ok(found)) ==> client_after(client, event) == found.1,
        !(event matches LoopEvent::Polled(Ok(_))) ==> client_after(client, event) == client,
{
}

/// Whether everyone who was there has had a turn when an event comes.
pub open spec fn turns_are_over(client: bool, event: LoopEvent) -> bool {
    ||| event is Served
    ||| event is Handled && !client
    ||| event matches LoopEvent::Polled(Ok(found)) && !found.0 && !found.1
}

/// It is drawn when everyone has had a turn, if there is something to draw, and only then; also
/// where the daemon was asked to stop.
pub proof fn law_drawing_comes_last(client: bool, event: LoopEvent, exit: bool, time: PollTime)
    ensures
        loop_next(client, event, exit, time) is Draw <==> turns_are_over(client, event) && time
            !is Never,
{
}

/// Whether the loop cannot go on with an event: only interruptions, and clients that are gone when
/// they are to be let in, are no harm.
pub open spec fn is_hopeless(event: LoopEvent) -> bool {
    match event {
        LoopEvent::Polled(Err(e)) => !(e.kind is Interrupted),
        LoopEvent::Received(Err(e)) => !(e.kind is Interrupted),
        LoopEvent::Accepted(Err(e)) => e.kind is Other,
        _ => false,
    }
}

/// The loop fails where it cannot go on, and says at what it has failed and why.
pub proof fn law_failures_say_what_and_why(
    client: bool,
    event: LoopEvent,
    exit: bool,
    time: PollTime,
)
    ensures
        ({
            let next = loop_next(client, event, exit, time);
            &&& next is Fail <==> is_hopeless(event)
            &&& event matches LoopEvent::Polled(Err(e)) ==> next is Fail ==> next->Fail_0
                == "failed to poll file descriptors: "@ + e.reason@
            &&& event matches LoopEvent::Received(Err(e)) ==> next is Fail ==> next->Fail_0
                == "failed to receive wire message: "@ + e.reason@
            &&& event matches LoopEvent::Accepted(Err(e)) ==> next is Fail ==> next->Fail_0
                == "failed to accept incoming connection: "@ + e.reason@
        }),
{
}

/// Whether an event ends a round: it has begun, all was drawn, there is nothing left to draw, or
/// something came in between.
pub open spec fn ends_round(client: bool, event: LoopEvent, time: PollTime) -> bool {
    ||| event is Begun
    ||| event is Drawn
    ||| turns_are_over(client, event) && time is Never
    ||| error_of(event) is Some && !is_hopeless(event)
}

/// A new round begins with stopping, if that was asked for, and else with waiting: without limit
/// where nothing is to be drawn, not at all where that is to be done at once, and for a
/// millisecond where it is to be done soon. Neither comes at any other point.
pub proof fn law_rounds_begin_with_waiting(
    client: bool,
    event: LoopEvent,
    exit: bool,
    time: PollTime,
)
    ensures
        ({
            let next = loop_next(client, event, exit, time);
            &&& next is Stop <==> ends_round(client, event, time) && exit
            &&& next is Poll <==> ends_round(client, event, time) && !exit
            &&& next matches LoopStepState::Poll(timeout) ==> {
                &&& timeout < 0 <==> time is Never
                &&& timeout == 0 <==> time is Instant
                &&& timeout == 1 <==> time is Short
            }
        }),
{
}

/// What is modelled is what is done: a step and its model are of the same kind, and say the same.
pub proof fn law_steps_are_what_they_stand_for(step: LoopStep)
    ensures
        step@ is Poll <==> step is Poll,
        step matches LoopStep::Poll(timeout) ==> step@ == LoopStepState::Poll(timeout),
        step@ is Receive <==> step is Receive,
        step@ is Handle <==> step is Handle,
        step@ is Accept <==> step is Accept,
        step@ is Serve <==> step is Serve,
        step@ is Draw <==> step is Draw,
        step@ is Stop <==> step is Stop,
        step@ is Fail <==> step is Fail,
        step matches LoopStep::Fail(reason) ==> step@ == LoopStepState::Fail(reason@),
{
}

} // verus!

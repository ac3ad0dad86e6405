//! Taking over the socket that clients connect to.

use vstd::prelude::*;

use crate::daemon::serve::Answer;

verus! {

/// How an attempt to reach a daemon that may already be running has gone.
pub enum Probe {
    /// Nobody could be connected to.
    Unreachable,
    /// The ping could not be sent, for this reason.
    Unsent(String),
    /// The answer could not be received, for this reason.
    Unanswered(String),
    /// This was answered.
    Answered(Answer),
}

/// What is answered by something that is not a daemon.
pub open spec fn not_a_ping() -> Seq<char> {
    "Daemon did not return Answer::Ping, as expected"@
}

/// Whether a daemon is running, by how an attempt to ping it has gone, or why that cannot be told.
pub open spec fn running(probe: Probe) -> Result<bool, Seq<char>> {
    match probe {
        Probe::Unreachable => Ok(false),
        Probe::Unsent(reason) => Err(reason@),
        Probe::Unanswered(reason) => Err(reason@),
        Probe::Answered(Answer::Ping(_)) => Ok(true),
        Probe::Answered(_) => Err(not_a_ping()),
    }
}

/// Tells, by how an attempt to ping it has gone, whether a daemon is running. Where nobody could
/// be connected to there is none: a connection that is refused is a reliable sign of that.
pub fn is_daemon_running(probe: Probe) -> (told: Result<bool, String>)
    ensures
        running(probe) == match told {
            Ok(is) => Ok::<bool, Seq<char>>(is),
            Err(reason) => Err(reason@),
        },
        match probe {
            Probe::Unreachable => told == Ok::<bool, String>(false),
            Probe::Unsent(reason) => told matches Err(e) && e@ == reason@,
            Probe::Unanswered(reason) => told matches Err(e) && e@ == reason@,
            Probe::Answered(Answer::Ping(_)) => told == Ok::<bool, String>(true),
            Probe::Answered(_) => told matches Err(e) && e@ == not_a_ping(),
        },
{
    match probe {
        Probe::Unreachable => Ok(false),
        Probe::Unsent(reason) => Err(reason),
        Probe::Unanswered(reason) => Err(reason),
        Probe::Answered(Answer::Ping(_)) => Ok(true),
        Probe::Answered(_) => Err("Daemon did not return Answer::Ping, as expected".to_owned()),
    }
}

/// What to find out or to do next in order to take the socket over.
pub enum Setup {
    /// Whether there is a socket already.
    FindSocket,
    /// Whether a daemon is running that listens on it.
    FindDaemon,
    /// Remove the socket, which a daemon has left behind.
    RemoveSocket,
    /// Whether the path of the socket has a directory.
    FindParent,
    /// Whether that directory is there.
    FindDirectory,
    /// Make the directory.
    MakeDirectory,
    /// Make the socket and listen on it.
    Listen,
    /// Nothing: the socket is there.
    Ready,
    /// Nothing: it is hopeless, for this reason.
    Failed(String),
}

/// What has come of a step.
pub enum SetupEvent {
    /// The answer to a question.
    Is(bool),
    /// Whether a daemon is running, or why that could not be told.
    Running(Result<bool, String>),
    /// What was to be done is done, or why it is not.
    Did(Result<(), String>),
}

/// The model of a step.
pub enum SetupState {
    FindSocket,
    FindDaemon,
    RemoveSocket,
    FindParent,
    FindDirectory,
    MakeDirectory,
    Listen,
    Ready,
    Failed(Seq<char>),
}

impl View for Setup {
    type V = SetupState;

    open spec fn view(&self) -> SetupState {
        match *self {
            Setup::FindSocket => SetupState::FindSocket,
            Setup::FindDaemon => SetupState::FindDaemon,
            Setup::RemoveSocket => SetupState::RemoveSocket,
            Setup::FindParent => SetupState::FindParent,
            Setup::FindDirectory => SetupState::FindDirectory,
            Setup::MakeDirectory => SetupState::MakeDirectory,
            Setup::Listen => SetupState::Listen,
            Setup::Ready => SetupState::Ready,
            Setup::Failed(reason) => SetupState::Failed(reason@),
        }
    }
}

/// What follows a step. What a step has not asked for leaves it as it is.
pub open spec fn setup_next(at: SetupState, event: SetupEvent) -> SetupState {
    match (at, event) {
        (SetupState::FindSocket, SetupEvent::Is(true)) => SetupState::FindDaemon,
        (SetupState::FindSocket, SetupEvent::Is(false)) => SetupState::FindParent,
        (SetupState::FindDaemon, SetupEvent::Running(Ok(true))) => SetupState::Failed(
            "There is an swww-daemon instance already running on this socket!"@,
        ),
        (SetupState::FindDaemon, SetupEvent::Running(Ok(false))) => SetupState::RemoveSocket,
        (SetupState::FindDaemon, SetupEvent::Running(Err(reason))) => SetupState::Failed(reason@),
        (SetupState::RemoveSocket, SetupEvent::Did(Ok(()))) => SetupState::FindParent,
        (SetupState::RemoveSocket, SetupEvent::Did(Err(reason))) => SetupState::Failed(
            "failed to delete previous socket: "@ + reason@,
        ),
        (SetupState::FindParent, SetupEvent::Is(true)) => SetupState::FindDirectory,
        (SetupState::FindParent, SetupEvent::Is(false)) => SetupState::Failed(
            "couldn't find a valid runtime directory"@,
        ),
        (SetupState::FindDirectory, SetupEvent::Is(true)) => SetupState::Listen,
        (SetupState::FindDirectory, SetupEvent::Is(false)) => SetupState::MakeDirectory,
        (SetupState::MakeDirectory, SetupEvent::Did(Ok(()))) => SetupState::Listen,
        (SetupState::MakeDirectory, SetupEvent::Did(Err(reason))) => SetupState::Failed(
            "failed to create runtime dir: "@ + reason@,
        ),
        (SetupState::Listen, SetupEvent::Did(Ok(()))) => SetupState::Ready,
        (SetupState::Listen, SetupEvent::Did(Err(reason))) => SetupState::Failed(reason@),
        _ => at,
    }
}

impl Setup {
    /// The first step.
    pub fn new() -> (first: Setup)
        ensures
            first@ == SetupState::FindSocket,
    {
        Setup::FindSocket
    }

    /// The step that follows when this one has come to `event`.
    pub fn next(self, event: SetupEvent) -> (after: Setup)
        ensures
            after@ == setup_next(self@, event),
    {
        match (self, event) {
            (Setup::FindSocket, SetupEvent::Is(there)) => if there {
                Setup::FindDaemon
            } else {
                Setup::FindParent
            },
            (Setup::FindDaemon, SetupEvent::Running(Ok(running))) => if running {
                Setup::Failed(
                    "There is an swww-daemon instance already running on this socket!".to_owned(),
                )
            } else {
                Setup::RemoveSocket
            },
            (Setup::FindDaemon, SetupEvent::Running(Err(reason))) => Setup::Failed(reason),
            (Setup::RemoveSocket, SetupEvent::Did(Ok(()))) => Setup::FindParent,
            (Setup::RemoveSocket, SetupEvent::Did(Err(reason))) => Setup::Failed(
                "failed to delete previous socket: ".to_owned().concat(reason.as_str()),
            ),
            (Setup::FindParent, SetupEvent::Is(there)) => if there {
                Setup::FindDirectory
            } else {
                Setup::Failed("couldn't find a valid runtime directory".to_owned())
            },
            (Setup::FindDirectory, SetupEvent::Is(there)) => if there {
                Setup::Listen
            } else {
                Setup::MakeDirectory
            },
            (Setup::MakeDirectory, SetupEvent::Did(Ok(()))) => Setup::Listen,
            (Setup::MakeDirectory, SetupEvent::Did(Err(reason))) => Setup::Failed(
                "failed to create runtime dir: ".to_owned().concat(reason.as_str()),
            ),
            (Setup::Listen, SetupEvent::Did(Ok(()))) => Setup::Ready,
            (Setup::Listen, SetupEvent::Did(Err(reason))) => Setup::Failed(reason),
            (at, _) => at,
        }
    }
}

/// The step that is reached, from the first one on, when these events come one after another.
pub open spec fn setup_after(events: Seq<SetupEvent>) -> SetupState
    decreases events.len(),
{
    if events.len() == 0 {
        SetupState::FindSocket
    } else {
        setup_next(setup_after(events.drop_last()), events.last())
    }
}

/// A socket that is there is removed only once it has been told that no daemon is running.
pub proof fn law_no_running_daemon_loses_its_socket(events: Seq<SetupEvent>)
    ensures
        setup_after(events) is RemoveSocket ==> exists|k: int|
            0 <= k < events.len() && #[trigger] events[k] == SetupEvent::Running(Ok(false)),
    decreases events.len(),
{
    if events.len() > 0 {
        let before = events.drop_last();
        law_no_running_daemon_loses_its_socket(before);
        if setup_after(events) is RemoveSocket {
            if setup_after(before) is RemoveSocket {
                let k = choose|k: int|
                    0 <= k < before.len() && #[trigger] before[k] == SetupEvent::Running(Ok(false));
                assert(events[k] == SetupEvent::Running(Ok(false)));
            } else {
                assert(events[events.len() - 1] == SetupEvent::Running(Ok(false)));
            }
        }
    }
}

/// Once the socket is there, or it is hopeless, nothing more comes of anything.
pub proof fn law_setup_ends(at: SetupState, event: SetupEvent)
    requires
        at is Ready || at is Failed,
    ensures
        setup_next(at, event) == at,
{
}

/// How many more steps there can be, at most.
pub open spec fn steps_left(at: SetupState) -> nat {
    match at {
        SetupState::FindSocket => 7,
        SetupState::FindDaemon => 6,
        SetupState::RemoveSocket => 5,
        SetupState::FindParent => 4,
        SetupState::FindDirectory => 3,
        SetupState::MakeDirectory => 2,
        SetupState::Listen => 1,
        SetupState::Ready | SetupState::Failed(_) => 0,
    }
}

/// Whether an event is what a step has asked for.
pub open spec fn fits(at: SetupState, event: SetupEvent) -> bool {
    match at {
        SetupState::FindSocket | SetupState::FindParent
        | SetupState::FindDirectory => event is Is,
        SetupState::FindDaemon => event is Running,
        SetupState::RemoveSocket | SetupState::MakeDirectory | SetupState::Listen => event is Did,
        SetupState::Ready | SetupState::Failed(_) => false,
    }
}

/// Every event that was asked for brings the end nearer.
pub proof fn law_setup_gets_on(at: SetupState, event: SetupEvent)
    requires
        fits(at, event),
    ensures
        steps_left(setup_next(at, event)) < steps_left(at),
{
}

/// A daemon is running exactly where a ping was answered with one, and is known not to where
/// nobody could be connected to. Anything else is an error, which is passed on as it is.
pub proof fn law_pings_tell_whether_a_daemon_runs(probe: Probe)
    ensures
        running(probe) == Ok::<bool, Seq<char>>(true) <==> {
            &&& probe matches Probe::Answered(answer)
            &&& answer is Ping
        },
        running(probe) == Ok::<bool, Seq<char>>(false) <==> probe is Unreachable,
        probe matches Probe::Unsent(reason) ==> running(probe) == Err::<bool, Seq<char>>(reason@),
        probe matches Probe::Unanswered(reason) ==> running(probe) == Err::<bool, Seq<char>>(
            reason@,
        ),
        probe matches Probe::Answered(answer) ==> answer !is Ping ==> running(probe) == Err::<
            bool,
            Seq<char>,
        >("Daemon did not return Answer::Ping, as expected"@),
{
}

/// Where there is a socket already, it is looked for a daemon. One that runs, or of which that
/// cannot be told, keeps its socket; one that is gone loses it.
pub proof fn law_old_sockets_are_looked_into(at: SetupState, event: SetupEvent)
    requires
        fits(at, event),
    ensures
        ({
            let next = setup_next(at, event);
            &&& next is FindDaemon <==> at is FindSocket && event == SetupEvent::Is(true)
            &&& next is RemoveSocket <==> at is FindDaemon && event == SetupEvent::Running(
                Ok(false),
            )
            &&& at is FindDaemon && event == SetupEvent::Running(Ok(true)) ==> next
                == SetupState::Failed(
                "There is an swww-daemon instance already running on this socket!"@,
            )
            &&& event matches SetupEvent::Running(Err(reason)) ==> next == SetupState::Failed(
                reason@,
            )
        }),
{
}

/// Where the socket may be made, its directory is looked for, and made where it is missing. Then
/// it is listened on, and that is all.
pub proof fn law_new_sockets_get_a_directory(at: SetupState, event: SetupEvent)
    requires
        fits(at, event),
    ensures
        ({
            let next = setup_next(at, event);
            let done = event matches SetupEvent::Did(did) && did is Ok;
            &&& next is FindParent <==> {
                ||| at is FindSocket && event == SetupEvent::Is(false)
                ||| at is RemoveSocket && done
            }
            &&& next is FindDirectory <==> at is FindParent && event == SetupEvent::Is(true)
            &&& next is MakeDirectory <==> at is FindDirectory && event == SetupEvent::Is(false)
            &&& next is Listen <==> {
                ||| at is FindDirectory && event == SetupEvent::Is(true)
                ||| at is MakeDirectory && done
            }
            &&& next is Ready <==> at is Listen && done
            &&& next !is FindSocket
        }),
{
}

/// What cannot be done ends the attempt, and it is said what that was and why.
pub proof fn law_setup_failures_say_what_and_why(at: SetupState, event: SetupEvent)
    requires
        fits(at, event),
    ensures
        ({
            let next = setup_next(at, event);
            &&& at is FindParent && event == SetupEvent::Is(false) ==> next == SetupState::Failed(
                "couldn't find a valid runtime directory"@,
            )
            &&& event matches SetupEvent::Did(Err(reason)) ==> {
                &&& at is RemoveSocket ==> next == SetupState::Failed(
                    "failed to delete previous socket: "@ + reason@,
                )
                &&& at is MakeDirectory ==> next == SetupState::Failed(
                    "failed to create runtime dir: "@ + reason@,
                )
                &&& at is Listen ==> next == SetupState::Failed(reason@)
            }
            &&& next is Failed ==> {
                ||| event is Running && event != SetupEvent::Running(Ok(false))
                ||| at is FindParent && event == SetupEvent::Is(false)
                ||| event matches SetupEvent::Did(did) && did is Err
            }
        }),
{
}

/// What is modelled is what is done: a step and its model are of the same kind, and say the same.
pub proof fn law_setups_are_what_they_stand_for(at: Setup)
    ensures
        at@ is FindSocket <==> at is FindSocket,
        at@ is FindDaemon <==> at is FindDaemon,
        at@ is RemoveSocket <==> at is RemoveSocket,
        at@ is FindParent <==> at is FindParent,
        at@ is FindDirectory <==> at is FindDirectory,
        at@ is MakeDirectory <==> at is MakeDirectory,
        at@ is Listen <==> at is Listen,
        at@ is Ready <==> at is Ready,
        at@ is Failed <==> at is Failed,
        at matches Setup::Failed(reason) ==> at@ == SetupState::Failed(reason@),
{
}

} // verus!

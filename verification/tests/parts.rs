use swww_daemon::daemon::serve::Answer;
use swww_daemon::event_loop::{EventLoop, IoError, IoErrorKind, LoopEvent, LoopStep};
use swww_daemon::exit::{exit_daemon, should_daemon_exit, ExitFlag};
use swww_daemon::logger::{make_logger, Level, LevelFilter};
use swww_daemon::objects::{route, Globals, ObjectId, Route, Silent, WlDynObj};
use swww_daemon::poll::PollTime;
use swww_daemon::socket::{is_daemon_running, Probe, Setup, SetupEvent};
use swww_daemon::timing::{spin_sleep, SpinStep, Wait};

fn object(id: u32) -> ObjectId {
    ObjectId::new(id).unwrap()
}

fn error(kind: IoErrorKind) -> IoError {
    IoError { kind, reason: "why".to_string() }
}

#[test]
fn exit_requests_stay() {
    let mut flag = ExitFlag::new();
    assert!(!should_daemon_exit(&flag));
    exit_daemon(&mut flag);
    assert!(should_daemon_exit(&flag));
    exit_daemon(&mut flag);
    assert!(should_daemon_exit(&flag));
}

#[test]
fn poll_times_are_milliseconds() {
    assert_eq!(i32::from(PollTime::Never), -1);
    assert_eq!(i32::from(PollTime::Instant), 0);
    assert_eq!(i32::from(PollTime::Short), 1);
}

#[test]
fn long_waits_are_slept_through_but_for_the_end() {
    let mut wait = Wait::Begun;
    assert_eq!(spin_sleep(1_000_000, &mut wait, 0), SpinStep::Sleep(875_000));
    assert_eq!(wait, Wait::Watching);
    assert_eq!(spin_sleep(1_000_000, &mut wait, 875_300), SpinStep::Yield);
    assert_eq!(spin_sleep(1_000_000, &mut wait, 999_999), SpinStep::Yield);
    assert_eq!(spin_sleep(1_000_000, &mut wait, 1_000_000), SpinStep::Done);
    assert_eq!(spin_sleep(125_001, &mut Wait::Begun, 7), SpinStep::Sleep(1));
}

#[test]
fn waits_are_slept_through_only_once() {
    let mut wait = Wait::Begun;
    assert_eq!(spin_sleep(1_000_000, &mut wait, 0), SpinStep::Sleep(875_000));
    assert_eq!(spin_sleep(1_000_000, &mut wait, 10), SpinStep::Yield);
    assert_eq!(spin_sleep(1_000_000, &mut wait, 20), SpinStep::Yield);
}

#[test]
fn short_waits_are_watched_from_the_beginning() {
    let mut wait = Wait::Begun;
    assert_eq!(spin_sleep(125_000, &mut wait, 0), SpinStep::Yield);
    assert_eq!(wait, Wait::Watching);
    assert_eq!(spin_sleep(125_000, &mut Wait::Begun, 125_000), SpinStep::Done);
    assert_eq!(spin_sleep(0, &mut Wait::Begun, 0), SpinStep::Done);
}

#[test]
fn object_ids_are_not_zero() {
    assert_eq!(ObjectId::new(0), None);
    assert_eq!(object(u32::MAX).get(), u32::MAX);
}

#[test]
fn events_go_to_whoever_handles_them() {
    let globals = Globals {
        display: object(1),
        registry: object(2),
        compositor: object(3),
        shm: object(4),
        viewporter: object(5),
        layer_shell: object(6),
    };
    let expected = [
        (1, None, Route::Display),
        (2, None, Route::Registry),
        (3, None, Route::NoEvents(Silent::Compositor)),
        (4, None, Route::Shm),
        (5, None, Route::NoEvents(Silent::Viewporter)),
        (6, Some(WlDynObj::Output), Route::NoEvents(Silent::LayerShell)),
        (7, Some(WlDynObj::Output), Route::Output),
        (7, Some(WlDynObj::Surface), Route::Surface),
        (7, Some(WlDynObj::Region), Route::NoEvents(Silent::Region)),
        (7, Some(WlDynObj::LayerSurface), Route::LayerSurface),
        (7, Some(WlDynObj::Buffer), Route::Buffer),
        (7, Some(WlDynObj::ShmPool), Route::NoEvents(Silent::ShmPool)),
        (7, Some(WlDynObj::Callback), Route::Callback),
        (7, Some(WlDynObj::Viewport), Route::NoEvents(Silent::Viewport)),
        (7, Some(WlDynObj::FractionalScale), Route::FractionalScale),
        (7, None, Route::Deleted),
    ];
    for (sender, kind, to) in expected {
        assert_eq!(route(&globals, object(sender), kind), to);
    }
}

#[test]
fn quiet_loggers_log_errors_alone() {
    let logger = make_logger(true, false);
    assert_eq!(logger.level_filter(), LevelFilter::Error);
    assert!(logger.enabled(Level::Error));
    for level in [Level::Warn, Level::Info, Level::Debug, Level::Trace] {
        assert!(!logger.enabled(level));
        assert_eq!(logger.log(5, level, "x"), None);
    }
}

#[test]
fn other_loggers_log_all_but_traces() {
    let logger = make_logger(false, false);
    assert_eq!(logger.level_filter(), LevelFilter::Debug);
    for level in [Level::Error, Level::Warn, Level::Info, Level::Debug] {
        assert!(logger.enabled(level));
    }
    assert!(!logger.enabled(Level::Trace));
}

#[test]
fn lines_are_aligned() {
    let logger = make_logger(false, false);
    let line = |time: u128, level| logger.log(time, level, "hello").unwrap();
    assert_eq!(line(0, Level::Error), format!("{:>10}ms {} {}\n", 0, "[ERROR]", "hello"));
    assert_eq!(line(1203, Level::Warn), "      1203ms [WARN]  hello\n");
    assert_eq!(line(9_999_999_999, Level::Info), "9999999999ms [INFO]  hello\n");
    assert_eq!(line(10_000_000_000, Level::Debug), "10000000000ms [DEBUG] hello\n");
    assert_eq!(line(u128::MAX, Level::Debug), format!("{}ms [DEBUG] hello\n", u128::MAX));
}

#[test]
fn terminals_get_colors() {
    let logger = make_logger(false, true);
    let line = |level| logger.log(7, level, "m").unwrap();
    assert_eq!(line(Level::Error), "         7ms \x1b[31m[ERROR]\x1b[0m m\n");
    assert_eq!(line(Level::Warn), "         7ms \x1b[33m[WARN]\x1b[0m  m\n");
    assert_eq!(line(Level::Info), "         7ms \x1b[32m[INFO]\x1b[0m  m\n");
    assert_eq!(line(Level::Debug), "         7ms \x1b[36m[DEBUG]\x1b[0m m\n");
}

#[test]
fn daemons_are_recognised_by_their_pong() {
    assert_eq!(is_daemon_running(Probe::Unreachable), Ok(false));
    assert_eq!(is_daemon_running(Probe::Answered(Answer::Ping(false))), Ok(true));
    assert_eq!(is_daemon_running(Probe::Answered(Answer::Ping(true))), Ok(true));
    assert_eq!(is_daemon_running(Probe::Unsent("a".to_string())), Err("a".to_string()));
    assert_eq!(is_daemon_running(Probe::Unanswered("b".to_string())), Err("b".to_string()));
    for answer in [Answer::Done, Answer::Info(vec![])] {
        assert_eq!(
            is_daemon_running(Probe::Answered(answer)),
            Err("Daemon did not return Answer::Ping, as expected".to_string())
        );
    }
}

/// The words of a failure after these events.
fn failure(events: Vec<SetupEvent>) -> String {
    let mut step = Setup::new();
    for event in events {
        step = step.next(event);
    }
    match step {
        Setup::Failed(reason) => reason,
        _ => panic!("the setup has not failed"),
    }
}

#[test]
fn sockets_are_made_where_there_is_none() {
    let step = Setup::new().next(SetupEvent::Is(false));
    assert!(matches!(step, Setup::FindParent));
    let step = step.next(SetupEvent::Is(true));
    assert!(matches!(step, Setup::FindDirectory));
    let step = step.next(SetupEvent::Is(false));
    assert!(matches!(step, Setup::MakeDirectory));
    let step = step.next(SetupEvent::Did(Ok(())));
    assert!(matches!(step, Setup::Listen));
    let step = step.next(SetupEvent::Did(Ok(())));
    assert!(matches!(step, Setup::Ready));
    assert!(matches!(step.next(SetupEvent::Is(true)), Setup::Ready));
}

#[test]
fn sockets_left_behind_are_removed() {
    let step = Setup::new().next(SetupEvent::Is(true));
    assert!(matches!(step, Setup::FindDaemon));
    let step = step.next(SetupEvent::Running(Ok(false)));
    assert!(matches!(step, Setup::RemoveSocket));
    let step = step.next(SetupEvent::Did(Ok(())));
    assert!(matches!(step, Setup::FindParent));
    let step = step.next(SetupEvent::Is(true)).next(SetupEvent::Is(true));
    assert!(matches!(step, Setup::Listen));
}

#[test]
fn setup_failures_say_why() {
    let e = || Err("why".to_string());
    assert_eq!(
        failure(vec![SetupEvent::Is(true), SetupEvent::Running(Ok(true))]),
        "There is an swww-daemon instance already running on this socket!"
    );
    assert_eq!(
        failure(vec![SetupEvent::Is(true), SetupEvent::Running(Err("why".to_string()))]),
        "why"
    );
    assert_eq!(
        failure(vec![
            SetupEvent::Is(true),
            SetupEvent::Running(Ok(false)),
            SetupEvent::Did(e())
        ]),
        "failed to delete previous socket: why"
    );
    assert_eq!(
        failure(vec![SetupEvent::Is(false), SetupEvent::Is(false)]),
        "couldn't find a valid runtime directory"
    );
    assert_eq!(
        failure(vec![
            SetupEvent::Is(false),
            SetupEvent::Is(true),
            SetupEvent::Is(false),
            SetupEvent::Did(e())
        ]),
        "failed to create runtime dir: why"
    );
    assert_eq!(
        failure(vec![
            SetupEvent::Is(false),
            SetupEvent::Is(true),
            SetupEvent::Is(true),
            SetupEvent::Did(e())
        ]),
        "why"
    );
}

#[test]
fn loops_serve_the_compositor_before_clients_and_draw_last() {
    let exit = ExitFlag::new();
    let mut main = EventLoop::new();
    let step = main.next(LoopEvent::Begun, &exit, PollTime::Never);
    assert!(matches!(step, LoopStep::Poll(-1)));
    let step = main.next(LoopEvent::Polled(Ok((true, true))), &exit, PollTime::Never);
    assert!(matches!(step, LoopStep::Receive));
    let step = main.next(LoopEvent::Received(Ok(())), &exit, PollTime::Never);
    assert!(matches!(step, LoopStep::Handle));
    let step = main.next(LoopEvent::Handled, &exit, PollTime::Never);
    assert!(matches!(step, LoopStep::Accept));
    let step = main.next(LoopEvent::Accepted(Ok(())), &exit, PollTime::Never);
    assert!(matches!(step, LoopStep::Serve));
    let step = main.next(LoopEvent::Served, &exit, PollTime::Instant);
    assert!(matches!(step, LoopStep::Draw));
    let step = main.next(LoopEvent::Drawn, &exit, PollTime::Short);
    assert!(matches!(step, LoopStep::Poll(1)));
    let step = main.next(LoopEvent::Polled(Ok((false, false))), &exit, PollTime::Short);
    assert!(matches!(step, LoopStep::Draw));
    let step = main.next(LoopEvent::Polled(Ok((true, false))), &exit, PollTime::Never);
    assert!(matches!(step, LoopStep::Receive));
    let step = main.next(LoopEvent::Handled, &exit, PollTime::Never);
    assert!(matches!(step, LoopStep::Poll(-1)));
}

#[test]
fn interruptions_start_a_new_round_without_drawing() {
    let exit = ExitFlag::new();
    let mut main = EventLoop::new();
    for event in [
        LoopEvent::Polled(Err(error(IoErrorKind::Interrupted))),
        LoopEvent::Received(Err(error(IoErrorKind::Interrupted))),
        LoopEvent::Accepted(Err(error(IoErrorKind::Interrupted))),
        LoopEvent::Accepted(Err(error(IoErrorKind::WouldBlock))),
    ] {
        assert!(matches!(main.next(event, &exit, PollTime::Instant), LoopStep::Poll(0)));
    }
}

#[test]
fn loop_failures_say_why() {
    let exit = ExitFlag::new();
    let mut main = EventLoop::new();
    let mut words = |event| match main.next(event, &exit, PollTime::Never) {
        LoopStep::Fail(reason) => reason,
        _ => panic!("the loop has not failed"),
    };
    for kind in [IoErrorKind::WouldBlock, IoErrorKind::Other] {
        assert_eq!(
            words(LoopEvent::Polled(Err(error(kind)))),
            "failed to poll file descriptors: why"
        );
        assert_eq!(
            words(LoopEvent::Received(Err(error(kind)))),
            "failed to receive wire message: why"
        );
    }
    assert_eq!(
        words(LoopEvent::Accepted(Err(error(IoErrorKind::Other)))),
        "failed to accept incoming connection: why"
    );
}

#[test]
fn loops_stop_when_asked_to() {
    let mut exit = ExitFlag::new();
    exit_daemon(&mut exit);
    let mut main = EventLoop::new();
    assert!(matches!(main.next(LoopEvent::Begun, &exit, PollTime::Short), LoopStep::Stop));
    assert!(matches!(main.next(LoopEvent::Drawn, &exit, PollTime::Short), LoopStep::Stop));
    assert!(matches!(main.next(LoopEvent::Served, &exit, PollTime::Never), LoopStep::Stop));
    assert!(matches!(main.next(LoopEvent::Served, &exit, PollTime::Short), LoopStep::Draw));
}

use swww_daemon::animator::Animator;
use swww_daemon::daemon::draw::{Draw, Stage};
use swww_daemon::daemon::serve::{Answer, ImageReq, Request, Served};
use swww_daemon::daemon::{Daemon, GlobalAction, InitState, Outcome, ReleaseStep};
use swww_daemon::exit::{should_daemon_exit, ExitFlag};
use swww_daemon::objects::ObjectId;
use swww_daemon::poll::PollTime;
use swww_daemon::wallpaper::{
    BgImg, BgInfo, Key, OutputBinding, PixelFormat, Scale, WallpaperId,
};

type Core = Daemon<u8, &'static str, &'static str>;
type Req = Request<u8, &'static str, &'static str>;
type Step = Served<u8, &'static str, &'static str, u8, &'static str, &'static str>;

fn object(id: u32) -> ObjectId {
    ObjectId::new(id).unwrap()
}

/// The name in the registry of output number `n`.
fn registered(n: u32) -> u32 {
    100 + n
}

/// The output number `n`: its objects are numbered `10 * n` and up.
fn binding(n: u32) -> OutputBinding<u8> {
    OutputBinding {
        output: object(10 * n),
        surface: object(10 * n + 1),
        layer_surface: object(10 * n + 2),
        fractional_scale: Some(object(10 * n + 3)),
        callback: Some(object(10 * n + 4)),
        draw_ready: true,
        configured: true,
        resources: n as u8,
    }
}

/// A daemon with outputs 1 to `n`, called DP-1, DP-2 and so on.
fn daemon(n: u32) -> Core {
    let init = InitState {
        outputs: (1..=n).map(|k| (registered(k), binding(k))).collect(),
        fractional_scale: Some(object(7)),
        fractional_scale_support: true,
        pixel_format: PixelFormat::Xrgb,
    };
    let mut daemon = Daemon::new(init, false);
    for k in 1..=n {
        let name = format!("DP-{k}");
        assert_eq!(
            daemon.name(object(10 * k), &name),
            Outcome::Applied(WallpaperId { serial: u64::from(k) - 1 })
        );
    }
    daemon
}

fn id(serial: u64) -> WallpaperId {
    WallpaperId { serial }
}

fn names(list: &[&str]) -> Vec<String> {
    list.iter().map(|n| n.to_string()).collect()
}

fn images(
    imgs: Vec<&'static str>,
    outputs: &[&[&str]],
    animations: Option<Vec<&'static str>>,
) -> Req {
    Request::Img(ImageReq {
        transition: 42,
        imgs,
        outputs: outputs.iter().map(|o| names(o)).collect(),
        animations,
    })
}

fn drive<E>(animators: &[Animator<E>]) -> Vec<Vec<u64>> {
    animators
        .iter()
        .map(|a| a.wallpapers().iter().map(|w| w.serial).collect())
        .collect()
}

/// Serves a request for images, in which every transition comes about and does what the image says.
fn show(daemon: Core, request: Req) -> Core {
    let mut exit = ExitFlag::new();
    let mut step: Step = daemon.recv_socket_msg(Some(request), &mut exit);
    loop {
        step = match step {
            Served::Transition { pending, img, .. } => pending.started(Some(img)),
            Served::Reply { daemon, answer } => {
                assert_eq!(answer, Answer::Done);
                assert!(!should_daemon_exit(&exit));
                return daemon;
            }
            _ => panic!("not what a request for images comes to"),
        }
    }
}

#[test]
fn new_daemon_has_a_wallpaper_for_each_output() {
    let daemon: Core = Daemon::new(
        InitState {
            outputs: vec![(registered(1), binding(1)), (registered(2), binding(2))],
            fractional_scale: None,
            fractional_scale_support: false,
            pixel_format: PixelFormat::Bgr,
        },
        true,
    );
    assert_eq!(daemon.wallpapers().len(), 2);
    assert_eq!(daemon.wallpapers()[0].id(), id(0));
    assert_eq!(daemon.wallpapers()[1].id(), id(1));
    assert_eq!(*daemon.wallpapers()[1].resources(), 2);
    assert!(daemon.transition_animators().is_empty());
    assert!(daemon.image_animators().is_empty());
    assert_eq!(daemon.poll_time(), PollTime::Never);
    assert!(!daemon.use_cache());
    assert_eq!(daemon.pixel_format(), PixelFormat::Bgr);
    assert_eq!(daemon.fractional_scale_manager(), None);
}

#[test]
fn caching_is_on_unless_it_is_switched_off() {
    let daemon = daemon(0);
    assert!(daemon.use_cache());
    assert_eq!(daemon.fractional_scale_manager(), Some(object(7)));
}

#[test]
fn only_outputs_of_a_recent_version_are_bound() {
    let daemon = daemon(1);
    assert_eq!(daemon.global(55, "wl_output", 4), GlobalAction::Bind(55));
    assert_eq!(daemon.global(55, "wl_output", 5), GlobalAction::Bind(55));
    assert_eq!(daemon.global(55, "wl_output", 3), GlobalAction::TooOld);
    assert_eq!(daemon.global(55, "wl_seat", 3), GlobalAction::Ignore);
    assert_eq!(daemon.global(55, "wl_seat", 9), GlobalAction::Ignore);
}

#[test]
fn new_outputs_get_new_wallpapers() {
    let mut daemon = daemon(2);
    assert!(daemon.global_remove(102).is_some());
    assert_eq!(daemon.new_output(registered(3), binding(3)), id(2));
    assert!(daemon.wallpaper(id(1)).is_none());
    assert_eq!(*daemon.wallpaper(id(2)).unwrap().resources(), 3);
}

#[test]
fn object_zero_is_never_deleted() {
    let daemon = daemon(1);
    assert_eq!(daemon.delete_id(0), None);
    assert_eq!(daemon.delete_id(9).unwrap().get(), 9);
}

#[test]
fn transforms_that_exist_are_taken() {
    let mut daemon = daemon(2);
    assert_eq!(daemon.geometry(object(20), 0), Outcome::Applied(id(1)));
    assert_eq!(daemon.wallpapers()[1].transform(), Some(0));
    assert_eq!(daemon.geometry(object(20), 7), Outcome::Applied(id(1)));
    assert_eq!(daemon.wallpapers()[1].transform(), Some(7));
    assert_eq!(daemon.wallpapers()[0].transform(), None);
}

#[test]
fn transforms_that_do_not_exist_are_rejected() {
    let mut daemon = daemon(1);
    assert_eq!(daemon.geometry(object(10), 3), Outcome::Applied(id(0)));
    assert_eq!(daemon.geometry(object(10), 8), Outcome::Rejected);
    assert_eq!(daemon.geometry(object(10), -1), Outcome::Rejected);
    assert_eq!(daemon.geometry(object(10), i32::MIN), Outcome::Rejected);
    assert_eq!(daemon.wallpapers()[0].transform(), Some(3));
    assert_eq!(daemon.geometry(object(99), 3), Outcome::UnknownSender);
    assert_eq!(daemon.geometry(object(99), 8), Outcome::UnknownSender);
}

#[test]
fn queries_tell_what_was_announced() {
    let mut daemon = daemon(2);
    assert_eq!(daemon.mode(object(20), 1920, 1080), Outcome::Applied(id(1)));
    assert_eq!(daemon.scale(object(20), 2), Outcome::Applied(id(1)));
    assert_eq!(daemon.description(object(20), "a screen"), Outcome::Applied(id(1)));
    daemon.set_img_info(id(1), BgImg::Img("/tmp/x.png".to_string()));
    assert_eq!(daemon.wallpapers()[1].desc().as_deref(), Some("a screen"));
    let infos = daemon.wallpapers_info();
    assert_eq!(
        infos,
        vec![
            BgInfo {
                name: Some("DP-1".to_string()),
                dimensions: None,
                scale: None,
                img: None,
                pixel_format: PixelFormat::Xrgb,
            },
            BgInfo {
                name: Some("DP-2".to_string()),
                dimensions: Some((1920, 1080)),
                scale: Some(Scale::Whole(2)),
                img: Some(BgImg::Img("/tmp/x.png".to_string())),
                pixel_format: PixelFormat::Xrgb,
            },
        ]
    );
    let mut exit = ExitFlag::new();
    let step: Step = daemon.recv_socket_msg(Some(Request::Query), &mut exit);
    match step {
        Served::Reply { answer, .. } => assert_eq!(answer, Answer::Info(infos)),
        _ => panic!("a query is answered"),
    }
}

#[test]
fn scales_of_zero_are_rejected() {
    let mut daemon = daemon(1);
    assert_eq!(daemon.scale(object(10), 0), Outcome::Rejected);
    assert_eq!(daemon.preferred_buffer_scale(object(11), 0), Outcome::Rejected);
    assert_eq!(daemon.preferred_scale(object(13), 0), Outcome::Rejected);
    assert_eq!(daemon.wallpapers_info()[0].scale, None);
}

#[test]
fn scales_are_looked_up_by_the_object_they_are_about() {
    let mut daemon = daemon(2);
    assert_eq!(daemon.preferred_buffer_scale(object(21), -3), Outcome::Applied(id(1)));
    assert_eq!(daemon.wallpapers_info()[1].scale, Some(Scale::Whole(-3)));
    assert_eq!(daemon.preferred_scale(object(23), 180), Outcome::Commit(id(1)));
    assert_eq!(daemon.wallpapers_info()[1].scale, Some(Scale::Fractional(180)));
    assert_eq!(daemon.preferred_scale(object(21), 180), Outcome::UnknownSender);
    assert_eq!(daemon.scale(object(21), 1), Outcome::UnknownSender);
}

#[test]
fn large_fractions_wrap() {
    let mut daemon = daemon(1);
    assert_eq!(daemon.preferred_scale(object(13), u32::MAX), Outcome::Commit(id(0)));
    assert_eq!(daemon.wallpapers_info()[0].scale, Some(Scale::Fractional(-1)));
    assert_eq!(daemon.preferred_scale(object(13), 0x8000_0000), Outcome::Commit(id(0)));
    assert_eq!(daemon.wallpapers_info()[0].scale, Some(Scale::Fractional(i32::MIN)));
}

#[test]
fn names_select_wallpapers_in_order() {
    let daemon = daemon(3);
    assert_eq!(daemon.find_wallpapers_by_names(&names(&[])), vec![id(0), id(1), id(2)]);
    assert_eq!(
        daemon.find_wallpapers_by_names(&names(&["DP-3", "DP-1"])),
        vec![id(0), id(2)]
    );
    assert_eq!(daemon.find_wallpapers_by_names(&names(&["HDMI-1"])), vec![]);
    assert_eq!(
        daemon.find_wallpapers_by_names(&names(&["DP-2", "DP-2", "x"])),
        vec![id(1)]
    );
}

#[test]
fn wallpapers_without_a_name_are_found_only_by_no_names() {
    let mut daemon = daemon(1);
    let new = daemon.new_output(registered(2), binding(2));
    assert_eq!(daemon.find_wallpapers_by_names(&names(&["DP-1", ""])), vec![id(0)]);
    assert_eq!(daemon.find_wallpapers_by_names(&names(&[])), vec![id(0), new]);
}

#[test]
fn wallpapers_have_the_objects_they_were_bound_with() {
    let daemon = daemon(1);
    let w = daemon.wallpaper(id(0)).unwrap();
    assert!(w.has(Key::Id(id(0))) && !w.has(Key::Id(id(1))));
    assert!(w.has(Key::OutputName(101)) && !w.has(Key::OutputName(10)));
    assert!(w.has(Key::Output(object(10))) && !w.has(Key::Output(object(11))));
    assert!(w.has(Key::Surface(object(11))) && !w.has(Key::Surface(object(10))));
    assert!(w.has(Key::LayerSurface(object(12))) && !w.has(Key::LayerSurface(object(10))));
    assert!(w.has(Key::FractionalScale(object(13))) && !w.has(Key::FractionalScale(object(10))));
    assert!(w.has(Key::Callback(object(14))) && !w.has(Key::Callback(object(10))));
}

#[test]
fn pings_tell_whether_all_is_configured() {
    for (configured, expected) in [(true, true), (false, false)] {
        let mut daemon = daemon(2);
        daemon.surface_committed(id(1), configured, false);
        let mut exit = ExitFlag::new();
        let step: Step = daemon.recv_socket_msg(Some(Request::Ping), &mut exit);
        match step {
            Served::Reply { answer, .. } => assert_eq!(answer, Answer::Ping(expected)),
            _ => panic!("a ping is answered"),
        }
        assert!(!should_daemon_exit(&exit));
    }
}

#[test]
fn pings_without_outputs_find_all_configured() {
    let mut exit = ExitFlag::new();
    let step: Step = daemon(0).recv_socket_msg(Some(Request::Ping), &mut exit);
    assert!(matches!(step, Served::Reply { answer: Answer::Ping(true), .. }));
}

#[test]
fn kill_is_answered_and_stops_the_daemon() {
    let mut exit = ExitFlag::new();
    let step: Step = daemon(1).recv_socket_msg(Some(Request::Kill), &mut exit);
    assert!(matches!(step, Served::Reply { answer: Answer::Done, .. }));
    assert!(should_daemon_exit(&exit));
}

#[test]
fn unreadable_requests_stop_the_daemon_without_an_answer() {
    let mut exit = ExitFlag::new();
    let step: Step = daemon(1).recv_socket_msg(None, &mut exit);
    assert!(matches!(step, Served::Silent(_)));
    assert!(should_daemon_exit(&exit));
}

#[test]
fn images_are_begun_from_the_last_one_on() {
    let mut exit = ExitFlag::new();
    let request = images(
        vec!["a", "b", "c"],
        &[&["DP-1"], &["DP-2"]],
        Some(vec!["animated"]),
    );
    let step: Step = daemon(3).recv_socket_msg(Some(request), &mut exit);
    let Served::Transition { pending, img, animation } = step else {
        panic!("the first image is begun");
    };
    assert_eq!((img, animation), ("c", Some("animated")));
    assert_eq!(*pending.wallpapers(), vec![id(1)]);
    assert_eq!(*pending.transition(), 42);
    let Served::Transition { pending, img, animation } = pending.started(Some(img)) else {
        panic!("the second image is begun");
    };
    assert_eq!((img, animation), ("b", None));
    assert_eq!(*pending.wallpapers(), vec![id(0)]);
    assert_eq!(pending.daemon().poll_time(), PollTime::Never);
    let Served::Reply { daemon, answer } = pending.started(None) else {
        panic!("there are no more outputs");
    };
    assert_eq!(answer, Answer::Done);
    assert_eq!(daemon.poll_time(), PollTime::Instant);
    assert_eq!(drive(daemon.transition_animators()), vec![vec![1]]);
    assert_eq!(*daemon.transition_animators()[0].effect(), "c");
}

#[test]
fn what_fills_a_wallpaper_does_not_change_whom_names_mean() {
    let mut exit = ExitFlag::new();
    let request = images(vec!["a", "b"], &[&["DP-1"], &["DP-2"]], None);
    let step: Step = daemon(2).recv_socket_msg(Some(request), &mut exit);
    let Served::Transition { mut pending, .. } = step else { panic!("the first image is begun") };
    pending.set_img_info(id(1), BgImg::Img("b".to_owned()));
    let Served::Transition { mut pending, img, .. } = pending.started(Some("b")) else {
        panic!("the second image is begun");
    };
    assert_eq!(img, "a");
    assert_eq!(*pending.wallpapers(), vec![id(0)]);
    pending.set_img_info(id(0), BgImg::Img("a".to_owned()));
    let Served::Reply { daemon, answer } = pending.started(Some("a")) else {
        panic!("there are no more images");
    };
    assert_eq!(answer, Answer::Done);
    let told: Vec<_> = daemon.wallpapers_info().into_iter().map(|info| info.img).collect();
    assert_eq!(
        told,
        vec![Some(BgImg::Img("a".to_owned())), Some(BgImg::Img("b".to_owned()))]
    );
    assert_eq!(drive(daemon.transition_animators()), vec![vec![1], vec![0]]);
}

#[test]
fn the_first_group_keeps_a_wallpaper() {
    let lists: &[&[&str]] = &[&["DP-1", "DP-2"], &["DP-2", "DP-3"]];
    let daemon = show(daemon(3), images(vec!["first", "second"], lists, None));
    assert_eq!(drive(daemon.transition_animators()), vec![vec![2], vec![0, 1]]);
    assert_eq!(*daemon.transition_animators()[0].effect(), "second");
    assert_eq!(*daemon.transition_animators()[1].effect(), "first");
}

#[test]
fn a_transition_that_does_not_come_about_leaves_nothing_behind() {
    let mut exit = ExitFlag::new();
    let lists: &[&[&str]] = &[&["DP-1"], &["DP-1", "DP-2"]];
    let step: Step = daemon(2).recv_socket_msg(
        Some(images(vec!["first", "second"], lists, None)),
        &mut exit,
    );
    let Served::Transition { pending, .. } = step else { panic!("the first image is begun") };
    let Served::Transition { pending, .. } = pending.started(Some("second")) else {
        panic!("the second image is begun");
    };
    let Served::Reply { daemon, .. } = pending.started(None) else { panic!("that was all") };
    assert_eq!(drive(daemon.transition_animators()), vec![vec![1]]);
}

#[test]
fn requests_without_images_still_have_drawing_done_at_once() {
    let daemon = show(daemon(1), images(vec![], &[&[]], None));
    assert_eq!(daemon.poll_time(), PollTime::Instant);
    assert!(daemon.transition_animators().is_empty());
}

#[test]
fn new_images_take_wallpapers_over() {
    let daemon = show(daemon(3), images(vec!["old"], &[&[]], None));
    assert_eq!(drive(daemon.transition_animators()), vec![vec![0, 1, 2]]);
    let daemon = show(daemon, images(vec!["new"], &[&["DP-2"]], None));
    assert_eq!(drive(daemon.transition_animators()), vec![vec![0, 2], vec![1]]);
    let daemon = show(daemon, images(vec!["newest"], &[&["DP-1", "DP-3"]], None));
    assert_eq!(drive(daemon.transition_animators()), vec![vec![1], vec![0, 2]]);
    assert_eq!(*daemon.transition_animators()[1].effect(), "newest");
}

#[test]
fn clearing_stops_animations_and_shows_the_color() {
    let daemon = show(daemon(2), images(vec!["old"], &[&[]], None));
    let mut exit = ExitFlag::new();
    let request = Request::Clear { color: [1, 2, 3], outputs: names(&["DP-2"]) };
    let step: Step = daemon.recv_socket_msg(Some(request), &mut exit);
    let Served::Clear { daemon, wallpapers, color, answer } = step else {
        panic!("the outputs are cleared");
    };
    assert_eq!(wallpapers, vec![id(1)]);
    assert_eq!(color, [1, 2, 3]);
    assert_eq!(answer, Answer::Done);
    assert_eq!(drive(daemon.transition_animators()), vec![vec![0]]);
    let infos = daemon.wallpapers_info();
    assert_eq!(infos[0].img, None);
    assert_eq!(infos[1].img, Some(BgImg::Color([1, 2, 3])));
}

#[test]
fn stopping_one_after_another_is_stopping_all() {
    let request = || images(vec!["b", "a"], &[&["DP-1"], &["DP-2", "DP-3"]], None);
    let orders: [&[&[u64]]; 3] = [&[&[0], &[2]], &[&[2], &[0]], &[&[0, 2]]];
    for order in orders {
        let mut daemon = show(daemon(3), request());
        for stopped in order {
            daemon.stop_animations(&stopped.iter().map(|n| id(*n)).collect());
        }
        assert_eq!(drive(daemon.transition_animators()), vec![vec![1]]);
        assert_eq!(*daemon.transition_animators()[0].effect(), "a");
    }
}

#[test]
fn removing_an_output_undoes_adding_it() {
    let mut daemon = show(daemon(2), images(vec!["x", "y"], &[&["DP-1"], &["DP-2"]], None));
    let told = daemon.wallpapers_info();
    let GlobalAction::Bind(name) = daemon.global(103, "wl_output", 4) else {
        panic!("it is an output");
    };
    assert_eq!(name, registered(3));
    assert_eq!(daemon.new_output(registered(3), binding(3)), id(2));
    assert_eq!(daemon.wallpapers().len(), 3);
    assert_eq!(daemon.global_remove(name).map(|w| w.id()), Some(id(2)));
    assert_eq!(daemon.wallpapers_info(), told);
    let left: Vec<_> = daemon.wallpapers().iter().map(|w| w.id()).collect();
    assert_eq!(left, vec![id(0), id(1)]);
    assert_eq!(drive(daemon.transition_animators()), vec![vec![1], vec![0]]);
    assert!(daemon.image_animators().is_empty());
    // The identity is not given out again.
    assert_eq!(daemon.new_output(registered(3), binding(3)), id(3));
}

#[test]
fn lists_of_names_add_up() {
    let daemon = daemon(3);
    for list in [&["DP-3", "DP-1"][..], &["DP-1", "DP-3"], &["DP-1", "DP-3", "DP-1", "DP-3"]] {
        assert_eq!(daemon.find_wallpapers_by_names(&names(list)), vec![id(0), id(2)]);
    }
}

#[test]
fn stopping_twice_is_stopping_once() {
    let mut daemon = show(daemon(3), images(vec!["b", "a"], &[&["DP-1"], &["DP-2", "DP-3"]], None));
    daemon.stop_animations(&vec![id(0), id(2)]);
    assert_eq!(drive(daemon.transition_animators()), vec![vec![1]]);
    daemon.stop_animations(&vec![id(0), id(2)]);
    assert_eq!(drive(daemon.transition_animators()), vec![vec![1]]);
}

#[test]
fn closed_surfaces_take_their_animations_along() {
    let mut daemon = show(daemon(2), images(vec!["x"], &[&[]], None));
    assert!(daemon.closed(object(10)).is_none());
    let gone = daemon.closed(object(12)).unwrap();
    assert_eq!(gone.id(), id(0));
    assert_eq!(daemon.wallpapers().len(), 1);
    assert_eq!(drive(daemon.transition_animators()), vec![vec![1]]);
    assert!(daemon.global_remove(102).is_some());
    assert!(daemon.transition_animators().is_empty());
    assert!(daemon.global_remove(102).is_none());
}

#[test]
fn commits_that_make_animations_pointless_stop_them() {
    let mut daemon = show(daemon(2), images(vec!["x"], &[&[]], None));
    assert_eq!(daemon.done(object(20)), Some(id(1)));
    assert_eq!(daemon.done(object(21)), None);
    daemon.surface_committed(id(1), true, false);
    assert_eq!(drive(daemon.transition_animators()), vec![vec![0, 1]]);
    daemon.surface_committed(id(1), true, true);
    assert_eq!(drive(daemon.transition_animators()), vec![vec![0]]);
}

#[test]
fn configurations_of_known_layer_surfaces_are_acknowledged() {
    let daemon = daemon(1);
    assert!(daemon.configure(object(12)));
    assert!(!daemon.configure(object(11)));
}

#[test]
fn buffers_are_looked_for_in_turn() {
    let daemon = show(daemon(2), images(vec!["x"], &[&["DP-2"]], None));
    assert_eq!(
        daemon.release(),
        ReleaseStep::Try { index: 0, wallpaper: id(0), strong_count: 1 }
    );
    assert_eq!(
        daemon.release_tried(0, false),
        ReleaseStep::Try { index: 1, wallpaper: id(1), strong_count: 2 }
    );
    assert_eq!(daemon.release_tried(0, true), ReleaseStep::Done);
    assert_eq!(daemon.release_tried(1, false), ReleaseStep::Done);
    assert_eq!(daemon.release_tried(usize::MAX, false), ReleaseStep::Done);
}

#[test]
fn drawing_nothing_is_over_at_once() {
    let daemon = show(daemon(1), images(vec![], &[], None));
    assert_eq!(daemon.poll_time(), PollTime::Instant);
    match daemon.draw() {
        Draw::Done(daemon) => assert_eq!(daemon.poll_time(), PollTime::Never),
        _ => panic!("there is nothing to draw"),
    }
}

#[test]
fn frames_that_are_due_later_are_left_for_a_short_poll() {
    let daemon = show(daemon(1), images(vec!["x"], &[&[]], None));
    let Draw::Time(pass) = daemon.draw() else { panic!("the transition is ready") };
    assert_eq!(pass.stage(), Stage::Transition(0));
    match pass.timed(1_200_001) {
        Draw::Done(daemon) => {
            assert_eq!(daemon.poll_time(), PollTime::Short);
            assert_eq!(daemon.transition_animators().len(), 1);
        }
        _ => panic!("the frame is not due yet"),
    }
}

#[test]
fn frames_that_are_due_soon_are_waited_for() {
    for (time, expected) in [(0, None), (1, Some(1)), (1_200_000, Some(1_200_000))] {
        let daemon = show(daemon(1), images(vec!["x"], &[&[]], None));
        let Draw::Time(pass) = daemon.draw() else { panic!("the transition is ready") };
        let Draw::Frame { mut pass, wait } = pass.timed(time) else { panic!("the frame is due") };
        assert_eq!(wait, expected);
        assert_eq!(*pass.wallpapers(), vec![id(0)]);
        assert!(pass.image().is_none());
        *pass.transition().unwrap() = "moved on";
        pass.frame_requested(id(0), object(500));
        let Draw::Done(daemon) = pass.drawn(false) else { panic!("that was the only one") };
        assert_eq!(*daemon.transition_animators()[0].effect(), "moved on");
        assert_eq!(daemon.poll_time(), PollTime::Never);
        assert!(!daemon.wallpapers()[0].is_draw_ready());
    }
}

#[test]
fn what_waits_for_a_callback_is_not_drawn_on() {
    let mut daemon = show(daemon(2), images(vec!["x"], &[&[]], None));
    daemon.frame_requested(id(1), object(500));
    let Draw::Done(daemon) = daemon.draw() else { panic!("one wallpaper is not ready") };
    assert_eq!(daemon.poll_time(), PollTime::Short);
    let Draw::Done(daemon) = daemon.callback_done(object(24)) else {
        panic!("that callback is not waited for any more");
    };
    let Draw::Time(pass) = daemon.callback_done(object(500)) else {
        panic!("now both are ready");
    };
    assert_eq!(*pass.wallpapers(), vec![id(0), id(1)]);
    let Draw::Frame { pass, .. } = pass.timed(0) else { panic!("the frame is due") };
    let Draw::Done(daemon) = pass.drawn(false) else { panic!("that was the only one") };
    assert_eq!(daemon.poll_time(), PollTime::Never);
}

#[test]
fn what_waits_does_not_keep_others_from_drawing() {
    let mut daemon = show(daemon(2), images(vec!["x", "y"], &[&["DP-1"], &["DP-2"]], None));
    assert_eq!(drive(daemon.transition_animators()), vec![vec![1], vec![0]]);
    daemon.frame_requested(id(1), object(500));
    let Draw::Time(pass) = daemon.draw() else { panic!("one transition is ready") };
    assert_eq!(pass.stage(), Stage::Transition(1));
    let Draw::Frame { mut pass, .. } = pass.timed(0) else { panic!("its frame is due") };
    pass.frame_requested(id(0), object(501));
    let Draw::Done(daemon) = pass.drawn(false) else { panic!("the other one waits") };
    assert_eq!(daemon.poll_time(), PollTime::Short);
}

#[test]
fn images_wait_for_the_last_frame_of_their_transition() {
    let daemon = show(daemon(1), images(vec!["x"], &[&[]], None));
    let Draw::Time(pass) = daemon.draw() else { panic!("the transition is ready") };
    let Draw::Frame { mut pass, .. } = pass.timed(0) else { panic!("its frame is due") };
    pass.frame_requested(id(0), object(500));
    let Draw::Convert { conversion, .. } = pass.drawn(true) else { panic!("it is over") };
    let Draw::Done(daemon) = conversion.converted(Some("image")) else {
        panic!("the callback has not come back");
    };
    assert_eq!(daemon.poll_time(), PollTime::Short);
    assert_eq!(drive(daemon.image_animators()), vec![vec![0]]);
}

#[test]
fn finished_transitions_become_images() {
    let request = images(vec!["a", "b", "c"], &[&["DP-1"], &["DP-2"], &["DP-3"]], None);
    let daemon = show(daemon(3), request);
    assert_eq!(drive(daemon.transition_animators()), vec![vec![2], vec![1], vec![0]]);
    let Draw::Time(pass) = daemon.draw() else { panic!("the first one is asked") };
    let Draw::Frame { pass, .. } = pass.timed(0) else { panic!("its frame is due") };
    let Draw::Convert { conversion, effect } = pass.drawn(true) else { panic!("it is over") };
    assert_eq!(effect, "c");
    // The last transition has taken the place of the first, and is asked next.
    let Draw::Time(pass) = conversion.converted(Some("image")) else { panic!("next") };
    assert_eq!(pass.stage(), Stage::Transition(0));
    assert_eq!(*pass.wallpapers(), vec![id(0)]);
    let Draw::Frame { pass, .. } = pass.timed(0) else { panic!("its frame is due") };
    let Draw::Convert { conversion, effect } = pass.drawn(true) else { panic!("it is over") };
    assert_eq!(effect, "a");
    let Draw::Time(pass) = conversion.converted(None) else { panic!("next") };
    assert_eq!(*pass.wallpapers(), vec![id(1)]);
    let Draw::Time(pass) = pass.timed(2_000_000) else { panic!("the image follows") };
    assert_eq!(pass.stage(), Stage::Image(0));
    assert_eq!(*pass.wallpapers(), vec![id(2)]);
    let Draw::Frame { mut pass, .. } = pass.timed(0) else { panic!("its frame is due") };
    assert!(pass.transition().is_none());
    assert_eq!(*pass.image().unwrap(), "image");
    // An image is never over.
    let Draw::Done(daemon) = pass.drawn(true) else { panic!("that was the last one") };
    assert_eq!(drive(daemon.transition_animators()), vec![vec![1]]);
    assert_eq!(*daemon.transition_animators()[0].effect(), "b");
    assert_eq!(drive(daemon.image_animators()), vec![vec![2]]);
    assert_eq!(daemon.poll_time(), PollTime::Short);
}

#[test]
fn images_that_lost_their_wallpapers_are_dropped() {
    let daemon = show(daemon(1), images(vec!["x"], &[&["nobody"]], None));
    assert_eq!(drive(daemon.transition_animators()), vec![Vec::<u64>::new()]);
    let Draw::Time(pass) = daemon.draw() else { panic!("nothing keeps it from drawing") };
    let Draw::Frame { pass, .. } = pass.timed(0) else { panic!("its frame is due") };
    let Draw::Convert { conversion, .. } = pass.drawn(true) else { panic!("it is over") };
    let Draw::Done(daemon) = conversion.converted(Some("image")) else {
        panic!("the image has nothing to draw on");
    };
    assert!(daemon.image_animators().is_empty());
}

//! What holds of drawing, from the beginning of a pass to its end.

use vstd::prelude::*;

use crate::daemon::draw::{
    all_ready, converted, draw_begin, draw_next, drawn, is_ready, lemma_busy_wf,
    lemma_exclusive_push, lemma_image_added, lemma_same_lists, lemma_taken_out,
    lemma_with_image_wf, lemma_with_transition_wf, put_off, scan_images, scan_transitions,
    stage_in, with_image, timed, with_transition, Draw, DrawReply, DrawState, Stage,
};
use crate::daemon::{awaiting, is_first, lemma_changed_wf, position, DaemonState};
use crate::animator::{busy, drawn_on, is_busy, lemma_busy, AnimatorState};
use crate::objects::ObjectId;
use crate::poll::PollTime;
use crate::timing::DRAW_AHEAD;
use crate::wallpaper::{Key, WallpaperId, WallpaperState};

verus! {

/// Whether a frame may be drawn on all wallpapers of the animation that a pass has stopped at.
pub open spec fn stage_ready<S, T, I>(d: DaemonState<S, T, I>, stage: Stage) -> bool {
    match stage {
        Stage::Transition(i) => all_ready(d.wallpapers, d.transitions[i as int]),
        Stage::Image(i) => all_ready(d.wallpapers, d.images[i as int]),
    }
}

/// Whether a pass, where it asks for a frame or for the time of one, has stopped at an animation
/// that may draw.
pub open spec fn only_ready<S, T, I>(s: DrawState<S, T, I>) -> bool {
    match s {
        DrawState::Time { daemon, stage } => stage_ready(daemon, stage),
        DrawState::Frame { daemon, stage, .. } => stage_ready(daemon, stage),
        _ => true,
    }
}

/// Whether two daemons differ at most in when to come back.
pub open spec fn apart_from_time<S, T, I>(
    a: DaemonState<S, T, I>,
    b: DaemonState<S, T, I>,
) -> bool {
    a == (DaemonState { poll_time: a.poll_time, ..b })
}

/// Whether a pass is done with the transitions.
pub open spec fn at_images<S, T, I>(s: DrawState<S, T, I>) -> bool {
    match s {
        DrawState::Time { stage, .. } => stage is Image,
        DrawState::Frame { stage, .. } => stage is Image,
        DrawState::Convert { .. } => false,
        DrawState::Done { .. } => true,
    }
}

/// Whether what a pass comes to, when it goes on with the image at `i`, is one that waits for a
/// frame callback.
pub open spec fn waits_at_image<S, T, I>(d: DaemonState<S, T, I>, i: int) -> bool {
    i < d.images.len() && !all_ready(d.wallpapers, d.images[i])
}

/// Whether what a pass comes to, when it goes on with the transition at `i`, is an animation that
/// waits for a frame callback.
pub open spec fn waits_at_transition<S, T, I>(d: DaemonState<S, T, I>, i: int) -> bool {
    if i < d.transitions.len() {
        !all_ready(d.wallpapers, d.transitions[i])
    } else {
        waits_at_image(DaemonState { images: busy(d.images), ..d }, 0)
    }
}

/// What the search for the next transition or image comes to, whatever it starts from.
pub proof fn lemma_scan_transitions<S, T, I>(d: DaemonState<S, T, I>, i: int)
    requires
        0 <= i,
        d.transitions.len() <= usize::MAX,
        d.images.len() <= usize::MAX,
    ensures
        ({
            let s = scan_transitions(d, i);
            &&& s is Time || s is Done
            &&& s matches DrawState::Time { daemon, stage } ==> stage_in(daemon, stage)
            &&& only_ready(s)
            &&& if at_images(s) {
                apart_from_time(s.daemon(), DaemonState { images: busy(d.images), ..d })
            } else {
                apart_from_time(s.daemon(), d)
            }
            &&& s.daemon().poll_time == if waits_at_transition(d, i) {
                PollTime::Short
            } else {
                d.poll_time
            }
            &&& d.wf() ==> s.wf()
            &&& 0 <= work(s) <= 5 * left(d, i) + 2 * d.images.len()
        }),
    decreases d.transitions.len() - i,
{
    if i >= d.transitions.len() {
        d.images.lemma_filter_len(|a: AnimatorState<I>| is_busy(a));
        if d.wf() {
            lemma_busy_wf(d);
        }
        lemma_scan_images(DaemonState { images: busy(d.images), ..d }, 0);
    } else if !all_ready(d.wallpapers, d.transitions[i]) {
        if d.wf() {
            lemma_same_lists(d, put_off(d));
        }
        lemma_scan_transitions(put_off(d), i + 1);
    }
}

/// What the search for the next image comes to, whatever it starts from.
pub proof fn lemma_scan_images<S, T, I>(d: DaemonState<S, T, I>, i: int)
    requires
        0 <= i,
        d.images.len() <= usize::MAX,
    ensures
        ({
            let s = scan_images(d, i);
            &&& s is Time || s is Done
            &&& s matches DrawState::Time { daemon, stage } ==> stage_in(daemon, stage)
            &&& only_ready(s)
            &&& apart_from_time(s.daemon(), d)
            &&& s.daemon().poll_time == if waits_at_image(d, i) {
                PollTime::Short
            } else {
                d.poll_time
            }
            &&& s matches DrawState::Time { stage, .. } ==> stage is Image
            &&& d.wf() ==> s.wf()
            &&& 0 <= work(s) <= if i < d.images.len() {
                2 * (d.images.len() - i)
            } else {
                0
            }
        }),
    decreases d.images.len() - i,
{
    if i < d.images.len() && !all_ready(d.wallpapers, d.images[i]) {
        if d.wf() {
            lemma_same_lists(d, put_off(d));
        }
        lemma_scan_images(put_off(d), i + 1);
    }
}

/// How many transitions there are from `i` on.
pub open spec fn left<S, T, I>(d: DaemonState<S, T, I>, i: int) -> int {
    if i < d.transitions.len() {
        d.transitions.len() - i
    } else {
        0
    }
}

/// How many more things a pass can ask for, at most: three of each transition that is ahead, and
/// two of each image, which each of those transitions may become.
pub open spec fn work<S, T, I>(s: DrawState<S, T, I>) -> int {
    match s {
        DrawState::Time { daemon, stage: Stage::Transition(i) } => 5 * left(daemon, i as int) + 2
            * daemon.images.len(),
        DrawState::Frame { daemon, stage: Stage::Transition(i), .. } => 5 * left(daemon, i as int)
            + 2 * daemon.images.len() - 1,
        DrawState::Convert { daemon, index, .. } => 5 * left(daemon, index) + 2
            * daemon.images.len() + 3,
        DrawState::Time { daemon, stage: Stage::Image(i) } => 2 * (daemon.images.len() - i),
        DrawState::Frame { daemon, stage: Stage::Image(i), .. } => 2 * (daemon.images.len() - i)
            - 1,
        DrawState::Done { .. } => 0,
    }
}

/// Whether a reply is what a pass has asked for.
pub open spec fn answers<S, T, I>(s: DrawState<S, T, I>, reply: DrawReply<I>) -> bool {
    match s {
        DrawState::Time { .. } => reply is Time,
        DrawState::Frame { .. } => reply is Drawn,
        DrawState::Convert { .. } => reply is Converted,
        DrawState::Done { .. } => false,
    }
}

/// How many animations there are in a pass.
pub open spec fn total<S, T, I>(s: DrawState<S, T, I>) -> int {
    s.daemon().transitions.len() + s.daemon().images.len() + if s is Convert {
        1int
    } else {
        0
    }
}

/// Whether a pass is of a size that fits in memory.
pub open spec fn fits<S, T, I>(s: DrawState<S, T, I>) -> bool {
    total(s) <= usize::MAX
}

/// A pass comes to an end: whatever it is told, it asks for less and less.
pub proof fn law_passes_end<S, T, I>(s: DrawState<S, T, I>, reply: DrawReply<I>)
    requires
        s.wf(),
        fits(s),
        answers(s, reply),
    ensures
        0 <= work(draw_next(s, reply)) < work(s),
{
    match s {
        DrawState::Time { daemon, stage } => {
            let later = put_off(daemon);
            match stage {
                Stage::Transition(i) => lemma_scan_transitions(later, i + 1),
                Stage::Image(i) => lemma_scan_images(later, i + 1),
            }
        },
        DrawState::Frame { daemon, stage, .. } => {
            match stage {
                Stage::Transition(i) => lemma_scan_transitions(daemon, i + 1),
                Stage::Image(i) => lemma_scan_images(daemon, i + 1),
            }
        },
        DrawState::Convert { daemon, index, wallpapers, .. } => {
            lemma_scan_transitions(daemon, index);
            if let DrawReply::Converted(Some(effect)) = reply {
                lemma_scan_transitions(
                    DaemonState {
                        images: daemon.images.push(AnimatorState { wallpapers, effect }),
                        ..daemon
                    },
                    index,
                );
            }
        },
        DrawState::Done { .. } => {},
    }
}

/// A pass stops only at animations all of whose wallpapers are ready for a frame: what the
/// compositor still has a frame of is not drawn on. A frame is asked for where the time was.
pub proof fn law_only_ready_wallpapers_are_drawn_on<S, T, I>(
    d: DaemonState<S, T, I>,
    s: DrawState<S, T, I>,
    reply: DrawReply<I>,
)
    requires
        d.wf(),
        fits(DrawState::Done { daemon: d }),
        s.wf(),
        fits(s),
        answers(s, reply),
    ensures
        only_ready(draw_begin(d)),
        draw_next(s, reply) is Time ==> only_ready(draw_next(s, reply)),
        draw_next(s, reply) is Frame ==> s is Time && draw_next(s, reply)->Frame_daemon
            == s->Time_daemon && draw_next(s, reply)->Frame_stage == s->Time_stage,
{
    lemma_begin(d);
    lemma_next(s, reply);
}

/// What is told of a step holds of the one that follows.
proof fn lemma_next<S, T, I>(s: DrawState<S, T, I>, reply: DrawReply<I>)
    requires
        s.wf(),
        fits(s),
    ensures
        ({
            let now = draw_next(s, reply);
            &&& answers(s, reply) && now is Time ==> only_ready(now)
            &&& answers(s, reply) && now is Frame ==> s is Time && now->Frame_daemon
                == s->Time_daemon && now->Frame_stage == s->Time_stage
            &&& now.daemon().wallpapers == s.daemon().wallpapers
            &&& same_settings(now.daemon(), s.daemon())
            &&& total(now) <= total(s)
            &&& now.wf()
            &&& now.daemon().poll_time == if leaves_out(s, reply) {
                PollTime::Short
            } else {
                s.daemon().poll_time
            }
        }),
{
    match s {
        DrawState::Time { daemon, stage } => {
            let later = put_off(daemon);
            lemma_same_lists(daemon, later);
            later.images.lemma_filter_len(|a: AnimatorState<I>| is_busy(a));
            match stage {
                Stage::Transition(i) => lemma_scan_transitions(later, i + 1),
                Stage::Image(i) => lemma_scan_images(later, i + 1),
            }
        },
        DrawState::Frame { daemon, stage, .. } => {
            daemon.images.lemma_filter_len(|a: AnimatorState<I>| is_busy(a));
            match stage {
                Stage::Transition(i) => {
                    lemma_scan_transitions(daemon, i + 1);
                    lemma_taken_out(daemon, i as int);
                },
                Stage::Image(i) => lemma_scan_images(daemon, i + 1),
            }
        },
        DrawState::Convert { daemon, index, wallpapers, .. } => {
            daemon.images.lemma_filter_len(|a: AnimatorState<I>| is_busy(a));
            lemma_scan_transitions(daemon, index);
            if let DrawReply::Converted(Some(effect)) = reply {
                let more = AnimatorState { wallpapers, effect };
                let now = DaemonState { images: daemon.images.push(more), ..daemon };
                lemma_image_added(daemon, more);
                now.images.lemma_filter_len(|a: AnimatorState<I>| is_busy(a));
                lemma_scan_transitions(now, index);
            }
        },
        DrawState::Done { .. } => {},
    }
}

/// What holds of a pass as it begins.
proof fn lemma_begin<S, T, I>(d: DaemonState<S, T, I>)
    requires
        d.wf(),
        d.transitions.len() + d.images.len() <= usize::MAX,
    ensures
        ({
            let s = draw_begin(d);
            &&& s.wf()
            &&& only_ready(s)
            &&& total(s) <= d.transitions.len() + d.images.len()
            &&& work(s) <= 5 * d.transitions.len() + 2 * d.images.len()
            &&& s.daemon().wallpapers == d.wallpapers
            &&& same_settings(s.daemon(), d)
            &&& s.daemon().poll_time == if waits_at_transition(d, 0) {
                PollTime::Short
            } else {
                PollTime::Never
            }
        }),
{
    let now = DaemonState { poll_time: PollTime::Never, ..d };
    assert(waits_at_transition(now, 0) == waits_at_transition(d, 0));
    lemma_same_lists(d, now);
    now.images.lemma_filter_len(|a: AnimatorState<I>| is_busy(a));
    lemma_scan_transitions(now, 0);
}

/// What can happen to a pass.
pub enum PassEvent<T, I> {
    /// It is told something.
    Told(DrawReply<I>),
    /// A frame of a wallpaper was handed to the compositor.
    Requested(WallpaperId, ObjectId),
    /// The transition that it has stopped at has moved on.
    Transition(T),
    /// The image that it has stopped at has moved on.
    Image(I),
}

/// The daemon when something other than a reply has happened to a pass that has stopped at an
/// animation.
pub open spec fn meanwhile<S, T, I>(
    d: DaemonState<S, T, I>,
    stage: Stage,
    event: PassEvent<T, I>,
) -> DaemonState<S, T, I> {
    match (stage, event) {
        (_, PassEvent::Requested(id, callback)) => awaiting(d, id, callback),
        (Stage::Transition(i), PassEvent::Transition(effect)) => with_transition(
            d,
            i as int,
            effect,
        ),
        (Stage::Image(i), PassEvent::Image(effect)) => with_image(d, i as int, effect),
        _ => d,
    }
}

/// What comes of something that happens to a pass.
pub open spec fn pass_next<S, T, I>(
    s: DrawState<S, T, I>,
    event: PassEvent<T, I>,
) -> DrawState<S, T, I> {
    match (s, event) {
        (_, PassEvent::Told(reply)) => draw_next(s, reply),
        (DrawState::Time { daemon, stage }, _) => DrawState::Time {
            daemon: meanwhile(daemon, stage, event),
            stage,
        },
        (DrawState::Frame { daemon, stage, wait }, _) => DrawState::Frame {
            daemon: meanwhile(daemon, stage, event),
            stage,
            wait,
        },
        _ => s,
    }
}

/// Where a pass has got to when these things have happened in turn.
pub open spec fn pass_after<S, T, I>(
    d: DaemonState<S, T, I>,
    events: Seq<PassEvent<T, I>>,
) -> DrawState<S, T, I>
    decreases events.len(),
{
    if events.len() == 0 {
        draw_begin(d)
    } else {
        pass_next(pass_after(d, events.drop_last()), events.last())
    }
}

/// Whether everything that the pass is told is what it has asked for when it is told.
pub open spec fn all_answer<S, T, I>(
    d: DaemonState<S, T, I>,
    events: Seq<PassEvent<T, I>>,
) -> bool {
    forall|k: int|
        0 <= k < events.len() ==> fitting(pass_after(d, events.take(k)), #[trigger] events[k])
}

/// Whether what happens is not a reply to something that was not asked.
pub open spec fn fitting<S, T, I>(s: DrawState<S, T, I>, event: PassEvent<T, I>) -> bool {
    event matches PassEvent::Told(reply) ==> answers(s, reply)
}

/// What happened before the last thing was fitting too, and what follows it is the next step.
pub proof fn lemma_before<S, T, I>(d: DaemonState<S, T, I>, events: Seq<PassEvent<T, I>>)
    requires
        events.len() > 0,
        all_answer(d, events),
    ensures
        all_answer(d, events.drop_last()),
        fitting(pass_after(d, events.drop_last()), events.last()),
        pass_after(d, events) == pass_next(pass_after(d, events.drop_last()), events.last()),
{
    let before = events.drop_last();
    let last = events.len() - 1;
    assert forall|k: int| 0 <= k < before.len() implies fitting(
        pass_after(d, before.take(k)),
        #[trigger] before[k],
    ) by {
        assert(before.take(k) =~= events.take(k));
        assert(before[k] == events[k]);
    }
    assert(events.take(last) =~= before);
    assert(fitting(pass_after(d, events.take(last)), events[last]));
}

/// How many things the pass is told.
pub open spec fn told<T, I>(events: Seq<PassEvent<T, I>>) -> nat
    decreases events.len(),
{
    if events.len() == 0 {
        0
    } else {
        told(events.drop_last()) + if events.last() is Told {
            1nat
        } else {
            0
        }
    }
}

/// Whether a reply tells of a frame that is due too late for a pass.
pub open spec fn tells_of_later<I>(reply: DrawReply<I>) -> bool {
    reply matches DrawReply::Time(time) && time > DRAW_AHEAD
}

/// Whether what a pass comes to, when it goes on behind an animation, is one that waits for a
/// frame callback.
pub open spec fn waits_behind<S, T, I>(d: DaemonState<S, T, I>, stage: Stage) -> bool {
    match stage {
        Stage::Transition(i) => waits_at_transition(d, i + 1),
        Stage::Image(i) => waits_at_image(d, i + 1),
    }
}

/// Whether a pass, when it is told what it asked for, leaves a frame out: the one that it has
/// asked about, which is due too late, or one on wallpapers that wait for a frame callback.
pub open spec fn leaves_out<S, T, I>(s: DrawState<S, T, I>, reply: DrawReply<I>) -> bool {
    match (s, reply) {
        (DrawState::Time { .. }, DrawReply::Time(_)) => tells_of_later(reply),
        (
            DrawState::Frame { daemon, stage, .. },
            DrawReply::Drawn { finished },
        ) => !(finished && stage is Transition) && waits_behind(daemon, stage),
        (
            DrawState::Convert { daemon, index, wallpapers, .. },
            DrawReply::Converted(image),
        ) => waits_at_transition(
            match image {
                Some(effect) => DaemonState {
                    images: daemon.images.push(AnimatorState { wallpapers, effect }),
                    ..daemon
                },
                None => daemon,
            },
            index,
        ),
        _ => false,
    }
}

/// Whether a pass has left a frame out so far.
pub open spec fn has_left_out<S, T, I>(
    d: DaemonState<S, T, I>,
    events: Seq<PassEvent<T, I>>,
) -> bool
    decreases events.len(),
{
    if events.len() == 0 {
        waits_at_transition(d, 0)
    } else {
        has_left_out(d, events.drop_last()) || (events.last() matches PassEvent::Told(reply)
            && leaves_out(pass_after(d, events.drop_last()), reply))
    }
}

/// Whether nothing but wallpapers, animations and the time to come back is different.
pub open spec fn same_settings<S, T, I>(a: DaemonState<S, T, I>, b: DaemonState<S, T, I>) -> bool {
    &&& a.pixel_format == b.pixel_format
    &&& a.use_cache == b.use_cache
    &&& a.fractional_scale_manager == b.fractional_scale_manager
    &&& a.next_serial == b.next_serial
}

/// Whether wallpapers are the same but for the frame callbacks that they wait for.
pub open spec fn same_but_frames<S>(
    a: Seq<WallpaperState<S>>,
    b: Seq<WallpaperState<S>>,
) -> bool {
    &&& a.len() == b.len()
    &&& forall|i: int|
        0 <= i < a.len() ==> #[trigger] a[i] == (WallpaperState {
            callback: a[i].callback,
            draw_ready: a[i].draw_ready,
            ..b[i]
        })
}

/// However a pass goes, it keeps the daemon in order, leaves all settings as they are and
/// wallpapers too, but for the frame callbacks that they wait for, and makes no more animations of
/// those there are. It asks for no more than three things of each transition and two of each
/// image, which a transition may become. The daemon is to come back soon if and only if the pass
/// has left a frame out.
pub proof fn law_of_a_pass<S, T, I>(d: DaemonState<S, T, I>, events: Seq<PassEvent<T, I>>)
    requires
        d.wf(),
        d.transitions.len() + d.images.len() <= usize::MAX,
        all_answer(d, events),
    ensures
        ({
            let s = pass_after(d, events);
            &&& s.wf()
            &&& same_but_frames(s.daemon().wallpapers, d.wallpapers)
            &&& same_settings(s.daemon(), d)
            &&& total(s) <= d.transitions.len() + d.images.len()
            &&& told(events) + work(s) <= 5 * d.transitions.len() + 2 * d.images.len()
            &&& s.daemon().poll_time == if has_left_out(d, events) {
                PollTime::Short
            } else {
                PollTime::Never
            }
        }),
    decreases events.len(),
{
    if events.len() == 0 {
        lemma_begin(d);
    } else {
        let before = events.drop_last();
        lemma_before(d, events);
        law_of_a_pass(d, before);
        let s = pass_after(d, before);
        if let PassEvent::Told(reply) = events.last() {
            lemma_next(s, reply);
            law_passes_end(s, reply);
        } else {
            lemma_meanwhile(s, events.last());
        }
    }
}

/// What is not a reply leaves a pass where it is.
proof fn lemma_meanwhile<S, T, I>(s: DrawState<S, T, I>, event: PassEvent<T, I>)
    requires
        s.wf(),
        event !is Told,
    ensures
        ({
            let now = pass_next(s, event);
            &&& now.wf()
            &&& same_but_frames(now.daemon().wallpapers, s.daemon().wallpapers)
            &&& same_settings(now.daemon(), s.daemon())
            &&& total(now) == total(s)
            &&& work(now) == work(s)
            &&& now.daemon().poll_time == s.daemon().poll_time
        }),
{
    let d = s.daemon();
    if let PassEvent::Requested(id, _) = event {
        if let Some(i) = position(d.wallpapers, Key::Id(id)) {
            assert(is_first(d.wallpapers, Key::Id(id), i));
            let now = pass_next(s, event).daemon();
            if now != d {
                lemma_changed_wf(d, i, now.wallpapers[i]);
            }
        }
    }
    match (s, event) {
        (
            DrawState::Time { stage: Stage::Transition(i), .. },
            PassEvent::Transition(effect),
        ) => lemma_with_transition_wf(d, i as int, effect),
        (
            DrawState::Frame { stage: Stage::Transition(i), .. },
            PassEvent::Transition(effect),
        ) => lemma_with_transition_wf(d, i as int, effect),
        (
            DrawState::Time { stage: Stage::Image(i), .. },
            PassEvent::Image(effect),
        ) => lemma_with_image_wf(d, i as int, effect),
        (
            DrawState::Frame { stage: Stage::Image(i), .. },
            PassEvent::Image(effect),
        ) => lemma_with_image_wf(d, i as int, effect),
        _ => {},
    }
}

/// Whether one of the animations from `i` on draws on the wallpaper.
pub open spec fn drawn_from<E>(
    animators: Seq<AnimatorState<E>>,
    i: int,
    w: WallpaperId,
) -> bool {
    exists|j: int| i <= j < animators.len() && (#[trigger] animators[j]).wallpapers.contains(w)
}

/// Whether a pass is still to come to an animation that draws on the wallpaper.
pub open spec fn is_ahead<S, T, I>(s: DrawState<S, T, I>, w: WallpaperId) -> bool {
    let d = s.daemon();
    match s {
        DrawState::Time { stage: Stage::Transition(i), .. } => drawn_from(d.transitions, i + 1, w)
            || drawn_on(d.images, w),
        DrawState::Frame { stage: Stage::Transition(i), .. } => drawn_from(d.transitions, i + 1, w)
            || drawn_on(d.images, w),
        DrawState::Time { stage: Stage::Image(i), .. } => drawn_from(d.images, i + 1, w),
        DrawState::Frame { stage: Stage::Image(i), .. } => drawn_from(d.images, i + 1, w),
        DrawState::Convert { index, .. } => drawn_from(d.transitions, index, w) || drawn_on(
            d.images,
            w,
        ),
        DrawState::Done { .. } => false,
    }
}

/// Whether a pass has left something out, or is still to come to an animation on a wallpaper that
/// waits for a frame callback.
pub open spec fn will_come_back<S, T, I>(s: DrawState<S, T, I>, w: WallpaperId) -> bool {
    s.daemon().poll_time == PollTime::Short || (!is_ready(s.daemon().wallpapers, w) && is_ahead(
        s,
        w,
    ))
}

/// A pass that begins while a wallpaper with an animation on it waits for a frame callback ends
/// with a short poll, so that the animation is come back to.
pub proof fn law_waiting_animations_are_come_back_to<S, T, I>(
    d: DaemonState<S, T, I>,
    events: Seq<PassEvent<T, I>>,
    w: WallpaperId,
)
    requires
        d.wf(),
        d.transitions.len() + d.images.len() <= usize::MAX,
        all_answer(d, events),
        d.animated(w),
        !is_ready(d.wallpapers, w),
    ensures
        will_come_back(pass_after(d, events), w),
        pass_after(d, events) is Done ==> pass_after(d, events).daemon().poll_time
            == PollTime::Short,
    decreases events.len(),
{
    if events.len() == 0 {
        let now = DaemonState { poll_time: PollTime::Never, ..d };
        lemma_drawn_from_all(now.transitions, w);
        lemma_scan_transitions_ahead(now, 0, w);
    } else {
        let before = events.drop_last();
        lemma_before(d, events);
        law_of_a_pass(d, before);
        law_waiting_animations_are_come_back_to(d, before, w);
        let s = pass_after(d, before);
        if let PassEvent::Told(reply) = events.last() {
            lemma_next(s, reply);
            if s.daemon().poll_time != PollTime::Short {
                lemma_next_ahead(s, reply, w);
            }
        } else {
            lemma_meanwhile(s, events.last());
            lemma_meanwhile_ahead(s, events.last(), w);
        }
    }
}

/// From the first one on, all animations count.
proof fn lemma_drawn_from_all<E>(animators: Seq<AnimatorState<E>>, w: WallpaperId)
    ensures
        drawn_from(animators, 0, w) == drawn_on(animators, w),
{
    if drawn_on(animators, w) {
        let k = choose|k: int|
            0 <= k < animators.len() && #[trigger] animators[k].wallpapers.contains(w);
        assert(animators[k].wallpapers.contains(w));
    }
}

/// The search does not pass over an animation that waits without taking note of it.
proof fn lemma_scan_transitions_ahead<S, T, I>(d: DaemonState<S, T, I>, i: int, w: WallpaperId)
    requires
        0 <= i,
        d.transitions.len() <= usize::MAX,
        d.images.len() <= usize::MAX,
        !is_ready(d.wallpapers, w),
        drawn_from(d.transitions, i, w) || drawn_on(d.images, w),
    ensures
        will_come_back(scan_transitions(d, i), w),
{
    lemma_scan_transitions(d, i);
    if i >= d.transitions.len() {
        let now = DaemonState { images: busy(d.images), ..d };
        lemma_busy(d.images);
        assert(drawn_on(now.images, w) == drawn_on(d.images, w));
        lemma_drawn_from_all(now.images, w);
        d.images.lemma_filter_len(|a: AnimatorState<I>| is_busy(a));
        lemma_scan_images_ahead(now, 0, w);
    } else if all_ready(d.wallpapers, d.transitions[i]) && drawn_from(d.transitions, i, w) {
        let j = choose|j: int|
            i <= j < d.transitions.len() && (#[trigger] d.transitions[j]).wallpapers.contains(w);
        let on = d.transitions[j].wallpapers;
        let k = choose|k: int| 0 <= k < on.len() && on[k] == w;
        assert(j == i ==> is_ready(d.wallpapers, d.transitions[i].wallpapers[k]));
    }
}

/// The search among the images does not either.
proof fn lemma_scan_images_ahead<S, T, I>(d: DaemonState<S, T, I>, i: int, w: WallpaperId)
    requires
        0 <= i,
        d.images.len() <= usize::MAX,
        !is_ready(d.wallpapers, w),
        drawn_from(d.images, i, w),
    ensures
        will_come_back(scan_images(d, i), w),
{
    lemma_scan_images(d, i);
    let j = choose|j: int|
        i <= j < d.images.len() && (#[trigger] d.images[j]).wallpapers.contains(w);
    if all_ready(d.wallpapers, d.images[i]) {
        let on = d.images[j].wallpapers;
        let k = choose|k: int| 0 <= k < on.len() && on[k] == w;
        assert(j == i ==> is_ready(d.wallpapers, d.images[i].wallpapers[k]));
    }
}

/// What is ahead of a pass is still ahead, or was taken note of, when the pass goes on.
proof fn lemma_next_ahead<S, T, I>(s: DrawState<S, T, I>, reply: DrawReply<I>, w: WallpaperId)
    requires
        s.wf(),
        fits(s),
        answers(s, reply),
        !is_ready(s.daemon().wallpapers, w),
        is_ahead(s, w),
    ensures
        will_come_back(draw_next(s, reply), w),
{
    lemma_next(s, reply);
    match s {
        DrawState::Time { .. } => {},
        DrawState::Frame { daemon, stage, .. } => {
            match stage {
                Stage::Transition(i) => {
                    if reply == (DrawReply::<I>::Drawn { finished: true }) {
                        let list = daemon.transitions;
                        let now = list.update(i as int, list.last()).drop_last();
                        if drawn_from(list, i + 1, w) {
                            let j = choose|j: int|
                                i + 1 <= j < list.len() && (
                                #[trigger] list[j]).wallpapers.contains(w);
                            let place = if j == list.len() - 1 {
                                i as int
                            } else {
                                j
                            };
                            assert(now[place] == list[j]);
                            assert(drawn_from(now, i as int, w));
                        }
                    } else {
                        lemma_scan_transitions_ahead(daemon, i + 1, w);
                    }
                },
                Stage::Image(i) => lemma_scan_images_ahead(daemon, i + 1, w),
            }
        },
        DrawState::Convert { daemon, index, wallpapers, .. } => {
            if let DrawReply::Converted(Some(effect)) = reply {
                let more = AnimatorState { wallpapers, effect };
                let now = DaemonState { images: daemon.images.push(more), ..daemon };
                if drawn_on(daemon.images, w) {
                    let k = choose|k: int|
                        0 <= k < daemon.images.len()
                            && #[trigger] daemon.images[k].wallpapers.contains(w);
                    assert(now.images[k].wallpapers.contains(w));
                }
                lemma_scan_transitions_ahead(now, index, w);
            } else {
                lemma_scan_transitions_ahead(daemon, index, w);
            }
        },
        DrawState::Done { .. } => {},
    }
}

/// What is ahead of a pass stays there while the pass stays where it is, and nothing that waits
/// for a frame callback stops waiting.
proof fn lemma_meanwhile_ahead<S, T, I>(
    s: DrawState<S, T, I>,
    event: PassEvent<T, I>,
    w: WallpaperId,
)
    requires
        s.wf(),
        event !is Told,
        will_come_back(s, w),
    ensures
        will_come_back(pass_next(s, event), w),
{
    let d = s.daemon();
    let now = pass_next(s, event).daemon();
    if d.poll_time != PollTime::Short {
        assert forall|j: int| 0 <= j < d.transitions.len() implies now.transitions.len()
            == d.transitions.len() && (#[trigger] now.transitions[j]).wallpapers
            == d.transitions[j].wallpapers by {}
        assert forall|j: int| 0 <= j < d.images.len() implies now.images.len() == d.images.len()
            && (#[trigger] now.images[j]).wallpapers == d.images[j].wallpapers by {}
        if is_ready(now.wallpapers, w) {
            let k = choose|k: int|
                0 <= k < now.wallpapers.len() && (#[trigger] now.wallpapers[k]).id == w
                    && now.wallpapers[k].draw_ready;
            assert(d.wallpapers[k] == now.wallpapers[k]);
        }
        match s {
            DrawState::Time { stage, .. } => lemma_still_ahead(d, now, stage, w),
            DrawState::Frame { stage, .. } => lemma_still_ahead(d, now, stage, w),
            _ => {},
        }
    }
}

/// What is ahead does not depend on what the animations do.
proof fn lemma_still_ahead<S, T, I>(
    d: DaemonState<S, T, I>,
    now: DaemonState<S, T, I>,
    stage: Stage,
    w: WallpaperId,
)
    requires
        is_ahead(DrawState::Time { daemon: d, stage }, w),
        now.transitions.len() == d.transitions.len(),
        now.images.len() == d.images.len(),
        forall|j: int|
            0 <= j < d.transitions.len() ==> (#[trigger] now.transitions[j]).wallpapers
                == d.transitions[j].wallpapers,
        forall|j: int|
            0 <= j < d.images.len() ==> (#[trigger] now.images[j]).wallpapers
                == d.images[j].wallpapers,
    ensures
        is_ahead(DrawState::Time { daemon: now, stage }, w),
{
    match stage {
        Stage::Transition(i) => {
            if drawn_from(d.transitions, i + 1, w) {
                let j = choose|j: int|
                    i + 1 <= j < d.transitions.len() && (
                    #[trigger] d.transitions[j]).wallpapers.contains(w);
                assert(now.transitions[j].wallpapers.contains(w));
            } else {
                let j = choose|j: int|
                    0 <= j < d.images.len() && #[trigger] d.images[j].wallpapers.contains(w);
                assert(now.images[j].wallpapers.contains(w));
            }
        },
        Stage::Image(i) => {
            let j = choose|j: int|
                i + 1 <= j < d.images.len() && (#[trigger] d.images[j]).wallpapers.contains(w);
            assert(now.images[j].wallpapers.contains(w));
        },
    }
}

/// Whether a wallpaper is animated, or the animation on it is just changing.
pub open spec fn covered<S, T, I>(s: DrawState<S, T, I>, w: WallpaperId) -> bool {
    s.daemon().animated(w) || (s is Convert && s->wallpapers.contains(w))
}

/// In a pass, the animation on a wallpaper ends only with a transition to an image that is not
/// animated, and none begins where there was none.
pub proof fn law_animations_end_with_still_images<S, T, I>(
    s: DrawState<S, T, I>,
    reply: DrawReply<I>,
    w: WallpaperId,
)
    requires
        s.wf(),
        fits(s),
    ensures
        covered(draw_next(s, reply), w) ==> covered(s, w),
        covered(s, w) && !covered(draw_next(s, reply), w) ==> s is Convert
            && s->wallpapers.contains(w) && reply == DrawReply::Converted(None::<I>),
{
    let d = s.daemon();
    lemma_busy(d.images);
    assert(drawn_on(busy(d.images), w) == drawn_on(d.images, w));
    match s {
        DrawState::Time { daemon, stage } => {
            let later = put_off(daemon);
            match stage {
                Stage::Transition(i) => lemma_scan_transitions(later, i + 1),
                Stage::Image(i) => lemma_scan_images(later, i + 1),
            }
        },
        DrawState::Frame { daemon, stage, .. } => {
            match stage {
                Stage::Transition(i) => {
                    lemma_scan_transitions(daemon, i + 1);
                    lemma_taken_out(daemon, i as int);
                },
                Stage::Image(i) => lemma_scan_images(daemon, i + 1),
            }
        },
        DrawState::Convert { daemon, index, wallpapers, .. } => {
            lemma_scan_transitions(daemon, index);
            if let DrawReply::Converted(Some(effect)) = reply {
                let more = AnimatorState { wallpapers, effect };
                let now = DaemonState { images: daemon.images.push(more), ..daemon };
                assert forall|x: WallpaperId| #[trigger]
                    more.wallpapers.contains(x) implies !drawn_on(daemon.images, x) by {
                    assert(!daemon.animated(x));
                }
                lemma_exclusive_push(daemon.images, more);
                lemma_busy(now.images);
                assert(drawn_on(now.images, w) == (drawn_on(daemon.images, w)
                    || wallpapers.contains(w)));
                assert(drawn_on(busy(now.images), w) == drawn_on(now.images, w));
                lemma_scan_transitions(now, index);
            }
        },
        DrawState::Done { .. } => {},
    }
}

// Single steps.

/// A frame that is due in at most 1.2 milliseconds is drawn in the pass, after a wait that is
/// exactly as long as it takes until it is due: none if it is due already. No wait is longer than
/// that. A frame that is due later is not drawn in the pass, which goes on to the next animation.
pub proof fn law_frames_are_drawn_when_they_are_due<S, T, I>(
    d: DaemonState<S, T, I>,
    stage: Stage,
    time: u128,
)
    requires
        d.wf(),
        stage_in(d, stage),
        d.transitions.len() + d.images.len() <= usize::MAX,
    ensures
        timed(d, stage, time) is Frame <==> time <= 1_200 * 1_000,
        timed(d, stage, time) matches DrawState::Frame { daemon, stage: at, wait } ==> {
            &&& daemon == d
            &&& at == stage
            &&& wait is None <==> time == 0
            &&& wait matches Some(waited) ==> waited == time && 0 < waited <= DRAW_AHEAD
        },
        time > DRAW_AHEAD ==> timed(d, stage, time).daemon().poll_time is Short,
        time > DRAW_AHEAD ==> timed(d, stage, time) == {
            let soon = DaemonState { poll_time: PollTime::Short, ..d };
            match stage {
                Stage::Transition(i) => scan_transitions(soon, i + 1),
                Stage::Image(i) => scan_images(soon, i + 1),
            }
        },
        DRAW_AHEAD == 1_200 * 1_000,
{
    let s = DrawState::Time { daemon: d, stage };
    lemma_next(s, DrawReply::Time(time));
    if time > DRAW_AHEAD {
        let later = put_off(d);
        match stage {
            Stage::Transition(i) => lemma_scan_transitions(later, i + 1),
            Stage::Image(i) => lemma_scan_images(later, i + 1),
        }
    }
}

/// An animation may draw if and only if none of its wallpapers waits for a frame callback.
pub proof fn law_animations_draw_when_no_callback_is_outstanding<S, E>(
    wallpapers: Seq<WallpaperState<S>>,
    animator: AnimatorState<E>,
)
    requires
        forall|i: int, j: int|
            0 <= i < j < wallpapers.len() ==> (#[trigger] wallpapers[i]).id != (
            #[trigger] wallpapers[j]).id,
        forall|k: int|
            0 <= k < animator.wallpapers.len() ==> exists|i: int|
                0 <= i < wallpapers.len() && (#[trigger] wallpapers[i]).id
                    == #[trigger] animator.wallpapers[k],
    ensures
        all_ready(wallpapers, animator) <==> forall|i: int|
            0 <= i < wallpapers.len() && animator.wallpapers.contains(
                (#[trigger] wallpapers[i]).id,
            ) ==> wallpapers[i].draw_ready,
{
    if all_ready(wallpapers, animator) {
        assert forall|i: int|
            0 <= i < wallpapers.len() && animator.wallpapers.contains(
                (#[trigger] wallpapers[i]).id,
            ) implies wallpapers[i].draw_ready by {
            let k = choose|k: int|
                0 <= k < animator.wallpapers.len() && animator.wallpapers[k] == wallpapers[i].id;
            assert(is_ready(wallpapers, animator.wallpapers[k]));
            let j = choose|j: int|
                0 <= j < wallpapers.len() && (#[trigger] wallpapers[j]).id == wallpapers[i].id
                    && wallpapers[j].draw_ready;
            if j < i {
                assert(wallpapers[j].id != wallpapers[i].id);
            }
            if i < j {
                assert(wallpapers[i].id != wallpapers[j].id);
            }
        }
    }
    if forall|i: int|
        0 <= i < wallpapers.len() && animator.wallpapers.contains((#[trigger] wallpapers[i]).id)
            ==> wallpapers[i].draw_ready {
        assert forall|k: int| 0 <= k < animator.wallpapers.len() implies is_ready(
            wallpapers,
            #[trigger] animator.wallpapers[k],
        ) by {
            let i = choose|i: int|
                0 <= i < wallpapers.len() && (#[trigger] wallpapers[i]).id
                    == animator.wallpapers[k];
            assert(animator.wallpapers.contains(wallpapers[i].id));
        }
    }
}

/// A transition whose last frame was drawn is taken out, with what it was doing and where, and the
/// last one takes its place, where the pass goes on. An image is never over.
pub proof fn law_finished_transitions_are_taken_out<S, T, I>(
    d: DaemonState<S, T, I>,
    i: usize,
    finished: bool,
)
    requires
        i < d.transitions.len(),
    ensures
        drawn(d, Stage::Transition(i), true) matches DrawState::Convert {
            daemon,
            index,
            wallpapers,
            effect,
        } && {
            &&& index == i
            &&& wallpapers == d.transitions[i as int].wallpapers
            &&& effect == d.transitions[i as int].effect
            &&& daemon == (DaemonState { transitions: daemon.transitions, ..d })
            &&& daemon.transitions.len() == d.transitions.len() - 1
            &&& forall|j: int|
                0 <= j < daemon.transitions.len() ==> #[trigger] daemon.transitions[j]
                    == d.transitions[if j == i {
                    d.transitions.len() - 1
                } else {
                    j
                }]
        },
        drawn(d, Stage::Transition(i), false) == scan_transitions(d, i + 1),
        forall|k: usize| #[trigger] drawn(d, Stage::Image(k), finished) == scan_images(d, k + 1),
{
}

/// What a transition leads to is one more animated image, behind the others, where the transition
/// was, or nothing if it is not animated. Either way the pass goes on where the transition was.
pub proof fn law_transitions_become_images<S, T, I>(
    d: DaemonState<S, T, I>,
    index: int,
    wallpapers: Seq<WallpaperId>,
    effect: I,
)
    ensures
        converted(d, index, wallpapers, None::<I>) == scan_transitions(d, index),
        converted(d, index, wallpapers, Some(effect)) == scan_transitions(
            DaemonState { images: d.images.push(AnimatorState { wallpapers, effect }), ..d },
            index,
        ),
{
}

/// A pass begins with the first transition, and with nothing to come back to. The search for the
/// next animation that may draw goes through the transitions and then through the images, in
/// order. Where it passes over one, it is to be come back soon.
pub proof fn law_searches_go_in_order<S, T, I>(d: DaemonState<S, T, I>, i: int)
    requires
        0 <= i,
        d.transitions.len() <= usize::MAX,
        d.images.len() <= usize::MAX,
    ensures
        ({
            let soon = DaemonState { poll_time: PollTime::Short, ..d };
            let busy_only = DaemonState { images: busy(d.images), ..d };
            let idle = DaemonState { poll_time: PollTime::Never, ..d };
            &&& draw_begin(d) == scan_transitions(idle, 0)
            &&& i >= d.transitions.len() ==> scan_transitions(d, i) == scan_images(busy_only, 0)
            &&& i < d.transitions.len() && !all_ready(d.wallpapers, d.transitions[i])
                ==> scan_transitions(d, i) == scan_transitions(soon, i + 1)
            &&& i < d.transitions.len() && all_ready(d.wallpapers, d.transitions[i]) ==> {
                &&& scan_transitions(d, i) matches DrawState::Time { daemon, stage }
                &&& daemon == d
                &&& stage == Stage::Transition(i as usize)
            }
            &&& i >= d.images.len() ==> scan_images(d, i) == (DrawState::Done { daemon: d })
            &&& i < d.images.len() && !all_ready(d.wallpapers, d.images[i]) ==> scan_images(d, i)
                == scan_images(soon, i + 1)
            &&& i < d.images.len() && all_ready(d.wallpapers, d.images[i]) ==> {
                &&& scan_images(d, i) matches DrawState::Time { daemon, stage }
                &&& daemon == d
                &&& stage == Stage::Image(i as usize)
            }
        }),
{
}

/// A pass is modelled as it is.
pub proof fn law_passes_are_what_they_stand_for<S, T, I>(draw: Draw<S, T, I>)
    ensures
        draw@ is Time <==> draw is Time,
        draw matches Draw::Time(pass) ==> draw@ == (DrawState::Time {
            daemon: pass.state(),
            stage: pass.at(),
        }),
        draw@ is Frame <==> draw is Frame,
        draw matches Draw::Frame { pass, wait } ==> draw@ == (DrawState::Frame {
            daemon: pass.state(),
            stage: pass.at(),
            wait,
        }),
        draw@ is Convert <==> draw is Convert,
        draw matches Draw::Convert { conversion, effect } ==> draw@ == (DrawState::Convert {
            daemon: conversion.state(),
            index: conversion.place(),
            wallpapers: conversion.freed(),
            effect,
        }),
        draw@ is Done <==> draw is Done,
        draw matches Draw::Done(daemon) ==> draw@ == (DrawState::Done { daemon: daemon@ }),
{
}

} // verus!

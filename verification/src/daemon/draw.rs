//! Drawing: one pass over all animations.
//!
//! A pass is made in steps. Each step says what is to be found out or done outside, and goes on
//! once it is told what came of that.

use vstd::prelude::*;

use super::{
    awaiting, changed, lemma_changed_wf, lemma_live, live, position, Daemon, DaemonState,
};
use crate::animator::{
    busy, disjoint, drawn_on, exclusive, lemma_busy, retain_busy, Animator, AnimatorState,
};
use crate::objects::ObjectId;
use crate::poll::PollTime;
use crate::timing::DRAW_AHEAD;
use crate::wallpaper::{Key, WallpaperId, WallpaperState};

verus! {

/// The animation that a pass has come to, by its place among those of its kind.
#[derive(Clone, Copy, PartialEq, Eq, Structural, Debug)]
pub enum Stage {
    Transition(usize),
    Image(usize),
}

/// A pass that has stopped at an animation.
pub struct DrawPass<S, T, I> {
    daemon: Daemon<S, T, I>,
    stage: Stage,
}

/// A pass that has stopped because a transition is over.
pub struct Conversion<S, T, I> {
    daemon: Daemon<S, T, I>,
    index: usize,
    wallpapers: Vec<WallpaperId>,
}

/// What a pass needs in order to go on.
pub enum Draw<S, T, I> {
    /// How long it is until the animation is to draw its next frame.
    Time(DrawPass<S, T, I>),
    /// That, once the given time has been waited for, the frame of the animation is handed to the
    /// compositor and the next one is drawn; and whether the animation is over.
    Frame { pass: DrawPass<S, T, I>, wait: Option<u128> },
    /// What the image that the transition has led to goes on to do, if it is animated.
    Convert { conversion: Conversion<S, T, I>, effect: T },
    /// Nothing: the pass is over.
    Done(Daemon<S, T, I>),
}

/// The model of a pass.
pub enum DrawState<S, T, I> {
    Time { daemon: DaemonState<S, T, I>, stage: Stage },
    Frame { daemon: DaemonState<S, T, I>, stage: Stage, wait: Option<u128> },
    Convert {
        daemon: DaemonState<S, T, I>,
        index: int,
        wallpapers: Seq<WallpaperId>,
        effect: T,
    },
    Done { daemon: DaemonState<S, T, I> },
}

/// What a pass is told.
pub enum DrawReply<I> {
    /// How many nanoseconds there are until the next frame.
    Time(u128),
    /// That a frame was drawn, and whether the animation is over.
    Drawn { finished: bool },
    /// What the image goes on to do, if it is animated.
    Converted(Option<I>),
}

impl<S, T, I> View for Draw<S, T, I> {
    type V = DrawState<S, T, I>;

    open spec fn view(&self) -> DrawState<S, T, I> {
        match *self {
            Draw::Time(pass) => DrawState::Time { daemon: pass.state(), stage: pass.at() },
            Draw::Frame { pass, wait } => DrawState::Frame {
                daemon: pass.state(),
                stage: pass.at(),
                wait,
            },
            Draw::Convert { conversion, effect } => DrawState::Convert {
                daemon: conversion.state(),
                index: conversion.place(),
                wallpapers: conversion.freed(),
                effect,
            },
            Draw::Done(daemon) => DrawState::Done { daemon: daemon@ },
        }
    }
}

/// Whether a frame may be drawn on the wallpaper.
pub open spec fn is_ready<S>(wallpapers: Seq<WallpaperState<S>>, w: WallpaperId) -> bool {
    exists|i: int|
        0 <= i < wallpapers.len() && (#[trigger] wallpapers[i]).id == w && wallpapers[i].draw_ready
}

/// Whether a frame may be drawn on all wallpapers of an animation.
pub open spec fn all_ready<S, E>(
    wallpapers: Seq<WallpaperState<S>>,
    animator: AnimatorState<E>,
) -> bool {
    forall|k: int|
        0 <= k < animator.wallpapers.len() ==> is_ready(
            wallpapers,
            #[trigger] animator.wallpapers[k],
        )
}

/// The daemon when something is left for a later pass, which is to come soon.
pub open spec fn put_off<S, T, I>(d: DaemonState<S, T, I>) -> DaemonState<S, T, I> {
    DaemonState { poll_time: PollTime::Short, ..d }
}

/// The pass stops at the next transition, from `i` on, all of whose wallpapers are ready. One that
/// waits for a frame callback is put off. When none is left, the images follow, those without a
/// wallpaper left out for good.
pub open spec fn scan_transitions<S, T, I>(
    d: DaemonState<S, T, I>,
    i: int,
) -> DrawState<S, T, I>
    decreases d.transitions.len() - i,
{
    if i >= d.transitions.len() {
        scan_images(DaemonState { images: busy(d.images), ..d }, 0)
    } else if all_ready(d.wallpapers, d.transitions[i]) {
        DrawState::Time { daemon: d, stage: Stage::Transition(i as usize) }
    } else {
        scan_transitions(put_off(d), i + 1)
    }
}

/// The pass stops at the next image, from `i` on, all of whose wallpapers are ready. One that
/// waits for a frame callback is put off; so is one that a transition has become earlier in the
/// same pass, while the callback of the last frame of that transition has not come back. When none
/// is left, the pass is over.
pub open spec fn scan_images<S, T, I>(d: DaemonState<S, T, I>, i: int) -> DrawState<S, T, I>
    decreases d.images.len() - i,
{
    if i >= d.images.len() {
        DrawState::Done { daemon: d }
    } else if all_ready(d.wallpapers, d.images[i]) {
        DrawState::Time { daemon: d, stage: Stage::Image(i as usize) }
    } else {
        scan_images(put_off(d), i + 1)
    }
}

/// The pass goes on behind an animation.
pub open spec fn advance<S, T, I>(d: DaemonState<S, T, I>, stage: Stage) -> DrawState<S, T, I> {
    match stage {
        Stage::Transition(i) => scan_transitions(d, i + 1),
        Stage::Image(i) => scan_images(d, i + 1),
    }
}

/// A pass as it begins. Nothing is to be drawn later, until something turns out to be.
pub open spec fn draw_begin<S, T, I>(d: DaemonState<S, T, I>) -> DrawState<S, T, I> {
    scan_transitions(DaemonState { poll_time: PollTime::Never, ..d }, 0)
}

/// What comes of a frame callback that was answered: the first wallpaper that has waited for it is
/// ready for its next frame, and a pass begins.
pub open spec fn callback_answered<S, T, I>(
    d: DaemonState<S, T, I>,
    sender: ObjectId,
) -> DrawState<S, T, I> {
    match position(d.wallpapers, Key::Callback(sender)) {
        Some(_) => draw_begin(
            changed(
                d,
                Key::Callback(sender),
                |w: WallpaperState<S>| WallpaperState { draw_ready: true, ..w },
            ),
        ),
        None => DrawState::Done { daemon: d },
    }
}

/// A frame that is due too late is put off. Any other is drawn when it is due.
pub open spec fn timed<S, T, I>(
    d: DaemonState<S, T, I>,
    stage: Stage,
    time: u128,
) -> DrawState<S, T, I> {
    if time > DRAW_AHEAD {
        advance(put_off(d), stage)
    } else {
        DrawState::Frame {
            daemon: d,
            stage,
            wait: if time == 0 {
                None
            } else {
                Some(time)
            },
        }
    }
}

/// A transition that is over is taken out, and the last one takes its place.
pub open spec fn drawn<S, T, I>(
    d: DaemonState<S, T, I>,
    stage: Stage,
    finished: bool,
) -> DrawState<S, T, I> {
    match stage {
        Stage::Transition(i) if finished => DrawState::Convert {
            daemon: DaemonState {
                transitions: d.transitions.update(i as int, d.transitions.last()).drop_last(),
                ..d
            },
            index: i as int,
            wallpapers: d.transitions[i as int].wallpapers,
            effect: d.transitions[i as int].effect,
        },
        _ => advance(d, stage),
    }
}

/// An animated image goes on where the transition to it was.
pub open spec fn converted<S, T, I>(
    d: DaemonState<S, T, I>,
    index: int,
    wallpapers: Seq<WallpaperId>,
    image: Option<I>,
) -> DrawState<S, T, I> {
    let now = match image {
        Some(effect) => DaemonState {
            images: d.images.push(AnimatorState { wallpapers, effect }),
            ..d
        },
        None => d,
    };
    scan_transitions(now, index)
}

/// What a pass does when it is told what it asked for. What it did not ask for it ignores.
pub open spec fn draw_next<S, T, I>(
    s: DrawState<S, T, I>,
    reply: DrawReply<I>,
) -> DrawState<S, T, I> {
    match (s, reply) {
        (DrawState::Time { daemon, stage }, DrawReply::Time(time)) => timed(daemon, stage, time),
        (
            DrawState::Frame { daemon, stage, .. },
            DrawReply::Drawn { finished },
        ) => drawn(daemon, stage, finished),
        (
            DrawState::Convert { daemon, index, wallpapers, .. },
            DrawReply::Converted(image),
        ) => converted(daemon, index, wallpapers, image),
        _ => s,
    }
}

/// Whether the animation that a pass has stopped at is there.
pub open spec fn stage_in<S, T, I>(d: DaemonState<S, T, I>, stage: Stage) -> bool {
    match stage {
        Stage::Transition(i) => i < d.transitions.len(),
        Stage::Image(i) => i < d.images.len(),
    }
}

impl<S, T, I> DrawState<S, T, I> {
    /// The daemon, as the pass has left it so far.
    pub open spec fn daemon(self) -> DaemonState<S, T, I> {
        match self {
            DrawState::Time { daemon, .. } => daemon,
            DrawState::Frame { daemon, .. } => daemon,
            DrawState::Convert { daemon, .. } => daemon,
            DrawState::Done { daemon } => daemon,
        }
    }

    /// What always holds in a pass: the daemon is in order, and what the pass has stopped at is
    /// there or, if it was taken out, could be put back.
    pub open spec fn wf(self) -> bool {
        &&& self.daemon().wf()
        &&& match self {
            DrawState::Time { daemon, stage } => stage_in(daemon, stage),
            DrawState::Frame { daemon, stage, .. } => stage_in(daemon, stage),
            DrawState::Convert { daemon, index, wallpapers, .. } => {
                &&& 0 <= index <= daemon.transitions.len()
                &&& wallpapers.no_duplicates()
                &&& forall|w: WallpaperId| #[trigger]
                    wallpapers.contains(w) ==> live(daemon.wallpapers, w) && !daemon.animated(w)
            },
            DrawState::Done { .. } => true,
        }
    }
}

/// Leaving out images without a wallpaper keeps the daemon in order.
pub proof fn lemma_busy_wf<S, T, I>(d: DaemonState<S, T, I>)
    requires
        d.wf(),
    ensures
        (DaemonState { images: busy(d.images), ..d }).wf(),
{
    let now = DaemonState { images: busy(d.images), ..d };
    lemma_busy(d.images);
    assert forall|w: WallpaperId|
        !(#[trigger] drawn_on(now.transitions, w) && #[trigger] drawn_on(now.images, w)) by {
        assert(drawn_on(d.images, w) == drawn_on(now.images, w));
    }
    assert forall|w: WallpaperId| #[trigger] now.animated(w) implies live(now.wallpapers, w) by {
        assert(drawn_on(d.images, w) == drawn_on(now.images, w));
        assert(d.animated(w));
    }
}

/// A transition that is taken out leaves the daemon in order, and leaves what it drew on free.
pub proof fn lemma_taken_out<S, T, I>(d: DaemonState<S, T, I>, i: int)
    requires
        d.wf(),
        0 <= i < d.transitions.len(),
    ensures
        ({
            let now = DaemonState {
                transitions: d.transitions.update(i, d.transitions.last()).drop_last(),
                ..d
            };
            &&& now.wf()
            &&& d.transitions[i].wallpapers.no_duplicates()
            &&& forall|w: WallpaperId| #[trigger]
                d.transitions[i].wallpapers.contains(w) ==> live(now.wallpapers, w)
                    && !now.animated(w)
            &&& forall|w: WallpaperId| #[trigger]
                drawn_on(d.transitions, w) <==> drawn_on(now.transitions, w)
                    || d.transitions[i].wallpapers.contains(w)
        }),
{
    let old_list = d.transitions;
    let list = old_list.update(i, old_list.last()).drop_last();
    let now = DaemonState { transitions: list, ..d };
    let last = old_list.len() - 1;
    // Where an element of the new list comes from.
    let from = |k: int| if k == i { last } else { k };
    assert forall|k: int| 0 <= k < list.len() implies #[trigger] list[k] == old_list[from(k)] by {}
    assert forall|a: int, b: int| 0 <= a < b < list.len() implies disjoint(
        #[trigger] list[a],
        #[trigger] list[b],
    ) by {
        let fa = from(a);
        let fb = from(b);
        assert(list[a] == old_list[fa] && list[b] == old_list[fb]);
        if fa < fb {
            assert(disjoint(old_list[fa], old_list[fb]));
        } else {
            assert(disjoint(old_list[fb], old_list[fa]));
        }
    }
    assert forall|a: int| 0 <= a < list.len() implies (
    #[trigger] list[a]).wallpapers.no_duplicates() by {
        assert(list[a] == old_list[from(a)]);
    }
    assert(exclusive(list));
    assert forall|w: WallpaperId| #[trigger] drawn_on(list, w) implies drawn_on(old_list, w)
        && !old_list[i].wallpapers.contains(w) by {
        let k = choose|k: int| 0 <= k < list.len() && #[trigger] list[k].wallpapers.contains(w);
        let f = from(k);
        assert(old_list[f].wallpapers.contains(w));
        if f < i {
            assert(disjoint(old_list[f], old_list[i]));
        } else {
            assert(disjoint(old_list[i], old_list[f]));
        }
    }
    assert forall|w: WallpaperId| #[trigger] now.animated(w) implies live(now.wallpapers, w) by {
        assert(d.animated(w));
    }
    assert forall|w: WallpaperId| #[trigger] drawn_on(old_list, w) implies drawn_on(list, w)
        || old_list[i].wallpapers.contains(w) by {
        let k = choose|k: int|
            0 <= k < old_list.len() && #[trigger] old_list[k].wallpapers.contains(w);
        if k != i {
            let place = if k == last {
                i
            } else {
                k
            };
            assert(list[place] == old_list[k]);
            assert(list[place].wallpapers.contains(w));
        }
    }
    assert forall|w: WallpaperId| #[trigger] old_list[i].wallpapers.contains(w) implies live(
        now.wallpapers,
        w,
    ) && !now.animated(w) by {
        assert(drawn_on(old_list, w));
        assert(d.animated(w));
        assert(!drawn_on(d.images, w));
    }
}

/// One more animation, on wallpapers that no other draws on, shares none with the others.
pub proof fn lemma_exclusive_push<E>(animators: Seq<AnimatorState<E>>, more: AnimatorState<E>)
    requires
        exclusive(animators),
        more.wallpapers.no_duplicates(),
        forall|w: WallpaperId| #[trigger] more.wallpapers.contains(w) ==> !drawn_on(animators, w),
    ensures
        exclusive(animators.push(more)),
        forall|w: WallpaperId| #[trigger]
            drawn_on(animators.push(more), w) <==> drawn_on(animators, w)
                || more.wallpapers.contains(w),
{
    let all = animators.push(more);
    let last = animators.len() as int;
    assert forall|a: int, b: int| 0 <= a < b < all.len() implies disjoint(
        #[trigger] all[a],
        #[trigger] all[b],
    ) by {
        if b == last {
            assert forall|w: WallpaperId|
                !(#[trigger] all[a].wallpapers.contains(w) && #[trigger] all[b].wallpapers.contains(
                    w,
                )) by {
                if animators[a].wallpapers.contains(w) {
                    assert(drawn_on(animators, w));
                }
            }
        } else {
            assert(disjoint(animators[a], animators[b]));
        }
    }
    assert forall|w: WallpaperId| #[trigger]
        drawn_on(all, w) <==> drawn_on(animators, w) || more.wallpapers.contains(w) by {
        if drawn_on(all, w) {
            let k = choose|k: int| 0 <= k < all.len() && #[trigger] all[k].wallpapers.contains(w);
            if k < last {
                assert(animators[k].wallpapers.contains(w));
            }
        }
        if drawn_on(animators, w) {
            let k = choose|k: int|
                0 <= k < animators.len() && #[trigger] animators[k].wallpapers.contains(w);
            assert(all[k].wallpapers.contains(w));
        }
        if more.wallpapers.contains(w) {
            assert(all[last].wallpapers.contains(w));
        }
    }
}

/// What is in order stays so while wallpapers and animations stay as they are.
pub proof fn lemma_same_lists<S, T, I>(d: DaemonState<S, T, I>, e: DaemonState<S, T, I>)
    requires
        d.wf(),
        e.wallpapers == d.wallpapers,
        e.transitions == d.transitions,
        e.images == d.images,
        e.next_serial == d.next_serial,
    ensures
        e.wf(),
{
    assert forall|w: WallpaperId| #[trigger] e.animated(w) implies live(e.wallpapers, w) by {
        assert(d.animated(w));
    }
}

/// The daemon when one of its transitions has moved on.
pub open spec fn with_transition<S, T, I>(
    d: DaemonState<S, T, I>,
    i: int,
    effect: T,
) -> DaemonState<S, T, I> {
    DaemonState {
        transitions: d.transitions.update(i, AnimatorState { effect, ..d.transitions[i] }),
        ..d
    }
}

/// The daemon when one of its images has moved on.
pub open spec fn with_image<S, T, I>(
    d: DaemonState<S, T, I>,
    i: int,
    effect: I,
) -> DaemonState<S, T, I> {
    DaemonState {
        images: d.images.update(i, AnimatorState { effect, ..d.images[i] }),
        ..d
    }
}

/// What an animation does has nothing to do with what it shares with others.
proof fn lemma_moved_on<E>(animators: Seq<AnimatorState<E>>, i: int, effect: E)
    requires
        exclusive(animators),
        0 <= i < animators.len(),
    ensures
        ({
            let now = animators.update(i, AnimatorState { effect, ..animators[i] });
            &&& exclusive(now)
            &&& forall|w: WallpaperId| #[trigger] drawn_on(now, w) == drawn_on(animators, w)
        }),
{
    let now = animators.update(i, AnimatorState { effect, ..animators[i] });
    assert forall|k: int| 0 <= k < now.len() implies #[trigger] now[k].wallpapers
        == animators[k].wallpapers by {}
    assert forall|a: int, b: int| 0 <= a < b < now.len() implies disjoint(
        #[trigger] now[a],
        #[trigger] now[b],
    ) by {
        assert(disjoint(animators[a], animators[b]));
    }
    assert forall|w: WallpaperId| #[trigger] drawn_on(now, w) == drawn_on(animators, w) by {
        if drawn_on(now, w) {
            let k = choose|k: int| 0 <= k < now.len() && #[trigger] now[k].wallpapers.contains(w);
            assert(animators[k].wallpapers.contains(w));
        }
        if drawn_on(animators, w) {
            let k = choose|k: int|
                0 <= k < animators.len() && #[trigger] animators[k].wallpapers.contains(w);
            assert(now[k].wallpapers.contains(w));
        }
    }
}

/// What is in order stays so when an animation moves on.
pub proof fn lemma_with_transition_wf<S, T, I>(d: DaemonState<S, T, I>, i: int, effect: T)
    requires
        d.wf(),
        0 <= i < d.transitions.len(),
    ensures
        with_transition(d, i, effect).wf(),
{
    let now = with_transition(d, i, effect);
    lemma_moved_on(d.transitions, i, effect);
    assert forall|w: WallpaperId| #[trigger] now.animated(w) implies live(now.wallpapers, w) by {
        assert(d.animated(w));
    }
}

/// What is in order stays so when an animation moves on.
pub proof fn lemma_with_image_wf<S, T, I>(d: DaemonState<S, T, I>, i: int, effect: I)
    requires
        d.wf(),
        0 <= i < d.images.len(),
    ensures
        with_image(d, i, effect).wf(),
{
    let now = with_image(d, i, effect);
    lemma_moved_on(d.images, i, effect);
    assert forall|w: WallpaperId| #[trigger] now.animated(w) implies live(now.wallpapers, w) by {
        assert(d.animated(w));
    }
}

/// One more image, on wallpapers that nothing draws on, leaves the daemon in order.
pub proof fn lemma_image_added<S, T, I>(d: DaemonState<S, T, I>, more: AnimatorState<I>)
    requires
        d.wf(),
        more.wallpapers.no_duplicates(),
        forall|w: WallpaperId| #[trigger]
            more.wallpapers.contains(w) ==> live(d.wallpapers, w) && !d.animated(w),
    ensures
        (DaemonState { images: d.images.push(more), ..d }).wf(),
{
    let now = DaemonState { images: d.images.push(more), ..d };
    assert forall|w: WallpaperId| #[trigger] more.wallpapers.contains(w) implies !drawn_on(
        d.images,
        w,
    ) by {
        assert(!d.animated(w));
    }
    lemma_exclusive_push(d.images, more);
    assert forall|w: WallpaperId|
        !(#[trigger] drawn_on(now.transitions, w) && #[trigger] drawn_on(now.images, w)) by {
        if more.wallpapers.contains(w) {
            assert(!d.animated(w));
        }
    }
    assert forall|w: WallpaperId| #[trigger] now.animated(w) implies live(now.wallpapers, w) by {
        if !more.wallpapers.contains(w) {
            assert(d.animated(w));
        }
    }
}

impl<S, T, I> Daemon<S, T, I> {
    /// Begins a pass over all animations.
    pub fn draw(self) -> (draw: Draw<S, T, I>)
        requires
            self@.wf(),
        ensures
            draw@ == draw_begin(self@),
            draw@.wf(),
    {
        let mut daemon = self;
        daemon.poll_time = PollTime::Never;
        proof {
            lemma_same_lists(self@, daemon@);
        }
        daemon.scan_transitions(0)
    }

    /// A frame callback was answered. If a wallpaper has waited for it, that one is ready for its
    /// next frame, and a pass begins.
    pub fn callback_done(self, sender: ObjectId) -> (draw: Draw<S, T, I>)
        requires
            self@.wf(),
        ensures
            draw@ == callback_answered(self@, sender),
            draw@.wf(),
    {
        match self.find(Key::Callback(sender)) {
            Some(i) => {
                let mut daemon = self;
                daemon.wallpapers[i].frame_callback_completed();
                let ghost w = daemon.wallpapers@[i as int]@;
                proof {
                    assert(daemon@.wallpapers =~= self@.wallpapers.update(i as int, w));
                    lemma_changed_wf(self@, i as int, w);
                }
                daemon.draw()
            },
            None => Draw::Done(self),
        }
    }

    /// Whether a frame may be drawn on all of these wallpapers.
    fn all_ready(&self, wallpapers: &Vec<WallpaperId>) -> (ready: bool)
        requires
            self@.wf(),
        ensures
            ready == forall|k: int|
                0 <= k < wallpapers@.len() ==> is_ready(
                    self@.wallpapers,
                    #[trigger] wallpapers@[k],
                ),
    {
        let mut k: usize = 0;
        while k < wallpapers.len()
            invariant
                self@.wf(),
                k <= wallpapers@.len(),
                forall|j: int|
                    0 <= j < k ==> is_ready(self@.wallpapers, #[trigger] wallpapers@[j]),
            decreases wallpapers@.len() - k,
        {
            let w = wallpapers[k];
            match self.find(Key::Id(w)) {
                Some(i) => {
                    assert(self@.wallpapers[i as int] == self.wallpapers@[i as int]@);
                    if !self.wallpapers[i].is_draw_ready() {
                        assert(!is_ready(self@.wallpapers, wallpapers@[k as int]));
                        return false;
                    }
                },
                None => {
                    proof {
                        lemma_live(self@.wallpapers, w);
                    }
                    assert(!is_ready(self@.wallpapers, wallpapers@[k as int]));
                    return false;
                },
            }
            k += 1;
        }
        true
    }

    /// Goes on with the transitions from `start` on.
    fn scan_transitions(self, start: usize) -> (draw: Draw<S, T, I>)
        requires
            self@.wf(),
        ensures
            draw@ == scan_transitions(self@, start as int),
            draw@.wf(),
    {
        let mut daemon = self;
        let mut i: usize = start;
        while i < daemon.transition_animators.len()
            invariant
                daemon@.wf(),
                scan_transitions(self@, start as int) == scan_transitions(daemon@, i as int),
            decreases daemon.transition_animators@.len() - i,
        {
            assert(daemon@.transitions[i as int] == daemon.transition_animators@[i as int]@);
            if daemon.all_ready(daemon.transition_animators[i].wallpapers()) {
                return Draw::Time(DrawPass { daemon, stage: Stage::Transition(i) });
            }
            proof {
                lemma_same_lists(daemon@, put_off(daemon@));
            }
            daemon.poll_time = PollTime::Short;
            i += 1;
        }
        proof {
            lemma_busy_wf(daemon@);
        }
        retain_busy(&mut daemon.image_animators);
        daemon.scan_images(0)
    }

    /// Goes on with the images from `start` on.
    fn scan_images(self, start: usize) -> (draw: Draw<S, T, I>)
        requires
            self@.wf(),
        ensures
            draw@ == scan_images(self@, start as int),
            draw@.wf(),
    {
        let mut daemon = self;
        let mut i: usize = start;
        while i < daemon.image_animators.len()
            invariant
                daemon@.wf(),
                scan_images(self@, start as int) == scan_images(daemon@, i as int),
            decreases daemon.image_animators@.len() - i,
        {
            assert(daemon@.images[i as int] == daemon.image_animators@[i as int]@);
            if daemon.all_ready(daemon.image_animators[i].wallpapers()) {
                return Draw::Time(DrawPass { daemon, stage: Stage::Image(i) });
            }
            proof {
                lemma_same_lists(daemon@, put_off(daemon@));
            }
            daemon.poll_time = PollTime::Short;
            i += 1;
        }
        Draw::Done(daemon)
    }

    /// Goes on behind an animation.
    fn advance(self, stage: Stage) -> (draw: Draw<S, T, I>)
        requires
            self@.wf(),
            stage_in(self@, stage),
        ensures
            draw@ == advance(self@, stage),
            draw@.wf(),
    {
        match stage {
            Stage::Transition(i) => {
                let count: usize = self.transition_animators.len();
                assert(i < count);
                self.scan_transitions(i + 1)
            },
            Stage::Image(i) => {
                let count: usize = self.image_animators.len();
                assert(i < count);
                self.scan_images(i + 1)
            },
        }
    }
}

impl<S, T, I> DrawPass<S, T, I> {
    /// The daemon, as the pass has left it so far.
    pub closed spec fn state(&self) -> DaemonState<S, T, I> {
        self.daemon@
    }

    /// The animation that the pass has stopped at.
    pub closed spec fn at(&self) -> Stage {
        self.stage
    }

    /// What always holds of a pass that has stopped at an animation.
    pub open spec fn wf(&self) -> bool {
        self.state().wf() && stage_in(self.state(), self.at())
    }

    /// The daemon, to look things up in.
    pub fn daemon(&self) -> (daemon: &Daemon<S, T, I>)
        ensures
            daemon@ == self.state(),
    {
        &self.daemon
    }

    /// The animation that the pass has stopped at.
    pub fn stage(&self) -> (stage: Stage)
        ensures
            stage == self.at(),
    {
        self.stage
    }

    /// The wallpapers of the animation.
    pub fn wallpapers(&self) -> (wallpapers: &Vec<WallpaperId>)
        requires
            self.wf(),
        ensures
            wallpapers@ == match self.at() {
                Stage::Transition(i) => self.state().transitions[i as int].wallpapers,
                Stage::Image(i) => self.state().images[i as int].wallpapers,
            },
    {
        match self.stage {
            Stage::Transition(i) => self.daemon.transition_animators[i].wallpapers(),
            Stage::Image(i) => self.daemon.image_animators[i].wallpapers(),
        }
    }

    /// A frame of a wallpaper was handed to the compositor, which answers with `callback`.
    pub fn frame_requested(&mut self, id: WallpaperId, callback: ObjectId)
        requires
            old(self).wf(),
        ensures
            final(self).state() == awaiting(old(self).state(), id, callback),
            final(self).at() == old(self).at(),
            final(self).wf(),
    {
        self.daemon.frame_requested(id, callback);
    }

    /// What the transition does, to be moved on, if that is what the pass has stopped at.
    pub fn transition(&mut self) -> (effect: Option<&mut T>)
        requires
            old(self).wf(),
        ensures
            match effect {
                Some(effect) => {
                    &&& old(self).at() matches Stage::Transition(i) && *effect == old(
                        self,
                    ).state().transitions[i as int].effect && final(self).state()
                        == with_transition(old(self).state(), i as int, *final(effect))
                    &&& final(self).at() == old(self).at()
                },
                None => old(self).at() is Image && *final(self) == *old(self),
            },
            final(self).wf(),
    {
        match self.stage {
            Stage::Transition(i) => {
                let ghost d = self.daemon@;
                proof {
                    assert forall|e: T| #[trigger] with_transition(d, i as int, e).wf() by {
                        lemma_with_transition_wf(d, i as int, e);
                    }
                }
                Some(self.daemon.transition_animators[i].effect_mut())
            },
            Stage::Image(_) => None,
        }
    }

    /// What the image does, to be moved on, if that is what the pass has stopped at.
    pub fn image(&mut self) -> (effect: Option<&mut I>)
        requires
            old(self).wf(),
        ensures
            match effect {
                Some(effect) => {
                    &&& old(self).at() matches Stage::Image(i) && *effect == old(
                        self,
                    ).state().images[i as int].effect && final(self).state() == with_image(
                        old(self).state(),
                        i as int,
                        *final(effect),
                    )
                    &&& final(self).at() == old(self).at()
                },
                None => old(self).at() is Transition && *final(self) == *old(self),
            },
            final(self).wf(),
    {
        match self.stage {
            Stage::Image(i) => {
                let ghost d = self.daemon@;
                proof {
                    assert forall|e: I| #[trigger] with_image(d, i as int, e).wf() by {
                        lemma_with_image_wf(d, i as int, e);
                    }
                }
                Some(self.daemon.image_animators[i].effect_mut())
            },
            Stage::Transition(_) => None,
        }
    }

    /// The animation is to draw its next frame in `time` nanoseconds.
    pub fn timed(self, time: u128) -> (draw: Draw<S, T, I>)
        requires
            self.wf(),
        ensures
            draw@ == timed(self.state(), self.at(), time),
            draw@.wf(),
    {
        if time > DRAW_AHEAD {
            let mut daemon = self.daemon;
            daemon.poll_time = PollTime::Short;
            proof {
                lemma_same_lists(self.daemon@, daemon@);
            }
            daemon.advance(self.stage)
        } else {
            let wait = if time == 0 {
                None
            } else {
                Some(time)
            };
            Draw::Frame { pass: self, wait }
        }
    }

    /// The animation has drawn a frame. `finished` says whether it is over; an image never is.
    pub fn drawn(self, finished: bool) -> (draw: Draw<S, T, I>)
        requires
            self.wf(),
        ensures
            draw@ == drawn(self.state(), self.at(), finished),
            draw@.wf(),
    {
        match self.stage {
            Stage::Transition(index) if finished => {
                let mut daemon = self.daemon;
                proof {
                    lemma_taken_out(daemon@, index as int);
                }
                let ghost before = daemon@;
                let animator = daemon.transition_animators.swap_remove(index);
                let (wallpapers, effect) = animator.into_parts();
                assert(daemon@.transitions =~= before.transitions.update(
                    index as int,
                    before.transitions.last(),
                ).drop_last());
                Draw::Convert { conversion: Conversion { daemon, index, wallpapers }, effect }
            },
            _ => self.daemon.advance(self.stage),
        }
    }
}

impl<S, T, I> Conversion<S, T, I> {
    /// The daemon, as the pass has left it so far.
    pub closed spec fn state(&self) -> DaemonState<S, T, I> {
        self.daemon@
    }

    /// How many transitions are behind the pass.
    pub closed spec fn place(&self) -> int {
        self.index as int
    }

    /// The wallpapers of the transition that is over.
    pub closed spec fn freed(&self) -> Seq<WallpaperId> {
        self.wallpapers@
    }

    /// What always holds of a pass that has stopped because a transition is over.
    pub open spec fn wf(&self) -> bool {
        &&& self.state().wf()
        &&& 0 <= self.place() <= self.state().transitions.len()
        &&& self.freed().no_duplicates()
        &&& forall|w: WallpaperId| #[trigger]
            self.freed().contains(w) ==> live(self.state().wallpapers, w)
                && !self.state().animated(w)
    }

    /// The image that the transition has led to goes on like this, if it is animated.
    pub fn converted(self, image: Option<I>) -> (draw: Draw<S, T, I>)
        requires
            self.wf(),
        ensures
            draw@ == converted(self.state(), self.place(), self.freed(), image),
            draw@.wf(),
    {
        let Conversion { daemon, index, wallpapers } = self;
        let mut daemon = daemon;
        let ghost before = daemon@;
        if let Some(effect) = image {
            let ghost more = AnimatorState { wallpapers: wallpapers@, effect };
            daemon.image_animators.push(Animator::new(wallpapers, effect));
            proof {
                assert(daemon@.images =~= before.images.push(more));
                lemma_image_added(before, more);
            }
        }
        daemon.scan_transitions(index)
    }
}

} // verus!

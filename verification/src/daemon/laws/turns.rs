//! What holds of each animation in a pass: that it gets its turn, and what becomes of it.

use vstd::prelude::*;

use super::passes::{
    all_answer, answers, at_images, fits, fitting, law_of_a_pass, lemma_before,
    lemma_scan_images, lemma_scan_transitions, pass_after, pass_next, PassEvent,
};
use crate::animator::{busy, is_busy, AnimatorState};
use crate::daemon::draw::{
    all_ready, draw_begin, draw_next, put_off, scan_images, scan_transitions, DrawReply, DrawState,
    Stage,
};
use crate::daemon::DaemonState;
use crate::poll::PollTime;
use crate::timing::DRAW_AHEAD;
use crate::wallpaper::WallpaperState;

verus! {

/// The numbers below `n`.
pub open spec fn below(n: nat) -> Seq<int> {
    Seq::new(n, |k: int| k)
}

/// Whether each of the numbers below `n` is there exactly once, in whichever order.
pub open spec fn is_permutation(s: Seq<int>, n: nat) -> bool {
    &&& s.no_duplicates()
    &&& forall|x: int| #[trigger] s.contains(x) <==> 0 <= x < n
}

/// The animation that a pass has stopped at, if it has.
pub open spec fn stage_of<S, T, I>(s: DrawState<S, T, I>) -> Option<Stage> {
    match s {
        DrawState::Time { stage, .. } => Some(stage),
        DrawState::Frame { stage, .. } => Some(stage),
        _ => None,
    }
}

// What becomes of animations.

/// Which of the transitions there were at the beginning of a pass are left, each by its place
/// then, in the order they are in now. Where one has ended, the last one has taken its place.
pub open spec fn order<S, T, I>(d: DaemonState<S, T, I>, events: Seq<PassEvent<T, I>>) -> Seq<int>
    decreases events.len(),
{
    if events.len() == 0 {
        below(d.transitions.len())
    } else {
        let before = order(d, events.drop_last());
        match (pass_after(d, events.drop_last()), events.last()) {
            (
                DrawState::Frame { stage: Stage::Transition(i), .. },
                PassEvent::Told(DrawReply::Drawn { finished: true }),
            ) => before.update(i as int, before.last()).drop_last(),
            _ => before,
        }
    }
}

/// The transitions whose last frame was drawn so far, in turn, each by its place at the beginning.
pub open spec fn ended<S, T, I>(d: DaemonState<S, T, I>, events: Seq<PassEvent<T, I>>) -> Seq<int>
    decreases events.len(),
{
    if events.len() == 0 {
        Seq::empty()
    } else {
        let before = ended(d, events.drop_last());
        match (pass_after(d, events.drop_last()), events.last()) {
            (
                DrawState::Frame { stage: Stage::Transition(i), .. },
                PassEvent::Told(DrawReply::Drawn { finished: true }),
            ) => before.push(order(d, events.drop_last())[i as int]),
            _ => before,
        }
    }
}

/// The animated images that transitions have become so far, in turn.
pub open spec fn came_about<S, T, I>(
    d: DaemonState<S, T, I>,
    events: Seq<PassEvent<T, I>>,
) -> Seq<AnimatorState<I>>
    decreases events.len(),
{
    if events.len() == 0 {
        Seq::empty()
    } else {
        let before = came_about(d, events.drop_last());
        match (pass_after(d, events.drop_last()), events.last()) {
            (
                DrawState::Convert { wallpapers, .. },
                PassEvent::Told(DrawReply::Converted(Some(effect))),
            ) => before.push(AnimatorState { wallpapers, effect }),
            _ => before,
        }
    }
}

/// What the transition that was at `t` at the beginning was last moved on to, if it was.
pub open spec fn moved_transition<S, T, I>(
    d: DaemonState<S, T, I>,
    events: Seq<PassEvent<T, I>>,
    t: int,
) -> Option<T>
    decreases events.len(),
{
    if events.len() == 0 {
        None
    } else {
        let before = events.drop_last();
        match (stage_of(pass_after(d, before)), events.last()) {
            (Some(Stage::Transition(i)), PassEvent::Transition(effect)) if order(
                d,
                before,
            )[i as int] == t => Some(effect),
            _ => moved_transition(d, before, t),
        }
    }
}

/// What the image at `j` was last moved on to, if it was.
pub open spec fn moved_image<S, T, I>(
    d: DaemonState<S, T, I>,
    events: Seq<PassEvent<T, I>>,
    j: int,
) -> Option<I>
    decreases events.len(),
{
    if events.len() == 0 {
        None
    } else {
        let before = events.drop_last();
        match (stage_of(pass_after(d, before)), events.last()) {
            (Some(Stage::Image(i)), PassEvent::Image(effect)) if i == j => Some(effect),
            _ => moved_image(d, before, j),
        }
    }
}

/// An animation that was moved on, if it was.
pub open spec fn moved<E>(animator: AnimatorState<E>, effect: Option<E>) -> AnimatorState<E> {
    match effect {
        Some(effect) => AnimatorState { effect, ..animator },
        None => animator,
    }
}

/// Whether each transition that there was at the beginning is left or has ended, and not both.
pub open spec fn left_or_ended<S, T, I>(
    d: DaemonState<S, T, I>,
    events: Seq<PassEvent<T, I>>,
) -> bool {
    &&& is_permutation(order(d, events) + ended(d, events), d.transitions.len())
    &&& pass_after(d, events).daemon().transitions.len() == order(d, events).len()
}

/// The transition that was at `t` at the beginning, as it is by now.
pub open spec fn transition_now<S, T, I>(
    d: DaemonState<S, T, I>,
    events: Seq<PassEvent<T, I>>,
    t: int,
) -> AnimatorState<T> {
    moved(d.transitions[t], moved_transition(d, events, t))
}

/// Whether the transitions that are left are those that they were, or what they were moved on to,
/// and so is one that has just ended.
pub open spec fn transitions_kept<S, T, I>(
    d: DaemonState<S, T, I>,
    events: Seq<PassEvent<T, I>>,
) -> bool {
    let s = pass_after(d, events);
    &&& forall|j: int|
        0 <= j < order(d, events).len() ==> #[trigger] s.daemon().transitions[j] == transition_now(
            d,
            events,
            order(d, events)[j],
        )
    &&& s matches DrawState::Convert { wallpapers, effect, .. } ==> ended(d, events).len() > 0
        && AnimatorState { wallpapers, effect } == transition_now(
        d,
        events,
        ended(d, events).last(),
    )
}

/// Whether the images are those that were there, followed by those that transitions have become.
/// Once it is their turn, those without a wallpaper are left out, and the others are what they
/// were, or what they were moved on to.
pub open spec fn images_kept<S, T, I>(
    d: DaemonState<S, T, I>,
    events: Seq<PassEvent<T, I>>,
) -> bool {
    let s = pass_after(d, events);
    let now = s.daemon().images;
    let all = d.images + came_about(d, events);
    if at_images(s) {
        &&& now.len() == busy(all).len()
        &&& forall|j: int|
            0 <= j < now.len() ==> #[trigger] now[j] == moved(
                busy(all)[j],
                moved_image(d, events, j),
            )
    } else {
        now == all
    }
}

/// A pass loses exactly the transitions whose last frame was drawn, each once. Those that are left
/// are what they were, or what they were last moved on to, and so is one that has just ended. The
/// images are those that were there, followed by those that transitions have become; once it is
/// their turn, those without a wallpaper are left out, and the others may be moved on.
pub proof fn law_what_becomes_of_animations<S, T, I>(
    d: DaemonState<S, T, I>,
    events: Seq<PassEvent<T, I>>,
)
    requires
        d.wf(),
        d.transitions.len() + d.images.len() <= usize::MAX,
        all_answer(d, events),
    ensures
        left_or_ended(d, events),
        transitions_kept(d, events),
        images_kept(d, events),
    decreases events.len(),
{
    if events.len() == 0 {
        let now = DaemonState { poll_time: PollTime::Never, ..d };
        lemma_scan_transitions(now, 0);
        assert(d.images + Seq::<AnimatorState<I>>::empty() =~= d.images);
        let all = below(d.transitions.len());
        assert(all + Seq::<int>::empty() =~= all);
        lemma_below(d.transitions.len());
    } else {
        lemma_before(d, events);
        law_of_a_pass(d, events.drop_last());
        law_what_becomes_of_animations(d, events.drop_last());
        lemma_left_or_ended(d, events);
        lemma_transitions_kept(d, events);
        lemma_unmoved_images(d, events.drop_last());
        lemma_images_kept(d, events);
    }
}

/// What is left or has ended stays accounted for from one step to the next.
proof fn lemma_left_or_ended<S, T, I>(d: DaemonState<S, T, I>, events: Seq<PassEvent<T, I>>)
    requires
        events.len() > 0,
        all_answer(d, events),
        pass_after(d, events.drop_last()).wf(),
        fits(pass_after(d, events.drop_last())),
        left_or_ended(d, events.drop_last()),
    ensures
        left_or_ended(d, events),
{
    let before = events.drop_last();
    let s = pass_after(d, before);
    lemma_before(d, events);
    if let PassEvent::Told(reply) = events.last() {
        lemma_next_lists(s, reply);
        if let DrawState::Frame { stage: Stage::Transition(i), .. } = s {
            if reply == (DrawReply::<I>::Drawn { finished: true }) {
                lemma_moved_to_the_end(
                    order(d, before),
                    ended(d, before),
                    i as int,
                    d.transitions.len(),
                );
            }
        }
    }
}

/// What becomes of transitions from one step to the next.
proof fn lemma_transitions_kept<S, T, I>(d: DaemonState<S, T, I>, events: Seq<PassEvent<T, I>>)
    requires
        events.len() > 0,
        all_answer(d, events),
        pass_after(d, events.drop_last()).wf(),
        fits(pass_after(d, events.drop_last())),
        left_or_ended(d, events.drop_last()),
        transitions_kept(d, events.drop_last()),
    ensures
        transitions_kept(d, events),
{
    lemma_before(d, events);
    if let PassEvent::Told(reply) = events.last() {
        lemma_transitions_kept_told(d, events, reply);
    } else {
        lemma_transitions_kept_meanwhile(d, events);
    }
}

/// What becomes of transitions when a pass is told something.
proof fn lemma_transitions_kept_told<S, T, I>(
    d: DaemonState<S, T, I>,
    events: Seq<PassEvent<T, I>>,
    reply: DrawReply<I>,
)
    requires
        events.len() > 0,
        events.last() == PassEvent::<T, I>::Told(reply),
        answers(pass_after(d, events.drop_last()), reply),
        pass_after(d, events.drop_last()).wf(),
        fits(pass_after(d, events.drop_last())),
        left_or_ended(d, events.drop_last()),
        transitions_kept(d, events.drop_last()),
    ensures
        transitions_kept(d, events),
{
    let before = events.drop_last();
    let s = pass_after(d, before);
    let now = draw_next(s, reply);
    let left = order(d, before);
    assert(pass_after(d, events) == now);
    lemma_next_lists(s, reply);
    assert forall|t: int| #[trigger]
        transition_now(d, events, t) == transition_now(d, before, t) by {
        assert(moved_transition(d, events, t) == moved_transition(d, before, t));
    }
    if s is Frame && s->Frame_stage is Transition && reply == (DrawReply::<I>::Drawn {
        finished: true,
    }) {
        let i = s->Frame_stage->Transition_0 as int;
        let last = left.len() - 1;
        assert(order(d, events) == left.update(i, left.last()).drop_last());
        assert(ended(d, events).last() == left[i]);
        assert forall|j: int| 0 <= j < order(d, events).len() implies #[trigger]
            now.daemon().transitions[j] == transition_now(d, events, order(d, events)[j]) by {
            let from = if j == i {
                last
            } else {
                j
            };
            assert(s.daemon().transitions[from] == transition_now(d, before, left[from]));
        }
        assert(s.daemon().transitions[i] == transition_now(d, before, left[i]));
    } else {
        assert(order(d, events) == left);
        assert forall|j: int| 0 <= j < left.len() implies #[trigger] now.daemon().transitions[j]
            == transition_now(d, events, left[j]) by {
            assert(s.daemon().transitions[j] == transition_now(d, before, left[j]));
        }
    }
}

/// What becomes of transitions when a pass is not told anything.
proof fn lemma_transitions_kept_meanwhile<S, T, I>(
    d: DaemonState<S, T, I>,
    events: Seq<PassEvent<T, I>>,
)
    requires
        events.len() > 0,
        events.last() !is Told,
        pass_after(d, events.drop_last()).wf(),
        left_or_ended(d, events.drop_last()),
        transitions_kept(d, events.drop_last()),
    ensures
        transitions_kept(d, events),
{
    let before = events.drop_last();
    let s = pass_after(d, before);
    let now = pass_next(s, events.last());
    let left = order(d, before);
    assert(pass_after(d, events) == now);
    assert(order(d, events) == left);
    assert(ended(d, events) == ended(d, before));
    assert forall|j: int| 0 <= j < left.len() implies #[trigger] now.daemon().transitions[j]
        == transition_now(d, events, left[j]) by {
        assert(s.daemon().transitions[j] == transition_now(d, before, left[j]));
        if let Some(Stage::Transition(i)) = stage_of(s) {
            if j != i {
                assert((left + ended(d, before))[j] == left[j]);
                assert((left + ended(d, before))[i as int] == left[i as int]);
                assert(left[j] != left[i as int]);
            }
        }
    }
}

/// Images are not moved on before it is their turn.
proof fn lemma_unmoved_images<S, T, I>(d: DaemonState<S, T, I>, events: Seq<PassEvent<T, I>>)
    requires
        d.wf(),
        d.transitions.len() + d.images.len() <= usize::MAX,
        all_answer(d, events),
    ensures
        !at_images(pass_after(d, events)) ==> forall|j: int|
            (#[trigger] moved_image(d, events, j)) is None,
    decreases events.len(),
{
    if events.len() > 0 {
        let before = events.drop_last();
        lemma_before(d, events);
        law_of_a_pass(d, before);
        lemma_unmoved_images(d, before);
        if let PassEvent::Told(reply) = events.last() {
            lemma_next_lists(pass_after(d, before), reply);
        }
        if !at_images(pass_after(d, events)) {
            assert(!at_images(pass_after(d, before)));
            assert forall|j: int| (#[trigger] moved_image(d, events, j)) is None by {
                assert(moved_image(d, before, j) is None);
            }
        }
    }
}

/// What becomes of images from one step to the next.
proof fn lemma_images_kept<S, T, I>(d: DaemonState<S, T, I>, events: Seq<PassEvent<T, I>>)
    requires
        events.len() > 0,
        all_answer(d, events),
        pass_after(d, events.drop_last()).wf(),
        fits(pass_after(d, events.drop_last())),
        images_kept(d, events.drop_last()),
        !at_images(pass_after(d, events.drop_last())) ==> forall|j: int|
            (#[trigger] moved_image(d, events.drop_last(), j)) is None,
    ensures
        images_kept(d, events),
{
    let before = events.drop_last();
    let s = pass_after(d, before);
    let now = pass_after(d, events);
    lemma_before(d, events);
    if let PassEvent::Told(reply) = events.last() {
        lemma_next_lists(s, reply);
        assert forall|j: int| #[trigger]
            moved_image(d, events, j) == moved_image(d, before, j) by {}
        if s is Convert && reply is Converted && reply->Converted_0 is Some {
            let more = AnimatorState {
                wallpapers: s->wallpapers,
                effect: reply->Converted_0->0,
            };
            assert((d.images + came_about(d, before)).push(more) =~= d.images + came_about(
                d,
                events,
            ));
        } else {
            assert(came_about(d, events) == came_about(d, before));
        }
    } else {
        assert(came_about(d, events) == came_about(d, before));
    }
}

/// The numbers below `n`, in order, are there once each.
proof fn lemma_below(n: nat)
    ensures
        is_permutation(below(n), n),
{
    assert forall|x: int| #[trigger] below(n).contains(x) <==> 0 <= x < n by {
        if 0 <= x < n {
            assert(below(n)[x] == x);
        }
    }
}

/// What is there once each still is when it is put in another order.
proof fn lemma_rearranged(
    s: Seq<int>,
    t: Seq<int>,
    n: nat,
    from: spec_fn(int) -> int,
    to: spec_fn(int) -> int,
)
    requires
        is_permutation(s, n),
        s.len() == t.len(),
        forall|k: int|
            0 <= k < t.len() ==> 0 <= #[trigger] from(k) < s.len() && t[k] == s[from(k)] && to(
                from(k),
            ) == k,
        forall|k: int|
            0 <= k < s.len() ==> 0 <= #[trigger] to(k) < t.len() && from(to(k)) == k,
    ensures
        is_permutation(t, n),
{
    assert forall|i: int, j: int| 0 <= i < t.len() && 0 <= j < t.len() && i != j implies t[i]
        != t[j] by {
        assert(0 <= from(i) < s.len() && 0 <= from(j) < s.len());
        assert(to(from(i)) == i && to(from(j)) == j);
        assert(s[from(i)] != s[from(j)]);
    }
    assert forall|x: int| #[trigger] t.contains(x) <==> 0 <= x < n by {
        if t.contains(x) {
            let k = choose|k: int| 0 <= k < t.len() && t[k] == x;
            assert(s[from(k)] == x);
            assert(s.contains(x));
        }
        if 0 <= x < n {
            assert(s.contains(x));
            let k = choose|k: int| 0 <= k < s.len() && s[k] == x;
            assert(from(to(k)) == k);
            assert(t[to(k)] == s[from(to(k))]);
            assert(t.contains(x));
        }
    }
}

/// One that is taken out of its place, which the last one takes, and put behind all others is
/// still there once.
proof fn lemma_moved_to_the_end(left: Seq<int>, gone: Seq<int>, i: int, n: nat)
    requires
        0 <= i < left.len(),
        is_permutation(left + gone, n),
    ensures
        is_permutation(left.update(i, left.last()).drop_last() + gone.push(left[i]), n),
{
    let s = left + gone;
    let t = left.update(i, left.last()).drop_last() + gone.push(left[i]);
    let here = left.len() as int;
    let all = s.len() as int;
    let from = |k: int|
        if k < here - 1 {
            if k == i {
                here - 1
            } else {
                k
            }
        } else if k < all - 1 {
            k + 1
        } else {
            i
        };
    let to = |k: int|
        if k == i {
            all - 1
        } else if k == here - 1 {
            i
        } else if k < here {
            k
        } else {
            k - 1
        };
    lemma_rearranged(s, t, n, from, to);
}

/// One that is taken out of its place, which the last one takes, and put among those that have had
/// their turn is still there once.
proof fn lemma_had_its_turn(had: Seq<int>, left: Seq<int>, i: int, n: nat)
    requires
        0 <= i < left.len(),
        is_permutation(had + left.skip(i), n),
    ensures
        is_permutation(
            had.push(left[i]) + left.update(i, left.last()).drop_last().skip(i),
            n,
        ),
{
    let s = had + left.skip(i);
    let t = had.push(left[i]) + left.update(i, left.last()).drop_last().skip(i);
    let m = had.len() as int;
    let all = s.len() as int;
    let from = |k: int|
        if k <= m {
            k
        } else if k == m + 1 {
            all - 1
        } else {
            k - 1
        };
    let to = |k: int|
        if k <= m {
            k
        } else if k == all - 1 {
            m + 1
        } else {
            k + 1
        };
    lemma_rearranged(s, t, n, from, to);
}

/// What becomes of transitions and images when a pass is told something.
proof fn lemma_next_lists<S, T, I>(s: DrawState<S, T, I>, reply: DrawReply<I>)
    requires
        s.wf(),
        fits(s),
        answers(s, reply),
    ensures
        ({
            let d = s.daemon();
            let now = draw_next(s, reply);
            let images = match (s, reply) {
                (
                    DrawState::Convert { wallpapers, .. },
                    DrawReply::Converted(Some(effect)),
                ) => d.images.push(AnimatorState { wallpapers, effect }),
                _ => d.images,
            };
            &&& now.daemon().transitions == match (s, reply) {
                (
                    DrawState::Frame { stage: Stage::Transition(i), .. },
                    DrawReply::Drawn { finished: true },
                ) => d.transitions.update(i as int, d.transitions.last()).drop_last(),
                _ => d.transitions,
            }
            &&& now is Convert ==> s is Frame && s->Frame_stage is Transition && reply == (
            DrawReply::<I>::Drawn { finished: true })
            &&& at_images(s) ==> at_images(now)
            &&& now.daemon().images == if at_images(now) && !at_images(s) {
                busy(images)
            } else {
                images
            }
        }),
{
    match s {
        DrawState::Time { daemon, stage } => {
            let later = put_off(daemon);
            match stage {
                Stage::Transition(i) => lemma_scan_transitions(later, i + 1),
                Stage::Image(i) => lemma_scan_images(later, i + 1),
            }
        },
        DrawState::Frame { daemon, stage, .. } => {
            match stage {
                Stage::Transition(i) => lemma_scan_transitions(daemon, i + 1),
                Stage::Image(i) => lemma_scan_images(daemon, i + 1),
            }
        },
        DrawState::Convert { daemon, index, wallpapers, .. } => {
            lemma_scan_transitions(daemon, index);
            if let DrawReply::Converted(Some(effect)) = reply {
                let more = AnimatorState { wallpapers, effect };
                let now = DaemonState { images: daemon.images.push(more), ..daemon };
                lemma_scan_transitions(now, index);
            }
        },
        DrawState::Done { .. } => {},
    }
}

// Turns.

/// What came of an animation when it was its turn, and which animation that was.
pub enum Turn {
    /// A frame of it was drawn.
    Drawn(int),
    /// Its frame was due too late.
    Late(int),
    /// One of its wallpapers was not ready for a frame.
    Waiting(int),
}

/// The animation whose turn it was.
pub open spec fn which(turn: Turn) -> int {
    match turn {
        Turn::Drawn(k) => k,
        Turn::Late(k) => k,
        Turn::Waiting(k) => k,
    }
}

/// The animations whose turn it was, one after another.
pub open spec fn numbers(turns: Seq<Turn>) -> Seq<int> {
    turns.map_values(|turn: Turn| which(turn))
}

/// The turns of those animations from `i` on that are passed over, up to the first one that is
/// ready for a frame.
pub open spec fn passed_over<S, E>(
    wallpapers: Seq<WallpaperState<S>>,
    animators: Seq<AnimatorState<E>>,
    ids: Seq<int>,
    i: int,
) -> Seq<Turn>
    decreases animators.len() - i,
{
    if i >= animators.len() || all_ready(wallpapers, animators[i]) {
        Seq::empty()
    } else {
        seq![Turn::Waiting(ids[i])] + passed_over(wallpapers, animators, ids, i + 1)
    }
}

/// The turns of transitions that come of telling a pass something. `ids` says which transition is
/// where.
pub open spec fn turns_of<S, T, I>(
    s: DrawState<S, T, I>,
    reply: DrawReply<I>,
    ids: Seq<int>,
) -> Seq<Turn> {
    match (s, reply) {
        (
            DrawState::Time { daemon, stage: Stage::Transition(i) },
            DrawReply::Time(time),
        ) if time > DRAW_AHEAD => seq![Turn::Late(ids[i as int])] + passed_over(
            daemon.wallpapers,
            daemon.transitions,
            ids,
            i + 1,
        ),
        (
            DrawState::Frame { daemon, stage: Stage::Transition(i), .. },
            DrawReply::Drawn { finished },
        ) => seq![Turn::Drawn(ids[i as int])] + if finished {
            Seq::empty()
        } else {
            passed_over(daemon.wallpapers, daemon.transitions, ids, i + 1)
        },
        (DrawState::Convert { daemon, index, .. }, DrawReply::Converted(_)) => passed_over(
            daemon.wallpapers,
            daemon.transitions,
            ids,
            index,
        ),
        _ => Seq::empty(),
    }
}

/// The turns of images from `i` on that are passed over.
pub open spec fn images_passed_over<S, T, I>(d: DaemonState<S, T, I>, i: int) -> Seq<Turn> {
    passed_over(d.wallpapers, d.images, below(d.images.len()), i)
}

/// The turns of images that come of telling a pass something.
pub open spec fn image_turns_of<S, T, I>(
    s: DrawState<S, T, I>,
    reply: DrawReply<I>,
) -> Seq<Turn> {
    let now = draw_next(s, reply);
    match (s, reply) {
        (
            DrawState::Time { stage: Stage::Image(i), daemon },
            DrawReply::Time(time),
        ) if time > DRAW_AHEAD => seq![Turn::Late(i as int)] + images_passed_over(daemon, i + 1),
        (
            DrawState::Frame { stage: Stage::Image(i), daemon, .. },
            DrawReply::Drawn { .. },
        ) => seq![Turn::Drawn(i as int)] + images_passed_over(daemon, i + 1),
        _ => if at_images(now) && !at_images(s) {
            images_passed_over(now.daemon(), 0)
        } else {
            Seq::empty()
        },
    }
}

/// The turns that transitions have had so far, each transition by its place at the beginning.
pub open spec fn turns<S, T, I>(d: DaemonState<S, T, I>, events: Seq<PassEvent<T, I>>) -> Seq<Turn>
    decreases events.len(),
{
    if events.len() == 0 {
        passed_over(d.wallpapers, d.transitions, below(d.transitions.len()), 0)
    } else {
        let before = events.drop_last();
        turns(d, before) + match events.last() {
            PassEvent::Told(reply) => turns_of(pass_after(d, before), reply, order(d, before)),
            _ => Seq::empty(),
        }
    }
}

/// The turns that images have had so far.
pub open spec fn image_turns<S, T, I>(
    d: DaemonState<S, T, I>,
    events: Seq<PassEvent<T, I>>,
) -> Seq<Turn>
    decreases events.len(),
{
    if events.len() == 0 {
        if at_images(draw_begin(d)) {
            images_passed_over(draw_begin(d).daemon(), 0)
        } else {
            Seq::empty()
        }
    } else {
        let before = events.drop_last();
        image_turns(d, before) + match events.last() {
            PassEvent::Told(reply) => image_turns_of(pass_after(d, before), reply),
            _ => Seq::empty(),
        }
    }
}

/// How many of the transitions that are left have had their turn.
pub open spec fn place<S, T, I>(s: DrawState<S, T, I>) -> int {
    match s {
        DrawState::Time { stage: Stage::Transition(i), .. } => i as int,
        DrawState::Frame { stage: Stage::Transition(i), .. } => i as int,
        DrawState::Convert { index, .. } => index,
        _ => s.daemon().transitions.len() as int,
    }
}

/// How many of the images have had their turn.
pub open spec fn image_place<S, T, I>(s: DrawState<S, T, I>) -> int {
    match s {
        DrawState::Time { stage: Stage::Image(i), .. } => i as int,
        DrawState::Frame { stage: Stage::Image(i), .. } => i as int,
        DrawState::Done { daemon } => daemon.images.len() as int,
        _ => 0,
    }
}

/// Every animation gets exactly one turn in a pass: none is skipped and none comes twice, also
/// where one is taken out. In its turn a frame of it is drawn, unless one of its wallpapers is not
/// ready or the frame is due too late. Transitions that have not had their turn are ahead; images
/// have theirs in order, once all transitions have.
pub proof fn law_every_animation_gets_one_turn<S, T, I>(
    d: DaemonState<S, T, I>,
    events: Seq<PassEvent<T, I>>,
)
    requires
        d.wf(),
        d.transitions.len() + d.images.len() <= usize::MAX,
        all_answer(d, events),
    ensures
        ({
            let s = pass_after(d, events);
            let had = numbers(turns(d, events));
            &&& is_permutation(had + order(d, events).skip(place(s)), d.transitions.len())
            &&& at_images(s) ==> is_permutation(had, d.transitions.len())
            &&& numbers(image_turns(d, events)) == below(image_place(s) as nat)
            &&& s is Done ==> numbers(image_turns(d, events)) == below(s.daemon().images.len())
        }),
    decreases events.len(),
{
    if events.len() == 0 {
        let s = draw_begin(d);
        let now = DaemonState { poll_time: PollTime::Never, ..d };
        let ids = below(d.transitions.len());
        lemma_scan_transitions(now, 0);
        lemma_passed_over(now, ids, 0);
        assert(numbers(turns(d, events)) + ids.skip(place(s)) =~= ids);
        assert(numbers(Seq::empty()) =~= below(0));
        lemma_below(d.transitions.len());
    } else {
        lemma_before(d, events);
        law_of_a_pass(d, events.drop_last());
        law_what_becomes_of_animations(d, events.drop_last());
        law_every_animation_gets_one_turn(d, events.drop_last());
        lemma_turns_so_far(d, events);
        lemma_image_turns_so_far(d, events);
    }
    law_what_becomes_of_animations(d, events);
    let s = pass_after(d, events);
    if at_images(s) {
        let had = numbers(turns(d, events));
        assert(had + order(d, events).skip(place(s)) =~= had);
    }
}

/// The turns of transitions from one step to the next.
proof fn lemma_turns_so_far<S, T, I>(d: DaemonState<S, T, I>, events: Seq<PassEvent<T, I>>)
    requires
        events.len() > 0,
        all_answer(d, events),
        pass_after(d, events.drop_last()).wf(),
        fits(pass_after(d, events.drop_last())),
        left_or_ended(d, events.drop_last()),
        is_permutation(
            numbers(turns(d, events.drop_last())) + order(d, events.drop_last()).skip(
                place(pass_after(d, events.drop_last())),
            ),
            d.transitions.len(),
        ),
    ensures
        is_permutation(
            numbers(turns(d, events)) + order(d, events).skip(place(pass_after(d, events))),
            d.transitions.len(),
        ),
{
    let before = events.drop_last();
    let old = pass_after(d, before);
    let s = pass_after(d, events);
    let ids = order(d, before);
    let had = numbers(turns(d, before));
    lemma_before(d, events);
    if let PassEvent::Told(reply) = events.last() {
        let more = turns_of(old, reply, ids);
        assert(numbers(turns(d, events)) =~= had + numbers(more));
        if old is Frame && old->Frame_stage is Transition && reply == (DrawReply::<I>::Drawn {
            finished: true,
        }) {
            let i = old->Frame_stage->Transition_0 as int;
            assert(numbers(more) =~= seq![ids[i]]);
            assert(had + numbers(more) =~= had.push(ids[i]));
            lemma_had_its_turn(had, ids, i, d.transitions.len());
        } else {
            lemma_turns(old, reply, ids);
            assert(order(d, events) == ids);
            assert(numbers(turns(d, events)) + ids.skip(place(s)) =~= had + ids.skip(place(old)));
        }
    } else {
        assert(turns(d, events) =~= turns(d, before));
        assert(order(d, events) == ids);
        assert(place(s) == place(old));
    }
}

/// The turns of images from one step to the next.
proof fn lemma_image_turns_so_far<S, T, I>(d: DaemonState<S, T, I>, events: Seq<PassEvent<T, I>>)
    requires
        events.len() > 0,
        all_answer(d, events),
        pass_after(d, events.drop_last()).wf(),
        fits(pass_after(d, events.drop_last())),
        numbers(image_turns(d, events.drop_last())) == below(
            image_place(pass_after(d, events.drop_last())) as nat,
        ),
    ensures
        numbers(image_turns(d, events)) == below(image_place(pass_after(d, events)) as nat),
{
    let before = events.drop_last();
    let old = pass_after(d, before);
    lemma_before(d, events);
    if let PassEvent::Told(reply) = events.last() {
        assert(numbers(image_turns(d, events)) =~= numbers(image_turns(d, before)) + numbers(
            image_turns_of(old, reply),
        ));
        lemma_image_turns(old, reply);
    } else {
        assert(image_turns(d, events) =~= image_turns(d, before));
        assert(image_place(pass_after(d, events)) == image_place(old));
    }
}

/// Those that a search passes over are those between where it begins and where it stops.
proof fn lemma_passed_over<S, T, I>(d: DaemonState<S, T, I>, ids: Seq<int>, i: int)
    requires
        0 <= i <= d.transitions.len(),
        ids.len() == d.transitions.len(),
        d.transitions.len() <= usize::MAX,
        d.images.len() <= usize::MAX,
    ensures
        ({
            let s = scan_transitions(d, i);
            &&& i <= place(s) <= d.transitions.len()
            &&& numbers(passed_over(d.wallpapers, d.transitions, ids, i)) == ids.subrange(
                i,
                place(s),
            )
            &&& at_images(s) ==> numbers(images_passed_over(s.daemon(), 0)) == below(
                image_place(s) as nat,
            )
            &&& !at_images(s) ==> image_place(s) == 0
        }),
    decreases d.transitions.len() - i,
{
    let s = scan_transitions(d, i);
    lemma_scan_transitions(d, i);
    let turns = passed_over(d.wallpapers, d.transitions, ids, i);
    if i >= d.transitions.len() {
        let now = DaemonState { images: busy(d.images), ..d };
        d.images.lemma_filter_len(|a: AnimatorState<I>| is_busy(a));
        lemma_images_passed_over(now, 0);
        lemma_scan_images(now, 0);
        assert(images_passed_over(s.daemon(), 0) == images_passed_over(now, 0));
        assert(below(now.images.len()).subrange(0, image_place(s)) =~= below(
            image_place(s) as nat,
        ));
        assert(numbers(turns) =~= ids.subrange(i, place(s)));
    } else if all_ready(d.wallpapers, d.transitions[i]) {
        assert(numbers(turns) =~= ids.subrange(i, place(s)));
    } else {
        lemma_passed_over(put_off(d), ids, i + 1);
        let rest = passed_over(d.wallpapers, d.transitions, ids, i + 1);
        assert(numbers(turns) =~= seq![ids[i]] + numbers(rest));
        assert(seq![ids[i]] + ids.subrange(i + 1, place(s)) =~= ids.subrange(i, place(s)));
    }
}

/// So are the images.
proof fn lemma_images_passed_over<S, T, I>(d: DaemonState<S, T, I>, i: int)
    requires
        0 <= i <= d.images.len(),
        d.images.len() <= usize::MAX,
    ensures
        ({
            let s = scan_images(d, i);
            &&& i <= image_place(s) <= d.images.len()
            &&& numbers(images_passed_over(d, i)) == below(d.images.len()).subrange(
                i,
                image_place(s),
            )
        }),
    decreases d.images.len() - i,
{
    let s = scan_images(d, i);
    let ids = below(d.images.len());
    let turns = images_passed_over(d, i);
    lemma_scan_images(d, i);
    if i >= d.images.len() || all_ready(d.wallpapers, d.images[i]) {
        assert(numbers(turns) =~= ids.subrange(i, image_place(s)));
    } else {
        lemma_images_passed_over(put_off(d), i + 1);
        let rest = images_passed_over(d, i + 1);
        assert(rest == images_passed_over(put_off(d), i + 1));
        assert(numbers(turns) =~= seq![ids[i]] + numbers(rest));
        assert(seq![ids[i]] + ids.subrange(i + 1, image_place(s)) =~= ids.subrange(
            i,
            image_place(s),
        ));
    }
}

/// The transitions whose turn it was when a pass goes on, without one being taken out, are those
/// between where it was and where it is.
proof fn lemma_turns<S, T, I>(s: DrawState<S, T, I>, reply: DrawReply<I>, ids: Seq<int>)
    requires
        s.wf(),
        fits(s),
        answers(s, reply),
        ids.len() == s.daemon().transitions.len(),
        !(s is Frame && s->Frame_stage is Transition && reply == (DrawReply::<I>::Drawn {
            finished: true,
        })),
    ensures
        ({
            let now = draw_next(s, reply);
            &&& place(s) <= place(now) <= ids.len()
            &&& numbers(turns_of(s, reply, ids)) == ids.subrange(place(s), place(now))
        }),
{
    let now = draw_next(s, reply);
    let turns = turns_of(s, reply, ids);
    lemma_next_lists(s, reply);
    match s {
        DrawState::Time { daemon, stage } => {
            if let Stage::Transition(i) = stage {
                let later = put_off(daemon);
                lemma_passed_over(later, ids, i + 1);
                if reply->Time_0 > DRAW_AHEAD {
                    let rest = passed_over(daemon.wallpapers, daemon.transitions, ids, i + 1);
                    assert(numbers(turns) =~= seq![ids[i as int]] + numbers(rest));
                }
            }
        },
        DrawState::Frame { daemon, stage, .. } => {
            if let Stage::Transition(i) = stage {
                lemma_passed_over(daemon, ids, i + 1);
                let rest = passed_over(daemon.wallpapers, daemon.transitions, ids, i + 1);
                assert(numbers(turns) =~= seq![ids[i as int]] + numbers(rest));
            }
        },
        DrawState::Convert { daemon, index, wallpapers, .. } => {
            lemma_passed_over(daemon, ids, index);
            if let DrawReply::Converted(Some(effect)) = reply {
                let more = AnimatorState { wallpapers, effect };
                lemma_passed_over(
                    DaemonState { images: daemon.images.push(more), ..daemon },
                    ids,
                    index,
                );
            }
        },
        DrawState::Done { .. } => {},
    }
    assert(numbers(turns) =~= ids.subrange(place(s), place(now)));
}

/// The images whose turn it was when a pass goes on are those between where it was and where it
/// is.
proof fn lemma_image_turns<S, T, I>(s: DrawState<S, T, I>, reply: DrawReply<I>)
    requires
        s.wf(),
        fits(s),
        answers(s, reply),
    ensures
        ({
            let now = draw_next(s, reply);
            below(image_place(s) as nat) + numbers(image_turns_of(s, reply)) == below(
                image_place(now) as nat,
            )
        }),
{
    let now = draw_next(s, reply);
    let turns = image_turns_of(s, reply);
    lemma_next_lists(s, reply);
    let ids = below(s.daemon().transitions.len());
    match s {
        DrawState::Time { daemon, stage } => {
            let later = put_off(daemon);
            match stage {
                Stage::Transition(i) => lemma_passed_over(later, ids, i + 1),
                Stage::Image(i) => {
                    lemma_images_passed_over(later, i + 1);
                    assert(images_passed_over(later, i + 1) == images_passed_over(daemon, i + 1));
                    if reply->Time_0 > DRAW_AHEAD {
                        let rest = images_passed_over(daemon, i + 1);
                        assert(numbers(turns) =~= seq![i as int] + numbers(rest));
                    }
                },
            }
        },
        DrawState::Frame { daemon, stage, .. } => {
            match stage {
                Stage::Transition(i) => lemma_passed_over(daemon, ids, i + 1),
                Stage::Image(i) => {
                    lemma_images_passed_over(daemon, i + 1);
                    let rest = images_passed_over(daemon, i + 1);
                    assert(numbers(turns) =~= seq![i as int] + numbers(rest));
                },
            }
        },
        DrawState::Convert { daemon, index, wallpapers, .. } => {
            lemma_passed_over(daemon, ids, index);
            if let DrawReply::Converted(Some(effect)) = reply {
                let more = AnimatorState { wallpapers, effect };
                lemma_passed_over(
                    DaemonState { images: daemon.images.push(more), ..daemon },
                    ids,
                    index,
                );
            }
        },
        DrawState::Done { .. } => {},
    }
    assert(below(image_place(s) as nat) + numbers(turns) =~= below(image_place(now) as nat));
}

} // verus!

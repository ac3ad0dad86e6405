//! What holds of requests as they are served.

use vstd::prelude::*;

use crate::animator::{
    detached, disjoint, drawn_on, is_busy, lemma_stopped_members, stopped_on, AnimatorState,
};
use crate::daemon::draw::lemma_same_lists;
use crate::daemon::serve::{
    asks_to_stop, begun, cleared, free, lemma_begun_wf, lemma_selected, next_image, resumed,
    served, Answer, AnswerState, ImageReq, ImageReqState, Request, Served, ServedState,
};
use crate::daemon::{
    filled, is_first, is_named, lemma_changed_wf, live, named, position, stopped_animations,
    texts, DaemonState,
};
use crate::poll::PollTime;
use crate::seqs::lemma_filter_members;
use crate::wallpaper::{BgImgState, Key, WallpaperId, WallpaperState};

use super::events::{is_meant, lemma_is_meant};
use super::{law_names_mean_what_they_name, law_no_names_mean_all};

verus! {

/// A wallpaper that was cleared shows the color, and nothing draws on it. Any other is as it was.
pub proof fn law_cleared_wallpapers_show_the_color<S, T, I>(
    d: DaemonState<S, T, I>,
    wallpapers: Seq<WallpaperId>,
    color: [u8; 3],
    i: int,
)
    requires
        d.wf(),
        0 <= i < d.wallpapers.len(),
    ensures
        ({
            let id = d.wallpapers[i].id;
            let now = cleared(d, wallpapers, color);
            if wallpapers.contains(id) {
                &&& now.wallpapers[i].img == Some(BgImgState::Color(color))
                &&& !now.animated(id)
            } else {
                &&& now.wallpapers[i] == d.wallpapers[i]
                &&& now.animated(id) == d.animated(id)
            }
        }),
{
    let id = d.wallpapers[i].id;
    lemma_stopped_members(d.transitions, wallpapers, id);
    lemma_stopped_members(d.images, wallpapers, id);
}

/// A transition that begins takes its wallpapers over: each of them is drawn on by it alone.
pub proof fn law_transitions_take_over<S, T, I>(
    d: DaemonState<S, T, I>,
    wallpapers: Seq<WallpaperId>,
    effect: T,
    w: WallpaperId,
)
    requires
        d.wf(),
        free(d, wallpapers),
        wallpapers.contains(w),
    ensures
        ({
            let now = begun(d, wallpapers, Some(effect));
            &&& now.transitions.last().wallpapers.contains(w)
            &&& forall|k: int|
                0 <= k < now.transitions.len() - 1
                    ==> !(#[trigger] now.transitions[k]).wallpapers.contains(w)
            &&& !drawn_on(now.images, w)
        }),
{
    let now = begun(d, wallpapers, Some(effect));
    assert(!d.animated(w));
    assert forall|k: int| 0 <= k < now.transitions.len() - 1 implies !(
    #[trigger] now.transitions[k]).wallpapers.contains(w) by {
        assert(now.transitions[k] == d.transitions[k]);
        if d.transitions[k].wallpapers.contains(w) {
            assert(drawn_on(d.transitions, w));
        }
    }
}

/// What can happen to a request for images that has stopped at one of them.
pub enum ImageEvent<T> {
    /// What fills a wallpaper is now something else.
    Filled(WallpaperId, BgImgState),
    /// The transition to the image has begun, or did not come about.
    Started(Option<T>),
}

/// What comes of something that happens to a request.
pub open spec fn images_next<S, T, I, X, G, A>(
    s: ServedState<S, T, I, X, G, A>,
    event: ImageEvent<T>,
) -> ServedState<S, T, I, X, G, A> {
    match (s, event) {
        (
            ServedState::Transition { daemon, rest, wallpapers, img, animation },
            ImageEvent::Filled(id, filling),
        ) => ServedState::Transition {
            daemon: filled(daemon, id, filling),
            rest,
            wallpapers,
            img,
            animation,
        },
        (
            ServedState::Transition { daemon, rest, wallpapers, .. },
            ImageEvent::Started(effect),
        ) => resumed(daemon, wallpapers, effect, rest),
        _ => s,
    }
}

/// Where a request for images has got to when these things have happened in turn.
pub open spec fn images_after<S, T, I, X, G, A>(
    d: DaemonState<S, T, I>,
    req: ImageReqState<X, G, A>,
    events: Seq<ImageEvent<T>>,
) -> ServedState<S, T, I, X, G, A>
    decreases events.len(),
{
    if events.len() == 0 {
        next_image(d, req)
    } else {
        images_next(images_after(d, req, events.drop_last()), events.last())
    }
}

/// What the transitions that were to begin have come to, in turn.
pub open spec fn outcomes<T>(events: Seq<ImageEvent<T>>) -> Seq<Option<T>>
    decreases events.len(),
{
    if events.len() == 0 {
        Seq::empty()
    } else {
        match events.last() {
            ImageEvent::Started(effect) => outcomes(events.drop_last()).push(effect),
            ImageEvent::Filled(..) => outcomes(events.drop_last()),
        }
    }
}

/// How many transitions have, or have not, come about.
pub open spec fn started<T>(events: Seq<ImageEvent<T>>) -> nat {
    outcomes(events).len()
}

/// Whether wallpapers are the same but for what fills them.
pub open spec fn same_but_filled<S>(
    a: Seq<WallpaperState<S>>,
    b: Seq<WallpaperState<S>>,
) -> bool {
    &&& a.len() == b.len()
    &&& forall|i: int|
        0 <= i < a.len() ==> #[trigger] a[i] == (WallpaperState { img: a[i].img, ..b[i] })
}

/// What fills wallpapers has nothing to do with which of them names mean.
proof fn lemma_named_same<S>(
    a: Seq<WallpaperState<S>>,
    b: Seq<WallpaperState<S>>,
    names: Seq<Seq<char>>,
)
    requires
        same_but_filled(a, b),
    ensures
        named(a, names) == named(b, names),
    decreases a.len(),
{
    reveal(Seq::filter);
    let keep = |w: WallpaperState<S>| is_named(w, names);
    let id_of = |w: WallpaperState<S>| w.id;
    if a.len() == 0 {
        assert(named(a, names) =~= named(b, names));
    } else {
        let last = a.len() - 1;
        lemma_named_same(a.drop_last(), b.drop_last(), names);
        assert(a[last] == (WallpaperState { img: a[last].img, ..b[last] }));
        assert(is_named(a[last], names) == is_named(b[last], names)) by {
            assert forall|name: Seq<char>| #[trigger]
                a[last].has_name(name) == b[last].has_name(name) by {}
            if is_named(a[last], names) && names.len() > 0 {
                let k = choose|k: int|
                    0 <= k < names.len() && a[last].has_name(#[trigger] names[k]);
                assert(b[last].has_name(names[k]));
            }
            if is_named(b[last], names) && names.len() > 0 {
                let k = choose|k: int|
                    0 <= k < names.len() && b[last].has_name(#[trigger] names[k]);
                assert(a[last].has_name(names[k]));
            }
        }
        let front_a = a.drop_last().filter(keep);
        let front_b = b.drop_last().filter(keep);
        assert(front_a.push(a[last]).map_values(id_of) =~= front_a.map_values(id_of).push(
            a[last].id,
        ));
        assert(front_b.push(b[last]).map_values(id_of) =~= front_b.map_values(id_of).push(
            b[last].id,
        ));
    }
}

/// A request that could be read is answered, at once or when its images have been begun. One that
/// could not is not.
pub proof fn law_requests_are_answered<S, T, I, X, G, A>(
    d: DaemonState<S, T, I>,
    request: Request<X, G, A>,
    events: Seq<ImageEvent<T>>,
)
    ensures
        served(d, Some(request)) !is Silent,
        served(d, Some(request)) is Transition ==> request is Img,
        served(d, None::<Request<X, G, A>>) is Silent,
        request matches Request::Img(req) ==> started(events) >= pairs(req@) ==> images_after(
            d,
            req@,
            events,
        ) is Reply,
{
    if let Request::Img(req) = request {
        lemma_images_after(d, req@, events);
    }
}

/// How many images of a request have outputs to go to.
pub open spec fn pairs<X, G, A>(req: ImageReqState<X, G, A>) -> nat {
    if req.imgs.len() < req.outputs.len() {
        req.imgs.len()
    } else {
        req.outputs.len()
    }
}

/// The images of a request are begun from the last one on, each on the wallpapers that the list of
/// names at the same place from the end means, for as long as there are both. Then the client is
/// told that it is done, and what has begun is drawn at once. Wallpapers are what they were but
/// for what fills them.
pub proof fn law_images_are_begun_in_turn<S, T, I, X, G, A>(
    d: DaemonState<S, T, I>,
    req: ImageReqState<X, G, A>,
    events: Seq<ImageEvent<T>>,
)
    ensures
        ({
            let k = started(events) as int;
            let now = images_after(d, req, events);
            &&& same_but_filled(now.daemon().wallpapers, d.wallpapers)
            &&& if k < pairs(req) {
                &&& now is Transition
                &&& now->img == req.imgs[req.imgs.len() - 1 - k]
                &&& now->Transition_wallpapers == named(
                    d.wallpapers,
                    req.outputs[req.outputs.len() - 1 - k],
                )
                &&& now->animation == match req.animations {
                    Some(animations) if k < animations.len() => Some(
                        animations[animations.len() - 1 - k],
                    ),
                    _ => None,
                }
            } else {
                &&& now is Reply
                &&& now->Reply_answer is Done
                &&& now.daemon().poll_time == PollTime::Instant
            }
        }),
{
    lemma_images_after(d, req, events);
}

/// What is left of a list that may be missing when so many were taken from its end.
spec fn shortened<A>(list: Option<Seq<A>>, k: int) -> Option<Seq<A>> {
    match list {
        Some(list) => if k < list.len() {
            Some(list.take(list.len() - k))
        } else {
            Some(Seq::empty())
        },
        None => None,
    }
}

proof fn lemma_images_after<S, T, I, X, G, A>(
    d: DaemonState<S, T, I>,
    req: ImageReqState<X, G, A>,
    events: Seq<ImageEvent<T>>,
)
    ensures
        ({
            let k = started(events) as int;
            let now = images_after(d, req, events);
            &&& same_but_filled(now.daemon().wallpapers, d.wallpapers)
            &&& if k < pairs(req) {
                &&& now is Transition
                &&& now->img == req.imgs[req.imgs.len() - 1 - k]
                &&& now->Transition_wallpapers == named(
                    d.wallpapers,
                    req.outputs[req.outputs.len() - 1 - k],
                )
                &&& now->animation == match req.animations {
                    Some(animations) if k < animations.len() => Some(
                        animations[animations.len() - 1 - k],
                    ),
                    _ => None,
                }
                &&& now->rest.imgs == req.imgs.take(req.imgs.len() - 1 - k)
                &&& now->rest.outputs == req.outputs.take(req.outputs.len() - 1 - k)
                &&& now->rest.animations == shortened(req.animations, k + 1)
            } else {
                &&& now is Reply
                &&& now->Reply_answer is Done
                &&& now.daemon().poll_time == PollTime::Instant
            }
        }),
    decreases events.len(),
{
    let now = images_after(d, req, events);
    if events.len() == 0 {
        if 0 < pairs(req) {
            assert(now->rest.imgs =~= req.imgs.take(req.imgs.len() - 1));
            assert(now->rest.outputs =~= req.outputs.take(req.outputs.len() - 1));
            if let Some(animations) = req.animations {
                if animations.len() > 0 {
                    assert(animations.drop_last() =~= shortened(req.animations, 1)->0);
                } else {
                    assert(animations =~= Seq::empty());
                }
            }
        }
    } else {
        lemma_images_after(d, req, events.drop_last());
        let before = images_after(d, req, events.drop_last());
        let k = started(events) as int;
        if events.last() is Started && k - 1 < pairs(req) {
            let rest = before->rest;
            assert(rest.imgs.len() == req.imgs.len() - k);
            assert(rest.outputs.len() == req.outputs.len() - k);
            if k < pairs(req) {
                let names = req.outputs[req.outputs.len() - 1 - k];
                assert(rest.outputs.last() == names);
                lemma_named_same(before.daemon().wallpapers, d.wallpapers, names);
                assert(now->rest.imgs =~= req.imgs.take(req.imgs.len() - 1 - k));
                assert(now->rest.outputs =~= req.outputs.take(req.outputs.len() - 1 - k));
                if let Some(animations) = req.animations {
                    let left = shortened(req.animations, k)->0;
                    if left.len() > 0 {
                        assert(left.last() == animations[animations.len() - 1 - k]);
                        assert(left.drop_last() =~= shortened(req.animations, k + 1)->0);
                    }
                }
            }
        }
    }
}

/// Whether the list of names at place `k`, counted from the end, means the wallpaper.
pub open spec fn group_means<S, T, I, X, G, A>(
    d: DaemonState<S, T, I>,
    req: ImageReqState<X, G, A>,
    k: int,
    w: WallpaperId,
) -> bool {
    named(d.wallpapers, req.outputs[req.outputs.len() - 1 - k]).contains(w)
}

/// Whether the transition at `j` draws on the wallpaper, and no other animation does.
pub open spec fn alone_on<S, T, I>(d: DaemonState<S, T, I>, w: WallpaperId, j: int) -> bool {
    &&& 0 <= j < d.transitions.len()
    &&& d.transitions[j].wallpapers.contains(w)
    &&& forall|i: int|
        0 <= i < d.transitions.len() && i != j ==> !(
        #[trigger] d.transitions[i]).wallpapers.contains(w)
    &&& !drawn_on(d.images, w)
}

/// Where several lists of names of one request mean a wallpaper, the one whose transition begins
/// last keeps it, which is the one that comes first in the request. When all have begun, the
/// wallpaper is drawn on by that transition alone, or by nothing if that did not come about.
pub proof fn law_the_first_group_keeps_a_wallpaper<S, T, I, X, G, A>(
    d: DaemonState<S, T, I>,
    req: ImageReqState<X, G, A>,
    events: Seq<ImageEvent<T>>,
    w: WallpaperId,
    k: int,
)
    requires
        d.wf(),
        started(events) >= pairs(req),
        0 <= k < pairs(req),
        group_means(d, req, k, w),
        forall|j: int| k < j < pairs(req) ==> !#[trigger] group_means(d, req, j, w),
    ensures
        ({
            let now = images_after(d, req, events).daemon();
            match outcomes(events)[k] {
                Some(effect) => exists|j: int| #[trigger]
                    alone_on(now, w, j) && now.transitions[j].effect == effect,
                None => !now.animated(w),
            }
        }),
{
    let now = images_after(d, req, events).daemon();
    lemma_images_wf(d, req, events);
    lemma_kept(d, req, events, w, k);
    if let Some(effect) = outcomes(events)[k] {
        let j = choose|j: int|
            0 <= j < now.transitions.len() && (#[trigger] now.transitions[j]).wallpapers.contains(w)
                && now.transitions[j].effect == effect;
        assert(drawn_on(now.transitions, w));
        assert forall|i: int| 0 <= i < now.transitions.len() && i != j implies !(
        #[trigger] now.transitions[i]).wallpapers.contains(w) by {
            if i < j {
                assert(disjoint(now.transitions[i], now.transitions[j]));
            } else {
                assert(disjoint(now.transitions[j], now.transitions[i]));
            }
        }
        assert(alone_on(now, w, j));
    }
}

/// A wallpaper that no list of names of a request means is animated, when all has begun, if and
/// only if it was before.
pub proof fn law_other_wallpapers_go_on<S, T, I, X, G, A>(
    d: DaemonState<S, T, I>,
    req: ImageReqState<X, G, A>,
    events: Seq<ImageEvent<T>>,
    w: WallpaperId,
)
    requires
        d.wf(),
        forall|j: int| 0 <= j < pairs(req) ==> !#[trigger] group_means(d, req, j, w),
    ensures
        ({
            let now = images_after(d, req, events).daemon();
            &&& drawn_on(now.transitions, w) == drawn_on(d.transitions, w)
            &&& drawn_on(now.images, w) == drawn_on(d.images, w)
        }),
    decreases events.len(),
{
    if events.len() == 0 {
        if pairs(req) > 0 {
            assert(!group_means(d, req, 0, w));
            let stopped = named(d.wallpapers, req.outputs.last());
            lemma_stopped_members(d.transitions, stopped, w);
            lemma_stopped_members(d.images, stopped, w);
        }
    } else {
        let before = events.drop_last();
        law_other_wallpapers_go_on(d, req, before, w);
        lemma_images_after(d, req, before);
        lemma_images_after(d, req, events);
        let s = images_after(d, req, before);
        let n = started(before) as int;
        if n < pairs(req) {
            assert(!group_means(d, req, n, w));
            if let ImageEvent::Started(effect) = events.last() {
                let now = begun(s.daemon(), s->Transition_wallpapers, effect);
                if let Some(effect) = effect {
                    let more = AnimatorState { wallpapers: s->Transition_wallpapers, effect };
                    lemma_pushed(s.daemon().transitions, more, w);
                }
                if n + 1 < pairs(req) {
                    assert(!group_means(d, req, n + 1, w));
                    let stopped = images_after(d, req, events)->Transition_wallpapers;
                    lemma_next_group(d, req, events);
                    lemma_stopped_members(now.transitions, stopped, w);
                    lemma_stopped_members(now.images, stopped, w);
                }
            }
        }
    }
}

/// One more animation draws on its own wallpapers, and changes nothing about the others.
proof fn lemma_pushed<E>(
    animators: Seq<AnimatorState<E>>,
    more: AnimatorState<E>,
    w: WallpaperId,
)
    ensures
        drawn_on(animators.push(more), w) <==> drawn_on(animators, w) || more.wallpapers.contains(
            w,
        ),
{
    let all = animators.push(more);
    if drawn_on(all, w) {
        let k = choose|k: int| 0 <= k < all.len() && #[trigger] all[k].wallpapers.contains(w);
        if k < animators.len() {
            assert(animators[k].wallpapers.contains(w));
        }
    }
    if drawn_on(animators, w) {
        let k = choose|k: int|
            0 <= k < animators.len() && #[trigger] animators[k].wallpapers.contains(w);
        assert(all[k].wallpapers.contains(w));
    }
    if more.wallpapers.contains(w) {
        assert(all[animators.len() as int].wallpapers.contains(w));
    }
}

/// A request that goes on to its next image stops what draws where that goes.
proof fn lemma_next_group<S, T, I, X, G, A>(
    d: DaemonState<S, T, I>,
    req: ImageReqState<X, G, A>,
    events: Seq<ImageEvent<T>>,
)
    requires
        events.len() > 0,
        events.last() is Started,
        started(events) < pairs(req),
    ensures
        ({
            let before = images_after(d, req, events.drop_last());
            let now = images_after(d, req, events);
            &&& before is Transition
            &&& now is Transition
            &&& now.daemon() == stopped_animations(
                begun(before.daemon(), before->Transition_wallpapers, events.last()->Started_0),
                now->Transition_wallpapers,
            )
        }),
{
    lemma_images_after(d, req, events.drop_last());
    lemma_images_after(d, req, events);
}

/// Whether a transition that does `effect` draws on the wallpaper.
spec fn carries<S, T, I>(d: DaemonState<S, T, I>, w: WallpaperId, effect: T) -> bool {
    exists|j: int|
        0 <= j < d.transitions.len() && (#[trigger] d.transitions[j]).wallpapers.contains(w)
            && d.transitions[j].effect == effect
}

/// Whether the wallpaper is as the transition that was to begin on it has left it.
spec fn kept<S, T, I>(d: DaemonState<S, T, I>, w: WallpaperId, outcome: Option<T>) -> bool {
    match outcome {
        Some(effect) => carries(d, w, effect),
        None => !d.animated(w),
    }
}

/// Stopping other wallpapers leaves one as it is.
proof fn lemma_stopped_kept<S, T, I>(
    d: DaemonState<S, T, I>,
    stopped: Seq<WallpaperId>,
    w: WallpaperId,
    outcome: Option<T>,
)
    requires
        kept(d, w, outcome),
        !stopped.contains(w),
    ensures
        kept(stopped_animations(d, stopped), w, outcome),
{
    lemma_stopped_members(d.transitions, stopped, w);
    lemma_stopped_members(d.images, stopped, w);
    if let Some(effect) = outcome {
        let keep = |x: WallpaperId| !stopped.contains(x);
        let running = |a: AnimatorState<T>| is_busy(a);
        let all = d.transitions.map_values(|a: AnimatorState<T>| detached(a, stopped));
        let left = stopped_on(d.transitions, stopped);
        let j = choose|j: int|
            0 <= j < d.transitions.len() && (#[trigger] d.transitions[j]).wallpapers.contains(w)
                && d.transitions[j].effect == effect;
        lemma_filter_members(d.transitions[j].wallpapers, keep, w);
        assert(all[j].wallpapers.contains(w));
        assert(is_busy(all[j]));
        all.lemma_filter_contains(running, j);
        let i = choose|i: int| 0 <= i < left.len() && left[i] == all[j];
        assert(stopped_animations(d, stopped).transitions[i].wallpapers.contains(w));
        assert(carries(stopped_animations(d, stopped), w, effect));
    }
}

/// Once the transition of the last list of names so far that means a wallpaper has begun, or has
/// not come about, the wallpaper stays as that has left it.
proof fn lemma_kept<S, T, I, X, G, A>(
    d: DaemonState<S, T, I>,
    req: ImageReqState<X, G, A>,
    events: Seq<ImageEvent<T>>,
    w: WallpaperId,
    k: int,
)
    requires
        d.wf(),
        0 <= k < pairs(req),
        k < started(events),
        group_means(d, req, k, w),
        forall|j: int|
            k < j <= started(events) && j < pairs(req) ==> !#[trigger] group_means(d, req, j, w),
    ensures
        kept(images_after(d, req, events).daemon(), w, outcomes(events)[k]),
    decreases events.len(),
{
    let before = events.drop_last();
    let s = images_after(d, req, before);
    let n = started(before) as int;
    lemma_images_after(d, req, before);
    lemma_images_wf(d, req, before);
    match events.last() {
        ImageEvent::Filled(..) => {
            lemma_kept(d, req, before, w, k);
            let now = images_after(d, req, events).daemon();
            assert(now.transitions == s.daemon().transitions);
            assert(now.images == s.daemon().images);
        },
        ImageEvent::Started(effect) => {
            assert(outcomes(events) == outcomes(before).push(effect));
            if k < n {
                lemma_kept(d, req, before, w, k);
            }
            if n < pairs(req) {
                let on = s->Transition_wallpapers;
                let now = begun(s.daemon(), on, effect);
                if k < n {
                    assert(!group_means(d, req, n, w));
                }
                if let Some(new) = effect {
                    let more = AnimatorState { wallpapers: on, effect: new };
                    lemma_pushed(s.daemon().transitions, more, w);
                    if k < n {
                        if let Some(old) = outcomes(before)[k] {
                            let j = choose|j: int|
                                0 <= j < s.daemon().transitions.len() && (
                                #[trigger] s.daemon().transitions[j]).wallpapers.contains(w)
                                    && s.daemon().transitions[j].effect == old;
                            assert(now.transitions[j] == s.daemon().transitions[j]);
                        }
                    } else {
                        assert(now.transitions[s.daemon().transitions.len() as int] == more);
                    }
                }
                assert(kept(now, w, outcomes(events)[k]));
                lemma_images_after(d, req, events);
                if n + 1 < pairs(req) {
                    assert(!group_means(d, req, n + 1, w));
                    lemma_next_group(d, req, events);
                    lemma_stopped_kept(
                        now,
                        images_after(d, req, events)->Transition_wallpapers,
                        w,
                        outcomes(events)[k],
                    );
                } else {
                    let end = images_after(d, req, events).daemon();
                    assert(end.transitions == now.transitions && end.images == now.images);
                }
            }
        },
    }
}

/// A request keeps the daemon in order from the beginning to the end.
proof fn lemma_images_wf<S, T, I, X, G, A>(
    d: DaemonState<S, T, I>,
    req: ImageReqState<X, G, A>,
    events: Seq<ImageEvent<T>>,
)
    requires
        d.wf(),
    ensures
        images_after(d, req, events).wf(),
    decreases events.len(),
{
    if events.len() == 0 {
        lemma_next_image_wf(d, req);
    } else {
        lemma_images_wf(d, req, events.drop_last());
        let s = images_after(d, req, events.drop_last());
        if let ServedState::Transition { daemon, rest, wallpapers, .. } = s {
            match events.last() {
                ImageEvent::Filled(id, _) => {
                    let now = images_after(d, req, events).daemon();
                    if let Some(i) = position(daemon.wallpapers, Key::Id(id)) {
                        assert(is_first(daemon.wallpapers, Key::Id(id), i));
                        lemma_changed_wf(daemon, i, now.wallpapers[i]);
                    }
                    assert forall|w: WallpaperId| #[trigger] wallpapers.contains(w) implies live(
                        now.wallpapers,
                        w,
                    ) && !now.animated(w) by {
                        assert(!daemon.animated(w));
                        let k = choose|k: int|
                            0 <= k < daemon.wallpapers.len() && (
                            #[trigger] daemon.wallpapers[k]).id == w;
                        assert(now.wallpapers[k].id == w);
                    }
                },
                ImageEvent::Started(effect) => {
                    lemma_begun_wf(daemon, wallpapers, effect);
                    lemma_next_image_wf(begun(daemon, wallpapers, effect), rest);
                },
            }
        }
    }
}

proof fn lemma_next_image_wf<S, T, I, X, G, A>(
    d: DaemonState<S, T, I>,
    req: ImageReqState<X, G, A>,
)
    requires
        d.wf(),
    ensures
        next_image::<S, T, I, X, G, A>(d, req).wf(),
{
    if req.imgs.len() == 0 || req.outputs.len() == 0 {
        lemma_same_lists(d, DaemonState { poll_time: PollTime::Instant, ..d });
    } else {
        lemma_selected(d, req.outputs.last());
    }
}

// What each request comes to.

/// A request to clear acts on a wallpaper if and only if its list of outputs is empty or holds the
/// name of that wallpaper. To act is to list the wallpaper as one to be filled with the color, to
/// note that it shows the color, and to leave nothing that draws on it. Any other wallpaper is as
/// it was, and the same draws on it; and nothing else about the daemon changes.
pub proof fn law_clears_fill_whom_they_mean<S, T, I, X, G, A>(
    d: DaemonState<S, T, I>,
    color: [u8; 3],
    outputs: Vec<String>,
    i: int,
)
    requires
        d.wf(),
        0 <= i < d.wallpapers.len(),
    ensures
        ({
            let s = served(d, Some(Request::<X, G, A>::Clear { color, outputs }));
            let now = s.daemon();
            let id = d.wallpapers[i].id;
            let meant = outputs@.len() == 0 || exists|k: int|
                0 <= k < outputs@.len() && d.wallpapers[i].name == Some(#[trigger] outputs@[k]@);
            &&& s matches ServedState::Clear { wallpapers, color: fill, answer, .. }
            &&& fill == color
            &&& answer is Done
            &&& wallpapers.contains(id) <==> meant
            &&& wallpapers == named(d.wallpapers, texts(outputs@))
            &&& now.wallpapers.len() == d.wallpapers.len()
            &&& now == (DaemonState {
                wallpapers: now.wallpapers,
                transitions: now.transitions,
                images: now.images,
                ..d
            })
            &&& meant ==> {
                &&& now.wallpapers[i] == (WallpaperState {
                    img: Some(BgImgState::Color(color)),
                    ..d.wallpapers[i]
                })
                &&& forall|j: int|
                    0 <= j < now.transitions.len() ==> !(
                    #[trigger] now.transitions[j]).wallpapers.contains(id)
                &&& forall|j: int|
                    0 <= j < now.images.len() ==> !(
                    #[trigger] now.images[j]).wallpapers.contains(id)
            }
            &&& !meant ==> {
                &&& now.wallpapers[i] == d.wallpapers[i]
                &&& drawn_on(now.transitions, id) == drawn_on(d.transitions, id)
                &&& drawn_on(now.images, id) == drawn_on(d.images, id)
            }
            &&& now.transitions == stopped_on(d.transitions, wallpapers)
            &&& now.images == stopped_on(d.images, wallpapers)
        }),
{
    let s = served(d, Some(Request::<X, G, A>::Clear { color, outputs }));
    let now = s.daemon();
    let id = d.wallpapers[i].id;
    let names = texts(outputs@);
    let wallpapers = named(d.wallpapers, names);
    let meant = outputs@.len() == 0 || exists|k: int|
        0 <= k < outputs@.len() && d.wallpapers[i].name == Some(#[trigger] outputs@[k]@);
    assert(is_meant(d.wallpapers[i], names) == meant) by {
        if outputs@.len() > 0 && meant {
            let k = choose|k: int|
                0 <= k < outputs@.len() && d.wallpapers[i].name == Some(#[trigger] outputs@[k]@);
            assert(names[k] == outputs@[k]@);
        }
        if outputs@.len() > 0 && is_meant(d.wallpapers[i], names) {
            let k = choose|k: int|
                0 <= k < names.len() && d.wallpapers[i].name == Some(#[trigger] names[k]);
            assert(names[k] == outputs@[k]@);
        }
    }
    lemma_meant_are_named(d, names, i);
    lemma_stopped_members(d.transitions, wallpapers, id);
    lemma_stopped_members(d.images, wallpapers, id);
    if meant {
        assert(!drawn_on(now.transitions, id));
        assert(!drawn_on(now.images, id));
        assert forall|j: int| 0 <= j < now.transitions.len() implies !(
        #[trigger] now.transitions[j]).wallpapers.contains(id) by {}
        assert forall|j: int| 0 <= j < now.images.len() implies !(
        #[trigger] now.images[j]).wallpapers.contains(id) by {}
    }
}

/// A wallpaper is among those that names mean if and only if it is meant.
proof fn lemma_meant_are_named<S, T, I>(
    d: DaemonState<S, T, I>,
    names: Seq<Seq<char>>,
    i: int,
)
    requires
        d.wf(),
        0 <= i < d.wallpapers.len(),
    ensures
        named(d.wallpapers, names).contains(d.wallpapers[i].id) <==> is_meant(
            d.wallpapers[i],
            names,
        ),
{
    lemma_is_meant(d.wallpapers[i], names);
    if names.len() == 0 {
        assert(names =~= Seq::empty());
        law_no_names_mean_all(d.wallpapers);
        assert(named(d.wallpapers, names)[i] == d.wallpapers[i].id);
    } else {
        law_names_mean_what_they_name(d, names, i);
        if is_meant(d.wallpapers[i], names) {
            let k = choose|k: int|
                0 <= k < names.len() && d.wallpapers[i].name == Some(#[trigger] names[k]);
            assert(names.contains(names[k]));
        }
        if d.wallpapers[i].name matches Some(name) && names.contains(name) {
            let name = d.wallpapers[i].name->0;
            let k = choose|k: int| 0 <= k < names.len() && names[k] == name;
            assert(d.wallpapers[i].name == Some(names[k]));
        }
    }
}

/// A ping is answered with yes if and only if every wallpaper is set up: where any one of them is
/// not, wherever it is, the answer is no. Nothing changes.
pub proof fn law_pings_look_at_every_wallpaper<S, T, I, X, G, A>(
    d: DaemonState<S, T, I>,
    i: int,
)
    ensures
        ({
            let s = served(d, Some(Request::<X, G, A>::Ping));
            &&& s matches ServedState::Reply { daemon, answer }
            &&& daemon == d
            &&& answer matches AnswerState::Ping(all)
            &&& 0 <= i < d.wallpapers.len() && !d.wallpapers[i].configured ==> !all
            &&& (forall|k: int|
                0 <= k < d.wallpapers.len() ==> (#[trigger] d.wallpapers[k]).configured) ==> all
        }),
{
}

/// A query is answered with what is known of each wallpaper, in order. Nothing changes.
pub proof fn law_queries_are_answered_in_full<S, T, I, X, G, A>(
    d: DaemonState<S, T, I>,
    i: int,
)
    ensures
        ({
            let s = served(d, Some(Request::<X, G, A>::Query));
            &&& s matches ServedState::Reply { daemon, answer }
            &&& daemon == d
            &&& answer matches AnswerState::Info(told)
            &&& told.len() == d.wallpapers.len()
            &&& 0 <= i < told.len() ==> {
                &&& told[i].name == d.wallpapers[i].name
                &&& told[i].dimensions == d.wallpapers[i].dimensions
                &&& told[i].scale == d.wallpapers[i].scale
                &&& told[i].img == d.wallpapers[i].img
                &&& told[i].pixel_format == d.pixel_format
            }
        }),
{
}

/// The daemon is asked to stop by a client that wants that, which is told that it is done, and by
/// a request that cannot be read, which nobody is told anything about. No other request stops it,
/// and neither of these changes anything else.
pub proof fn law_only_kills_and_broken_requests_stop<S, T, I, X, G, A>(
    d: DaemonState<S, T, I>,
    request: Option<Request<X, G, A>>,
)
    ensures
        request is None ==> asks_to_stop(request),
        request matches Some(r) ==> (asks_to_stop(request) <==> r is Kill),
        request is None <==> served(d, request) is Silent,
        request is None ==> served(d, request).daemon() == d,
        request matches Some(r) ==> r is Kill ==> {
            &&& served(d, request) matches ServedState::Reply { daemon, answer }
            &&& daemon == d
            &&& answer is Done
        },
{
}

/// A request for images begins with the last image, on the wallpapers that the last list of names
/// means, where everything stops and nowhere else. What is left of it is what was before those.
/// Where there are no more images, or no more lists, it is done, and it is to be drawn at once;
/// nothing else changes.
pub proof fn law_images_are_begun_one_by_one<S, T, I, X, G, A>(
    d: DaemonState<S, T, I>,
    req: ImageReqState<X, G, A>,
)
    ensures
        ({
            let s = next_image(d, req);
            let n = req.imgs.len() as int;
            let m = req.outputs.len() as int;
            &&& n == 0 || m == 0 ==> {
                &&& s matches ServedState::Reply { daemon, answer }
                &&& answer is Done
                &&& daemon.poll_time is Instant
                &&& daemon == (DaemonState { poll_time: daemon.poll_time, ..d })
            }
            &&& n > 0 && m > 0 ==> {
                &&& s matches ServedState::Transition { daemon, rest, wallpapers, img, animation }
                &&& img == req.imgs[n - 1]
                &&& wallpapers == named(d.wallpapers, req.outputs[m - 1])
                &&& daemon == (DaemonState {
                    transitions: stopped_on(d.transitions, wallpapers),
                    images: stopped_on(d.images, wallpapers),
                    ..d
                })
                &&& rest.transition == req.transition
                &&& rest.imgs == req.imgs.take(n - 1)
                &&& rest.outputs == req.outputs.take(m - 1)
                &&& req.animations is None ==> animation is None && rest.animations is None
                &&& req.animations matches Some(all) ==> if all.len() > 0 {
                    &&& animation == Some(all[all.len() - 1])
                    &&& rest.animations == Some(all.take(all.len() - 1))
                } else {
                    &&& animation is None
                    &&& rest.animations == Some(all)
                }
            }
        }),
{
    if req.imgs.len() > 0 && req.outputs.len() > 0 {
        assert(req.imgs.drop_last() =~= req.imgs.take(req.imgs.len() - 1));
        assert(req.outputs.drop_last() =~= req.outputs.take(req.outputs.len() - 1));
        if let Some(all) = req.animations {
            if all.len() > 0 {
                assert(all.drop_last() =~= all.take(all.len() - 1));
            }
        }
    }
}

/// A request for images is served from its first image on, and a transition that comes about is
/// one more, behind the others, on the wallpapers that it was asked for. One that does not changes
/// nothing.
pub proof fn law_transitions_begin_behind_the_others<S, T, I, X, G, A>(
    d: DaemonState<S, T, I>,
    req: ImageReq<X, G, A>,
    wallpapers: Seq<WallpaperId>,
    effect: T,
    outcome: Option<T>,
)
    ensures
        served(d, Some(Request::Img(req))) == next_image(d, req@),
        resumed(d, wallpapers, outcome, req@) == next_image(
            begun(d, wallpapers, outcome),
            req@,
        ),
        begun(d, wallpapers, None::<T>) == d,
        begun(d, wallpapers, Some(effect)) == (DaemonState {
            transitions: d.transitions.push(AnimatorState { wallpapers, effect }),
            ..d
        }),
{
}

/// A request for images is modelled as it is made: by its images, the names of its lists, and its
/// animations, in order.
pub proof fn law_image_requests_are_what_they_stand_for<X, G, A>(req: ImageReq<X, G, A>)
    ensures
        req@.transition == req.transition,
        req@.imgs == req.imgs@,
        req@.outputs.len() == req.outputs@.len(),
        forall|k: int|
            0 <= k < req.outputs@.len() ==> (#[trigger] req@.outputs[k]).len()
                == req.outputs@[k]@.len(),
        forall|k: int, j: int|
            0 <= k < req.outputs@.len() && 0 <= j < req.outputs@[k]@.len()
                ==> #[trigger] req@.outputs[k][j] == req.outputs@[k]@[j]@,
        req@.animations is Some <==> req.animations is Some,
        req.animations matches Some(animations) ==> req@.animations == Some(animations@),
{
}

/// An answer is modelled as it is given.
pub proof fn law_answers_are_what_they_stand_for(answer: Answer)
    ensures
        answer@ is Done <==> answer is Done,
        answer@ is Ping <==> answer is Ping,
        answer matches Answer::Ping(all) ==> answer@ == AnswerState::Ping(all),
        answer@ is Info <==> answer is Info,
        answer matches Answer::Info(infos) ==> {
            &&& answer@ matches AnswerState::Info(told)
            &&& told.len() == infos@.len()
            &&& forall|i: int| 0 <= i < told.len() ==> #[trigger] told[i] == infos@[i]@
        },
{
}

/// What has come of a request is modelled as it is.
pub proof fn law_served_requests_are_what_they_stand_for<S, T, I, X, G, A>(
    s: Served<S, T, I, X, G, A>,
)
    ensures
        s@ is Silent <==> s is Silent,
        s matches Served::Silent(daemon) ==> s@.daemon() == daemon@,
        s@ is Reply <==> s is Reply,
        s matches Served::Reply { daemon, answer } ==> s@.daemon() == daemon@
            && s@->Reply_answer == answer@,
        s@ is Clear <==> s is Clear,
        s matches Served::Clear { daemon, wallpapers, color, answer } ==> {
            &&& s@.daemon() == daemon@
            &&& s@->Clear_wallpapers == wallpapers@
            &&& s@->color == color
            &&& s@->Clear_answer == answer@
        },
        s@ is Transition <==> s is Transition,
        s matches Served::Transition { pending, img, animation } ==> s@
            == (ServedState::Transition {
            daemon: pending.state(),
            rest: pending.left(),
            wallpapers: pending.selected(),
            img,
            animation,
        }),
{
}

} // verus!

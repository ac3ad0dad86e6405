//! What holds of the daemon as a whole.

use vstd::prelude::*;

use super::draw::is_ready;
use super::{
    added, applied, changed, global_action, is_first, is_named, lemma_first_before, lemma_position,
    lemma_stopped_wf, live, named, position, release_at, release_begin, release_next, removed_from,
    stopped_animations, strong_count, DaemonState, GlobalAction, Outcome, ReleaseStep,
};
use crate::animator::{
    detached, is_busy, law_stopping_nothing_changes_nothing, lemma_busy, lemma_stopped_members,
    lemma_uses_of_exclusive, AnimatorState,
};
use crate::objects::ObjectId;
use crate::seqs::{lemma_filter_all, lemma_filter_is_from};
use crate::wallpaper::{Key, OutputBinding, WallpaperId, WallpaperState};

pub mod events;
pub mod passes;
pub mod requests;
pub mod turns;

verus! {

// Animations.

/// A wallpaper that an animation draws on is held on to by two, the daemon and that animation.
/// Any other is held on to by the daemon alone.
pub proof fn law_strong_count<S, T, I>(d: DaemonState<S, T, I>, w: WallpaperId)
    requires
        d.wf(),
    ensures
        strong_count(d, w) == if d.animated(w) {
            2nat
        } else {
            1
        },
{
    lemma_uses_of_exclusive(d.transitions, w);
    lemma_uses_of_exclusive(d.images, w);
}

/// Once the animations on some wallpapers are stopped, nothing draws on those, whatever drew on
/// others still does, and every animation that is left has something to draw on.
pub proof fn law_stopping_stops<S, T, I>(
    d: DaemonState<S, T, I>,
    stopped: Seq<WallpaperId>,
    w: WallpaperId,
)
    requires
        d.wf(),
    ensures
        ({
            let now = stopped_animations(d, stopped);
            &&& now.wf()
            &&& stopped.contains(w) ==> !now.animated(w)
            &&& !stopped.contains(w) ==> now.animated(w) == d.animated(w)
            &&& forall|i: int|
                0 <= i < now.transitions.len() ==> is_busy(#[trigger] now.transitions[i])
            &&& forall|i: int| 0 <= i < now.images.len() ==> is_busy(#[trigger] now.images[i])
        }),
{
    lemma_stopped_wf(d, stopped);
    assert(stopped_animations(d, stopped).animated(w) <==> d.animated(w) && !stopped.contains(w));
    lemma_busy(d.transitions.map_values(|a: AnimatorState<T>| detached(a, stopped)));
    lemma_busy(d.images.map_values(|a: AnimatorState<I>| detached(a, stopped)));
}

// Outputs.

/// A wallpaper on a new output is not one that there has been before, and nothing draws on it.
pub proof fn law_new_wallpapers_are_new<S, T, I>(
    d: DaemonState<S, T, I>,
    output_name: u32,
    binding: OutputBinding<S>,
)
    requires
        d.wf(),
        d.next_serial < u64::MAX,
    ensures
        ({
            let now = added(d, output_name, binding);
            let id = now.wallpapers.last().id;
            &&& !live(d.wallpapers, id)
            &&& live(now.wallpapers, id)
            &&& !now.animated(id)
        }),
{
    let now = added(d, output_name, binding);
    let id = now.wallpapers.last().id;
    assert(now.wallpapers[now.wallpapers.len() - 1].id == id);
    assert(d.animated(id) ==> live(d.wallpapers, id));
}

/// Once an output is gone its wallpaper is too, with everything that drew on it. All other
/// wallpapers stay, in the same order, and whatever drew on them still does.
pub proof fn law_removed_wallpapers_are_gone<S, T, I>(d: DaemonState<S, T, I>, key: Key, i: int)
    requires
        d.wf(),
        is_first(d.wallpapers, key, i),
    ensures
        ({
            let id = d.wallpapers[i].id;
            let now = removed_from(d, key);
            &&& now.wallpapers == d.wallpapers.remove(i)
            &&& !live(now.wallpapers, id)
            &&& !now.animated(id)
            &&& forall|w: WallpaperId| w != id ==> #[trigger] now.animated(w) == d.animated(w)
        }),
{
    lemma_position(d.wallpapers, key, i);
    let id = d.wallpapers[i].id;
    let stopped = seq![id];
    let now = removed_from(d, key);
    assert(stopped[0] == id);
    if live(now.wallpapers, id) {
        let k = choose|k: int|
            0 <= k < now.wallpapers.len() && (#[trigger] now.wallpapers[k]).id == id;
        if k < i {
            assert(d.wallpapers[k].id != d.wallpapers[i].id);
        } else {
            assert(d.wallpapers[i].id != d.wallpapers[k + 1].id);
        }
    }
    assert forall|w: WallpaperId| #[trigger] now.animated(w) == (d.animated(w) && w != id) by {
        lemma_stopped_members(d.transitions, stopped, w);
        lemma_stopped_members(d.images, stopped, w);
    }
}

/// Removing an output undoes adding it: wallpapers and animations are again as they were, whatever
/// binding the output has come to. Only the identity that the wallpaper had is not given out
/// again.
pub proof fn law_removing_undoes_adding<S, T, I>(
    d: DaemonState<S, T, I>,
    name: u32,
    interface: Seq<char>,
    version: u32,
    bound: u32,
    binding: OutputBinding<S>,
)
    requires
        d.wf(),
        d.next_serial < u64::MAX,
        forall|i: int|
            0 <= i < d.wallpapers.len() ==> !(#[trigger] d.wallpapers[i]).has(
                Key::OutputName(name),
            ),
        forall|i: int| 0 <= i < d.transitions.len() ==> is_busy(#[trigger] d.transitions[i]),
        forall|i: int| 0 <= i < d.images.len() ==> is_busy(#[trigger] d.images[i]),
        global_action(name, interface, version) == GlobalAction::Bind(bound),
    ensures
        removed_from(added(d, bound, binding), Key::OutputName(name)) == (DaemonState {
            next_serial: (d.next_serial + 1) as u64,
            ..d
        }),
{
    let key = Key::OutputName(name);
    let now = added(d, bound, binding);
    let last = d.wallpapers.len() as int;
    let id = now.wallpapers[last].id;
    assert(is_first(now.wallpapers, key, last));
    lemma_position(now.wallpapers, key, last);
    assert(now.wallpapers.remove(last) =~= d.wallpapers);
    law_new_wallpapers_are_new(d, bound, binding);
    assert(!now.animated(id));
    law_stopping_nothing_changes_nothing(d.transitions, seq![id]);
    law_stopping_nothing_changes_nothing(d.images, seq![id]);
}

/// An event about one output changes the first wallpaper that has to do with its sender and, apart
/// from that, nothing; one that makes no sense, or that nobody has to do with, changes nothing.
pub proof fn law_events_touch_one_wallpaper<S, T, I>(
    d: DaemonState<S, T, I>,
    key: Key,
    valid: bool,
    change: spec_fn(WallpaperState<S>) -> WallpaperState<S>,
    i: int,
)
    requires
        0 <= i < d.wallpapers.len(),
    ensures
        ({
            let (now, outcome) = applied(d, key, valid, change);
            &&& now == (DaemonState { wallpapers: now.wallpapers, ..d })
            &&& now.wallpapers.len() == d.wallpapers.len()
            &&& valid && is_first(d.wallpapers, key, i) ==> now.wallpapers[i] == change(
                d.wallpapers[i],
            ) && outcome == Outcome::Applied(d.wallpapers[i].id)
            &&& !(valid && is_first(d.wallpapers, key, i)) ==> now.wallpapers[i] == d.wallpapers[i]
            &&& outcome is UnknownSender <==> forall|k: int|
                0 <= k < d.wallpapers.len() ==> !(#[trigger] d.wallpapers[k]).has(key)
        }),
{
    if is_first(d.wallpapers, key, i) {
        lemma_position(d.wallpapers, key, i);
    }
    if position(d.wallpapers, key) is Some {
        let p = choose|p: int| is_first(d.wallpapers, key, p);
        assert(d.wallpapers[p].has(key));
    } else {
        assert forall|k: int| 0 <= k < d.wallpapers.len() implies !(
        #[trigger] d.wallpapers[k]).has(key) by {
            if d.wallpapers[k].has(key) {
                lemma_first_before(d.wallpapers, key, k);
            }
        }
    }
}

/// A wallpaper whose frame was handed to the compositor is not ready for another until the
/// callback of that frame is answered, and then it is.
pub proof fn law_frames_wait_for_their_callback<S, T, I>(
    d: DaemonState<S, T, I>,
    i: int,
    callback: ObjectId,
)
    requires
        d.wf(),
        0 <= i < d.wallpapers.len(),
        forall|k: int|
            0 <= k < d.wallpapers.len() ==> !(#[trigger] d.wallpapers[k]).has(
                Key::Callback(callback),
            ),
    ensures
        ({
            let handed = changed(
                d,
                Key::Id(d.wallpapers[i].id),
                |w: WallpaperState<S>|
                    WallpaperState { callback: Some(callback), draw_ready: false, ..w },
            );
            let answered = changed(
                handed,
                Key::Callback(callback),
                |w: WallpaperState<S>| WallpaperState { draw_ready: true, ..w },
            );
            &&& !is_ready(handed.wallpapers, d.wallpapers[i].id)
            &&& is_first(handed.wallpapers, Key::Callback(callback), i)
            &&& is_ready(answered.wallpapers, d.wallpapers[i].id)
        }),
{
    let id = d.wallpapers[i].id;
    let hand = |w: WallpaperState<S>|
        WallpaperState { callback: Some(callback), draw_ready: false, ..w };
    assert(is_first(d.wallpapers, Key::Id(id), i));
    lemma_position(d.wallpapers, Key::Id(id), i);
    let handed = changed(d, Key::Id(id), hand);
    assert(handed.wallpapers == d.wallpapers.update(i, hand(d.wallpapers[i])));
    if is_ready(handed.wallpapers, id) {
        let k = choose|k: int|
            0 <= k < handed.wallpapers.len() && (#[trigger] handed.wallpapers[k]).id == id
                && handed.wallpapers[k].draw_ready;
        if k < i {
            assert(d.wallpapers[k].id != d.wallpapers[i].id);
        }
        if i < k {
            assert(d.wallpapers[i].id != d.wallpapers[k].id);
        }
    }
    assert forall|j: int| 0 <= j < i implies !(#[trigger] handed.wallpapers[j]).has(
        Key::Callback(callback),
    ) by {
        assert(!d.wallpapers[j].has(Key::Callback(callback)));
    }
    assert(is_first(handed.wallpapers, Key::Callback(callback), i));
    lemma_position(handed.wallpapers, Key::Callback(callback), i);
    let answered = changed(
        handed,
        Key::Callback(callback),
        |w: WallpaperState<S>| WallpaperState { draw_ready: true, ..w },
    );
    assert(answered.wallpapers[i].id == id && answered.wallpapers[i].draw_ready);
}

/// What is asked when wallpapers have answered in turn whether a buffer is theirs.
pub open spec fn release_after<S, T, I>(
    d: DaemonState<S, T, I>,
    answers: Seq<bool>,
) -> ReleaseStep
    decreases answers.len(),
{
    if answers.len() == 0 {
        release_begin(d)
    } else {
        match release_after(d, answers.drop_last()) {
            ReleaseStep::Try { index, .. } => release_next(d, index as int, answers.last()),
            ReleaseStep::Done => ReleaseStep::Done,
        }
    }
}

/// Wallpapers are asked for a buffer one after another, until one has it or all were asked.
pub proof fn law_release_asks_in_turn<S, T, I>(d: DaemonState<S, T, I>, answers: Seq<bool>)
    requires
        d.wallpapers.len() <= usize::MAX,
    ensures
        release_after(d, answers) == if answers.contains(true) {
            ReleaseStep::Done
        } else {
            release_at(d, answers.len() as int)
        },
    decreases answers.len(),
{
    if answers.len() > 0 {
        let before = answers.drop_last();
        law_release_asks_in_turn(d, before);
        if answers.last() {
            assert(answers[answers.len() - 1]);
        }
        if before.contains(true) {
            let k = choose|k: int| 0 <= k < before.len() && before[k] == true;
            assert(answers[k] == true);
        } else if answers.contains(true) {
            let k = choose|k: int| 0 <= k < answers.len() && answers[k] == true;
            if k < before.len() {
                assert(before[k] == true);
            }
        }
    }
}

// Names.

/// An empty list of names means every wallpaper.
pub proof fn law_no_names_mean_all<S>(wallpapers: Seq<WallpaperState<S>>)
    ensures
        named(wallpapers, Seq::empty()) == wallpapers.map_values(|w: WallpaperState<S>| w.id),
{
    let keep = |w: WallpaperState<S>| is_named(w, Seq::<Seq<char>>::empty());
    lemma_filter_all(wallpapers, keep);
}

/// Names mean exactly the wallpapers that are known by one of them.
pub proof fn law_names_mean_what_they_name<S, T, I>(
    d: DaemonState<S, T, I>,
    names: Seq<Seq<char>>,
    i: int,
)
    requires
        d.wf(),
        names.len() > 0,
        0 <= i < d.wallpapers.len(),
    ensures
        named(d.wallpapers, names).contains(d.wallpapers[i].id) <==> {
            &&& d.wallpapers[i].name matches Some(name)
            &&& names.contains(name)
        },
{
    let keep = |w: WallpaperState<S>| is_named(w, names);
    let all = d.wallpapers;
    let kept = all.filter(keep);
    let ids = named(all, names);
    if ids.contains(all[i].id) {
        let k = choose|k: int| 0 <= k < ids.len() && ids[k] == all[i].id;
        lemma_filter_is_from(all, keep, k);
        let j = choose|j: int| 0 <= j < all.len() && all[j] == kept[k];
        if i < j {
            assert(all[i].id != all[j].id);
        }
        if j < i {
            assert(all[j].id != all[i].id);
        }
        assert(is_named(all[i], names));
    }
    if all[i].name matches Some(name) && names.contains(name) {
        let k = choose|k: int| 0 <= k < names.len() && names[k] == all[i].name->0;
        assert(all[i].has_name(names[k]));
        all.lemma_filter_contains(keep, i);
        let j = choose|j: int| 0 <= j < kept.len() && kept[j] == all[i];
        assert(ids[j] == all[i].id);
    }
}

/// Two lists of names put together mean, in order, the wallpapers that either of them means.
pub proof fn law_lists_of_names_add_up<S>(
    wallpapers: Seq<WallpaperState<S>>,
    a: Seq<Seq<char>>,
    b: Seq<Seq<char>>,
)
    requires
        a.len() > 0,
        b.len() > 0,
    ensures
        named(wallpapers, a + b) == wallpapers.filter(
            |w: WallpaperState<S>| is_named(w, a) || is_named(w, b),
        ).map_values(|w: WallpaperState<S>| w.id),
{
    let keep = |w: WallpaperState<S>| is_named(w, a + b);
    let either = |w: WallpaperState<S>| is_named(w, a) || is_named(w, b);
    assert forall|w: WallpaperState<S>| #[trigger] keep(w) == either(w) by {
        if is_named(w, a) {
            let k = choose|k: int| 0 <= k < a.len() && w.has_name(#[trigger] a[k]);
            assert(w.has_name((a + b)[k]));
        }
        if is_named(w, b) {
            let k = choose|k: int| 0 <= k < b.len() && w.has_name(#[trigger] b[k]);
            assert(w.has_name((a + b)[a.len() + k]));
        }
        if is_named(w, a + b) {
            let k = choose|k: int| 0 <= k < (a + b).len() && w.has_name(#[trigger] (a + b)[k]);
            if k < a.len() {
                assert(w.has_name(a[k]));
            } else {
                assert(w.has_name(b[k - a.len()]));
            }
        }
    }
    assert(keep =~= either);
}

/// What a list of names means is a matter of which names it holds, not of their order or how
/// often.
pub proof fn law_names_go_by_membership<S>(
    wallpapers: Seq<WallpaperState<S>>,
    a: Seq<Seq<char>>,
    b: Seq<Seq<char>>,
)
    requires
        forall|name: Seq<char>| a.contains(name) <==> b.contains(name),
    ensures
        named(wallpapers, a) == named(wallpapers, b),
{
    let keep_a = |w: WallpaperState<S>| is_named(w, a);
    let keep_b = |w: WallpaperState<S>| is_named(w, b);
    if a.len() > 0 {
        assert(a.contains(a[0]));
    }
    if b.len() > 0 {
        assert(b.contains(b[0]));
    }
    assert forall|w: WallpaperState<S>| #[trigger] keep_a(w) == keep_b(w) by {
        if a.len() > 0 && is_named(w, a) {
            let k = choose|k: int| 0 <= k < a.len() && w.has_name(#[trigger] a[k]);
            assert(a.contains(a[k]));
            let j = choose|j: int| 0 <= j < b.len() && b[j] == a[k];
            assert(w.has_name(b[j]));
        }
        if b.len() > 0 && is_named(w, b) {
            let k = choose|k: int| 0 <= k < b.len() && w.has_name(#[trigger] b[k]);
            assert(b.contains(b[k]));
            let j = choose|j: int| 0 <= j < a.len() && a[j] == b[k];
            assert(w.has_name(a[j]));
        }
    }
    assert(keep_a =~= keep_b);
}

/// An output that has told its name is found by that name, whether or not what it has told is
/// committed yet: that a name counts from then on is a choice made here.
pub proof fn law_outputs_are_found_by_their_name<S, T, I>(
    d: DaemonState<S, T, I>,
    sender: ObjectId,
    name: Seq<char>,
    i: int,
)
    requires
        is_first(d.wallpapers, Key::Output(sender), i),
    ensures
        named(
            applied(
                d,
                Key::Output(sender),
                true,
                |w: WallpaperState<S>| WallpaperState { name: Some(name), ..w },
            ).0.wallpapers,
            seq![name],
        ).contains(d.wallpapers[i].id),
{
    let tell = |w: WallpaperState<S>| WallpaperState { name: Some(name), ..w };
    let names = seq![name];
    lemma_position(d.wallpapers, Key::Output(sender), i);
    let all = applied(d, Key::Output(sender), true, tell).0.wallpapers;
    let keep = |w: WallpaperState<S>| is_named(w, names);
    let kept = all.filter(keep);
    assert(all[i] == tell(d.wallpapers[i]));
    assert(all[i].has_name(names[0]));
    all.lemma_filter_contains(keep, i);
    let k = choose|k: int| 0 <= k < kept.len() && kept[k] == all[i];
    assert(named(all, names)[k] == d.wallpapers[i].id);
}

} // verus!

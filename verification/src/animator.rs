//! Animations, and the wallpapers that they draw on.

use vstd::prelude::*;

use crate::seqs::{
    lemma_filter_all, lemma_filter_is_from, lemma_filter_keeps_distinct, lemma_filter_keeps_pairs,
    lemma_filter_members, lemma_filter_step, lemma_filter_twice,
};
use crate::wallpaper::WallpaperId;

verus! {

/// An animation: what it does, and the wallpapers that it does it on.
pub struct Animator<E> {
    wallpapers: Vec<WallpaperId>,
    effect: E,
}

/// The model of an animation.
#[verifier::ext_equal]
pub struct AnimatorState<E> {
    pub wallpapers: Seq<WallpaperId>,
    pub effect: E,
}

impl<E> View for Animator<E> {
    type V = AnimatorState<E>;

    closed spec fn view(&self) -> AnimatorState<E> {
        AnimatorState { wallpapers: self.wallpapers@, effect: self.effect }
    }
}

/// The models of several animations.
pub open spec fn states<E>(animators: Seq<Animator<E>>) -> Seq<AnimatorState<E>> {
    animators.map_values(|a: Animator<E>| a@)
}

/// The wallpapers that are left when some are taken out.
pub open spec fn without(
    wallpapers: Seq<WallpaperId>,
    stopped: Seq<WallpaperId>,
) -> Seq<WallpaperId> {
    wallpapers.filter(|w: WallpaperId| !stopped.contains(w))
}

/// An animation that no longer draws on some wallpapers.
pub open spec fn detached<E>(
    animator: AnimatorState<E>,
    stopped: Seq<WallpaperId>,
) -> AnimatorState<E> {
    AnimatorState { wallpapers: without(animator.wallpapers, stopped), ..animator }
}

/// Whether an animation has a wallpaper to draw on.
pub open spec fn is_busy<E>(animator: AnimatorState<E>) -> bool {
    animator.wallpapers.len() > 0
}

/// The animations that have a wallpaper to draw on, in order.
pub open spec fn busy<E>(animators: Seq<AnimatorState<E>>) -> Seq<AnimatorState<E>> {
    animators.filter(|a: AnimatorState<E>| is_busy(a))
}

/// The animations, in order, when some wallpapers are taken from all of them and those that are
/// left without any are dropped.
pub open spec fn stopped_on<E>(
    animators: Seq<AnimatorState<E>>,
    stopped: Seq<WallpaperId>,
) -> Seq<AnimatorState<E>> {
    busy(animators.map_values(|a: AnimatorState<E>| detached(a, stopped)))
}

/// Whether some animation draws on the wallpaper.
pub open spec fn drawn_on<E>(animators: Seq<AnimatorState<E>>, w: WallpaperId) -> bool {
    exists|i: int| 0 <= i < animators.len() && #[trigger] animators[i].wallpapers.contains(w)
}

/// Whether no two of the animations draw on one wallpaper, and none names one twice.
pub open spec fn exclusive<E>(animators: Seq<AnimatorState<E>>) -> bool {
    &&& forall|i: int|
        0 <= i < animators.len() ==> (#[trigger] animators[i]).wallpapers.no_duplicates()
    &&& forall|i: int, j: int|
        0 <= i < j < animators.len() ==> disjoint(#[trigger] animators[i], #[trigger] animators[j])
}

/// Whether two animations have no wallpaper in common.
pub open spec fn disjoint<E, F>(a: AnimatorState<E>, b: AnimatorState<F>) -> bool {
    forall|w: WallpaperId|
        !(#[trigger] a.wallpapers.contains(w) && #[trigger] b.wallpapers.contains(w))
}

/// Being the given wallpaper.
pub open spec fn being(w: WallpaperId) -> spec_fn(WallpaperId) -> bool {
    |x: WallpaperId| x == w
}

/// How often an animation names the wallpaper.
pub open spec fn uses_in(wallpapers: Seq<WallpaperId>, w: WallpaperId) -> nat {
    wallpapers.filter(being(w)).len()
}

/// How often the animations name the wallpaper.
pub open spec fn uses<E>(animators: Seq<AnimatorState<E>>, w: WallpaperId) -> nat
    decreases animators.len(),
{
    if animators.len() == 0 {
        0
    } else {
        uses(animators.drop_last(), w) + uses_in(animators.last().wallpapers, w)
    }
}

pub(crate) fn contains(wallpapers: &Vec<WallpaperId>, w: WallpaperId) -> (found: bool)
    ensures
        found == wallpapers@.contains(w),
{
    let mut i: usize = 0;
    while i < wallpapers.len()
        invariant
            i <= wallpapers@.len(),
            forall|k: int| 0 <= k < i ==> wallpapers@[k] != w,
        decreases wallpapers@.len() - i,
    {
        if wallpapers[i] == w {
            return true;
        }
        i += 1;
    }
    false
}

impl<E> Animator<E> {
    /// An animation on the given wallpapers.
    pub fn new(wallpapers: Vec<WallpaperId>, effect: E) -> (animator: Animator<E>)
        ensures
            animator@ == (AnimatorState { wallpapers: wallpapers@, effect }),
    {
        Animator { wallpapers, effect }
    }

    /// The wallpapers that the animation draws on.
    pub fn wallpapers(&self) -> (wallpapers: &Vec<WallpaperId>)
        ensures
            wallpapers@ == self@.wallpapers,
    {
        &self.wallpapers
    }

    /// What the animation does.
    pub fn effect(&self) -> (effect: &E)
        ensures
            *effect == self@.effect,
    {
        &self.effect
    }

    /// What the animation does, to be moved on.
    pub fn effect_mut(&mut self) -> (effect: &mut E)
        ensures
            *effect == old(self)@.effect,
            final(self)@ == (AnimatorState { effect: *final(effect), ..old(self)@ }),
    {
        &mut self.effect
    }

    /// Takes the animation apart.
    pub fn into_parts(self) -> (parts: (Vec<WallpaperId>, E))
        ensures
            parts.0@ == self@.wallpapers,
            parts.1 == self@.effect,
    {
        (self.wallpapers, self.effect)
    }

    /// Takes wallpapers away from the animation.
    pub fn detach(&mut self, stopped: &Vec<WallpaperId>)
        ensures
            final(self)@ == detached(old(self)@, stopped@),
    {
        let ghost before = self.wallpapers@;
        let ghost keep = |w: WallpaperId| !stopped@.contains(w);
        let mut kept: Vec<WallpaperId> = Vec::new();
        let mut i: usize = 0;
        assert(before.take(0).filter(keep) =~= Seq::<WallpaperId>::empty()) by {
            reveal(Seq::filter);
        }
        while i < self.wallpapers.len()
            invariant
                i <= before.len(),
                self.wallpapers@ == before,
                keep == (|w: WallpaperId| !stopped@.contains(w)),
                kept@ == before.take(i as int).filter(keep),
                self.effect == old(self).effect,
            decreases before.len() - i,
        {
            let w = self.wallpapers[i];
            if !contains(stopped, w) {
                kept.push(w);
            }
            proof {
                lemma_filter_step(before, keep, i as int);
            }
            i += 1;
        }
        assert(before.take(i as int) =~= before);
        self.wallpapers = kept;
    }
}

/// Drops the animations that have nothing to draw on.
pub fn retain_busy<E>(animators: &mut Vec<Animator<E>>)
    ensures
        states(final(animators)@) == busy(states(old(animators)@)),
{
    let ghost before = states(animators@);
    let ghost keep = |a: AnimatorState<E>| is_busy(a);
    let mut i: usize = 0;
    let ghost mut seen: int = 0;
    assert(before.take(0).filter(keep) =~= Seq::<AnimatorState<E>>::empty()) by {
        reveal(Seq::filter);
    }
    assert(states(animators@).take(0) =~= before.take(0).filter(keep));
    assert(states(animators@).skip(0) =~= before.skip(0));
    while i < animators.len()
        invariant
            i <= animators@.len(),
            0 <= seen <= before.len(),
            keep == (|a: AnimatorState<E>| is_busy(a)),
            states(animators@).take(i as int) == before.take(seen).filter(keep),
            states(animators@).skip(i as int) == before.skip(seen),
        decreases animators@.len() - i,
    {
        let ghost now = states(animators@);
        assert(now.skip(i as int).len() == now.len() - i);
        assert(before.skip(seen).len() == before.len() - seen);
        assert(now.skip(i as int)[0] == before.skip(seen)[0]);
        assert(now[i as int] == before[seen]);
        proof {
            lemma_filter_step(before, keep, seen);
        }
        if animators[i].wallpapers.len() == 0 {
            let _ = animators.remove(i);
            assert(states(animators@).take(i as int) =~= now.take(i as int));
            assert(states(animators@).skip(i as int) =~= now.skip(i as int).skip(1));
            assert(before.skip(seen + 1) =~= before.skip(seen).skip(1));
        } else {
            assert(now.take(i + 1) =~= now.take(i as int).push(now[i as int]));
            assert(now.skip(i + 1) =~= now.skip(i as int).skip(1));
            assert(before.skip(seen + 1) =~= before.skip(seen).skip(1));
            i += 1;
        }
        proof {
            seen = seen + 1;
        }
    }
    assert(states(animators@).skip(i as int).len() == 0);
    assert(before.skip(seen).len() == 0);
    assert(states(animators@).take(i as int) =~= states(animators@));
    assert(before.take(seen) =~= before);
}

/// Takes wallpapers away from all animations, and drops those that are left without any.
pub fn stop_on<E>(animators: &mut Vec<Animator<E>>, stopped: &Vec<WallpaperId>)
    ensures
        states(final(animators)@) == stopped_on(states(old(animators)@), stopped@),
{
    let ghost before = states(animators@);
    let ghost after = before.map_values(|a: AnimatorState<E>| detached(a, stopped@));
    let mut i: usize = 0;
    while i < animators.len()
        invariant
            i <= animators@.len(),
            animators@.len() == before.len(),
            after == before.map_values(|a: AnimatorState<E>| detached(a, stopped@)),
            forall|k: int| 0 <= k < i ==> (#[trigger] animators@[k])@ == after[k],
            forall|k: int| i <= k < before.len() ==> (#[trigger] animators@[k])@ == before[k],
        decreases animators@.len() - i,
    {
        animators[i].detach(stopped);
        i += 1;
    }
    assert(states(animators@) =~= after);
    retain_busy(animators);
}

/// How often the animations name the wallpaper.
pub fn count_uses<E>(animators: &Vec<Animator<E>>, w: WallpaperId) -> (count: usize)
    requires
        exclusive(states(animators@)),
    ensures
        count == uses(states(animators@), w),
{
    let ghost all = states(animators@);
    let mut count: usize = 0;
    let mut i: usize = 0;
    assert(all.take(0).len() == 0);
    while i < animators.len()
        invariant
            i <= animators@.len(),
            all == states(animators@),
            exclusive(all),
            count == uses(all.take(i as int), w),
        decreases animators@.len() - i,
    {
        let ghost shown = all.take(i + 1);
        assert(shown.drop_last() =~= all.take(i as int));
        assert(shown.last() == animators@[i as int]@);
        assert(exclusive(all.take(i as int)));
        proof {
            lemma_uses_of_exclusive(all.take(i as int), w);
            lemma_uses_in_distinct(all[i as int].wallpapers, w);
        }
        if contains(&animators[i].wallpapers, w) {
            count += 1;
        }
        i += 1;
    }
    assert(all.take(i as int) =~= all);
    count
}

/// A list without duplicates names a wallpaper once or not at all.
pub proof fn lemma_uses_in_distinct(wallpapers: Seq<WallpaperId>, w: WallpaperId)
    requires
        wallpapers.no_duplicates(),
    ensures
        uses_in(wallpapers, w) == if wallpapers.contains(w) {
            1nat
        } else {
            0
        },
{
    let same = being(w);
    let named = wallpapers.filter(same);
    lemma_filter_members(wallpapers, same, w);
    lemma_filter_keeps_distinct(wallpapers, same);
    if named.len() > 0 {
        lemma_filter_is_from(wallpapers, same, 0);
        assert(named[0] == w);
    }
    if named.len() > 1 {
        lemma_filter_is_from(wallpapers, same, 1);
        assert(named[0] != named[1]);
    }
}

/// Animations that share no wallpaper name one at most once between them.
pub proof fn lemma_uses_of_exclusive<E>(animators: Seq<AnimatorState<E>>, w: WallpaperId)
    requires
        exclusive(animators),
    ensures
        uses(animators, w) == if drawn_on(animators, w) {
            1nat
        } else {
            0
        },
    decreases animators.len(),
{
    if animators.len() > 0 {
        let front = animators.drop_last();
        let last = animators.last();
        assert(exclusive(front)) by {
            assert forall|i: int| 0 <= i < front.len() implies (
            #[trigger] front[i]).wallpapers.no_duplicates() by {
                assert(front[i] == animators[i]);
            }
            assert forall|i: int, j: int| 0 <= i < j < front.len() implies disjoint(
                #[trigger] front[i],
                #[trigger] front[j],
            ) by {
                assert(front[i] == animators[i] && front[j] == animators[j]);
            }
        }
        lemma_uses_of_exclusive(front, w);
        lemma_uses_in_distinct(last.wallpapers, w);
        if drawn_on(front, w) {
            let i = choose|i: int|
                0 <= i < front.len() && #[trigger] front[i].wallpapers.contains(w);
            assert(animators[i].wallpapers.contains(w));
            assert(disjoint(animators[i], animators[animators.len() - 1]));
        } else {
            if drawn_on(animators, w) {
                let i = choose|i: int|
                    0 <= i < animators.len() && #[trigger] animators[i].wallpapers.contains(w);
                if i < front.len() {
                    assert(front[i].wallpapers.contains(w));
                }
            }
            if last.wallpapers.contains(w) {
                assert(animators[animators.len() - 1].wallpapers.contains(w));
            }
        }
    }
}

/// After stopping, exactly the wallpapers that were not stopped are still drawn on.
pub proof fn lemma_stopped_members<E>(
    animators: Seq<AnimatorState<E>>,
    stopped: Seq<WallpaperId>,
    w: WallpaperId,
)
    ensures
        drawn_on(stopped_on(animators, stopped), w) <==> drawn_on(animators, w)
            && !stopped.contains(w),
{
    let detach = |a: AnimatorState<E>| detached(a, stopped);
    let running = |a: AnimatorState<E>| is_busy(a);
    let kept = |x: WallpaperId| !stopped.contains(x);
    let all = animators.map_values(detach);
    let left = stopped_on(animators, stopped);
    if drawn_on(left, w) {
        let i = choose|i: int| 0 <= i < left.len() && #[trigger] left[i].wallpapers.contains(w);
        lemma_filter_is_from(all, running, i);
        let k = choose|k: int| 0 <= k < all.len() && all[k] == left[i];
        lemma_filter_members(animators[k].wallpapers, kept, w);
        assert(animators[k].wallpapers.contains(w));
    }
    if drawn_on(animators, w) && !stopped.contains(w) {
        let k = choose|k: int|
            0 <= k < animators.len() && #[trigger] animators[k].wallpapers.contains(w);
        lemma_filter_members(animators[k].wallpapers, kept, w);
        assert(all[k].wallpapers.contains(w));
        assert(is_busy(all[k]));
        all.lemma_filter_contains(running, k);
        let i = choose|i: int| 0 <= i < left.len() && left[i] == all[k];
        assert(left[i].wallpapers.contains(w));
    }
}

/// Dropping animations that have nothing to draw on changes what is drawn on by nothing, and what
/// is left shares nothing that was not shared before.
pub proof fn lemma_busy<E>(animators: Seq<AnimatorState<E>>)
    ensures
        forall|i: int| 0 <= i < busy(animators).len() ==> is_busy(#[trigger] busy(animators)[i]),
        forall|w: WallpaperId| drawn_on(busy(animators), w) == #[trigger] drawn_on(animators, w),
        exclusive(animators) ==> exclusive(busy(animators)),
{
    let running = |a: AnimatorState<E>| is_busy(a);
    let left = busy(animators);
    assert forall|i: int| 0 <= i < left.len() implies is_busy(#[trigger] left[i]) by {
        lemma_filter_is_from(animators, running, i);
    }
    assert forall|w: WallpaperId| drawn_on(left, w) == #[trigger] drawn_on(animators, w) by {
        if drawn_on(left, w) {
            let i = choose|i: int| 0 <= i < left.len() && #[trigger] left[i].wallpapers.contains(w);
            lemma_filter_is_from(animators, running, i);
            let k = choose|k: int| 0 <= k < animators.len() && animators[k] == left[i];
            assert(animators[k].wallpapers.contains(w));
        }
        if drawn_on(animators, w) {
            let k = choose|k: int|
                0 <= k < animators.len() && #[trigger] animators[k].wallpapers.contains(w);
            animators.lemma_filter_contains(running, k);
            let i = choose|i: int| 0 <= i < left.len() && left[i] == animators[k];
            assert(left[i].wallpapers.contains(w));
        }
    }
    if exclusive(animators) {
        let apart = |a: AnimatorState<E>, b: AnimatorState<E>| disjoint(a, b);
        assert forall|i: int, j: int| 0 <= i < j < animators.len() implies #[trigger] apart(
            animators[i],
            animators[j],
        ) by {}
        lemma_filter_keeps_pairs(animators, running, apart);
        assert forall|i: int, j: int| 0 <= i < j < left.len() implies disjoint(
            #[trigger] left[i],
            #[trigger] left[j],
        ) by {
            assert(apart(left[i], left[j]));
        }
        assert forall|i: int| 0 <= i < left.len() implies (
        #[trigger] left[i]).wallpapers.no_duplicates() by {
            lemma_filter_is_from(animators, running, i);
        }
    }
}

/// Stopping does not make animations share a wallpaper.
pub proof fn lemma_stopped_exclusive<E>(
    animators: Seq<AnimatorState<E>>,
    stopped: Seq<WallpaperId>,
)
    requires
        exclusive(animators),
    ensures
        exclusive(stopped_on(animators, stopped)),
{
    let kept = |x: WallpaperId| !stopped.contains(x);
    let all = animators.map_values(|a: AnimatorState<E>| detached(a, stopped));
    assert forall|i: int| 0 <= i < all.len() implies (
    #[trigger] all[i]).wallpapers.no_duplicates() by {
        lemma_filter_keeps_distinct(animators[i].wallpapers, kept);
    }
    assert forall|i: int, j: int| 0 <= i < j < all.len() implies disjoint(
        #[trigger] all[i],
        #[trigger] all[j],
    ) by {
        assert forall|w: WallpaperId|
            !(#[trigger] all[i].wallpapers.contains(w) && #[trigger] all[j].wallpapers.contains(
                w,
            )) by {
            lemma_filter_members(animators[i].wallpapers, kept, w);
            lemma_filter_members(animators[j].wallpapers, kept, w);
            assert(disjoint(animators[i], animators[j]));
        }
    }
    lemma_busy(all);
}

/// Stopping goes from animation to animation.
proof fn lemma_stopped_step<E>(animators: Seq<AnimatorState<E>>, stopped: Seq<WallpaperId>)
    requires
        animators.len() > 0,
    ensures
        stopped_on(animators, stopped) == {
            let front = stopped_on(animators.drop_last(), stopped);
            let last = detached(animators.last(), stopped);
            if is_busy(last) {
                front.push(last)
            } else {
                front
            }
        },
{
    reveal(Seq::filter);
    let detach = |a: AnimatorState<E>| detached(a, stopped);
    assert(animators.map_values(detach).drop_last() =~= animators.drop_last().map_values(detach));
}

/// What is stopped is a matter of which wallpapers are named, not of their order or how often.
pub proof fn law_stopping_goes_by_membership<E>(
    animators: Seq<AnimatorState<E>>,
    a: Seq<WallpaperId>,
    b: Seq<WallpaperId>,
)
    requires
        forall|w: WallpaperId| a.contains(w) <==> b.contains(w),
    ensures
        stopped_on(animators, a) == stopped_on(animators, b),
{
    let keep_a = |w: WallpaperId| !a.contains(w);
    let keep_b = |w: WallpaperId| !b.contains(w);
    assert(keep_a =~= keep_b);
    assert(animators.map_values(|x: AnimatorState<E>| detached(x, a)) =~= animators.map_values(
        |x: AnimatorState<E>| detached(x, b),
    ));
}

/// Stopping some wallpapers and then others is stopping all of them, in whichever order.
pub proof fn law_stopping_adds_up<E>(
    animators: Seq<AnimatorState<E>>,
    a: Seq<WallpaperId>,
    b: Seq<WallpaperId>,
)
    ensures
        stopped_on(stopped_on(animators, a), b) == stopped_on(animators, a + b),
        stopped_on(stopped_on(animators, b), a) == stopped_on(animators, a + b),
{
    lemma_stopping_adds_up(animators, a, b);
    lemma_stopping_adds_up(animators, b, a);
    assert forall|w: WallpaperId| (a + b).contains(w) <==> (b + a).contains(w) by {
        lemma_either(a, b, w);
        lemma_either(b, a, w);
    }
    law_stopping_goes_by_membership(animators, a + b, b + a);
}

/// What two lists put together hold, one of them holds.
proof fn lemma_either(a: Seq<WallpaperId>, b: Seq<WallpaperId>, w: WallpaperId)
    ensures
        (a + b).contains(w) <==> a.contains(w) || b.contains(w),
{
    if a.contains(w) {
        let k = choose|k: int| 0 <= k < a.len() && a[k] == w;
        assert((a + b)[k] == w);
    }
    if b.contains(w) {
        let k = choose|k: int| 0 <= k < b.len() && b[k] == w;
        assert((a + b)[a.len() + k] == w);
    }
    if (a + b).contains(w) {
        let k = choose|k: int| 0 <= k < (a + b).len() && (a + b)[k] == w;
        if k < a.len() {
            assert(a[k] == w);
        } else {
            assert(b[k - a.len()] == w);
        }
    }
}

/// Stopping some wallpapers and then others is stopping all of them.
proof fn lemma_stopping_adds_up<E>(
    animators: Seq<AnimatorState<E>>,
    a: Seq<WallpaperId>,
    b: Seq<WallpaperId>,
)
    ensures
        stopped_on(stopped_on(animators, a), b) == stopped_on(animators, a + b),
    decreases animators.len(),
{
    if animators.len() == 0 {
        reveal(Seq::filter);
        assert(stopped_on(animators, a) =~= Seq::empty());
        assert(stopped_on(stopped_on(animators, a), b) =~= Seq::empty());
        assert(stopped_on(animators, a + b) =~= Seq::empty());
    } else {
        let front = animators.drop_last();
        let last = animators.last();
        lemma_stopping_adds_up(front, a, b);
        lemma_stopped_step(animators, a);
        lemma_stopped_step(animators, a + b);
        let keep_a = |w: WallpaperId| !a.contains(w);
        let keep_b = |w: WallpaperId| !b.contains(w);
        let keep_both = |w: WallpaperId| !(a + b).contains(w);
        assert forall|w: WallpaperId| #[trigger] keep_both(w) <==> keep_a(w) && keep_b(w) by {
            lemma_either(a, b, w);
        }
        lemma_filter_twice(last.wallpapers, keep_a, keep_b, keep_both);
        assert(detached(detached(last, a), b) == detached(last, a + b));
        let once = stopped_on(front, a);
        if is_busy(detached(last, a)) {
            let more = once.push(detached(last, a));
            lemma_stopped_step(more, b);
            assert(more.drop_last() =~= once);
        } else {
            detached(last, a).wallpapers.lemma_filter_len(keep_b);
        }
    }
}

/// Stopping the same wallpapers again changes nothing.
pub proof fn law_stopping_twice_is_stopping_once<E>(
    animators: Seq<AnimatorState<E>>,
    stopped: Seq<WallpaperId>,
)
    ensures
        stopped_on(stopped_on(animators, stopped), stopped) == stopped_on(animators, stopped),
{
    law_stopping_adds_up(animators, stopped, stopped);
    assert forall|w: WallpaperId| (stopped + stopped).contains(w) <==> stopped.contains(w) by {
        lemma_either(stopped, stopped, w);
    }
    law_stopping_goes_by_membership(animators, stopped + stopped, stopped);
}

/// Stopping wallpapers that nothing draws on changes nothing, where every animation has something
/// to draw on.
pub proof fn law_stopping_nothing_changes_nothing<E>(
    animators: Seq<AnimatorState<E>>,
    stopped: Seq<WallpaperId>,
)
    requires
        forall|w: WallpaperId| #[trigger] stopped.contains(w) ==> !drawn_on(animators, w),
        forall|i: int| 0 <= i < animators.len() ==> is_busy(#[trigger] animators[i]),
    ensures
        stopped_on(animators, stopped) == animators,
{
    let kept = |w: WallpaperId| !stopped.contains(w);
    let after = animators.map_values(|a: AnimatorState<E>| detached(a, stopped));
    assert forall|i: int| 0 <= i < animators.len() implies #[trigger] after[i] == animators[i] by {
        let on = animators[i].wallpapers;
        assert forall|k: int| 0 <= k < on.len() implies kept(#[trigger] on[k]) by {
            assert(animators[i].wallpapers.contains(on[k]));
            assert(drawn_on(animators, on[k]));
        }
        lemma_filter_all(on, kept);
    }
    assert(after =~= animators);
    lemma_filter_all(animators, |a: AnimatorState<E>| is_busy(a));
}

/// Wallpapers are taken out one by one: one more stays, behind those that stay, unless it is among
/// those that are taken out.
pub proof fn law_wallpapers_are_taken_out_one_by_one(
    wallpapers: Seq<WallpaperId>,
    w: WallpaperId,
    stopped: Seq<WallpaperId>,
)
    ensures
        without(Seq::empty(), stopped) == Seq::<WallpaperId>::empty(),
        (exists|k: int| 0 <= k < stopped.len() && stopped[k] == w) ==> without(
            wallpapers.push(w),
            stopped,
        ) == without(wallpapers, stopped),
        (forall|k: int| 0 <= k < stopped.len() ==> stopped[k] != w) ==> without(
            wallpapers.push(w),
            stopped,
        ) == without(wallpapers, stopped).push(w),
{
    reveal(Seq::filter);
    assert(wallpapers.push(w).drop_last() =~= wallpapers);
}

/// Animations are stopped one by one: one more keeps doing what it does, behind the others, on the
/// wallpapers that it is left with, unless it is left with none.
pub proof fn law_animations_are_stopped_one_by_one<E>(
    animators: Seq<AnimatorState<E>>,
    more: AnimatorState<E>,
    stopped: Seq<WallpaperId>,
)
    ensures
        stopped_on(Seq::<AnimatorState<E>>::empty(), stopped) == Seq::<AnimatorState<E>>::empty(),
        without(more.wallpapers, stopped).len() == 0 ==> stopped_on(animators.push(more), stopped)
            == stopped_on(animators, stopped),
        without(more.wallpapers, stopped).len() > 0 ==> stopped_on(animators.push(more), stopped)
            == stopped_on(animators, stopped).push(
            AnimatorState {
                wallpapers: without(more.wallpapers, stopped),
                effect: more.effect,
            },
        ),
{
    lemma_stopped_step(animators.push(more), stopped);
    assert(animators.push(more).drop_last() =~= animators);
    assert(stopped_on(Seq::<AnimatorState<E>>::empty(), stopped) =~= Seq::empty()) by {
        reveal(Seq::filter);
    }
}

/// Animations without a wallpaper are left out one by one, and all others stay as they are.
pub proof fn law_empty_animations_are_left_out_one_by_one<E>(
    animators: Seq<AnimatorState<E>>,
    more: AnimatorState<E>,
)
    ensures
        busy(Seq::<AnimatorState<E>>::empty()) == Seq::<AnimatorState<E>>::empty(),
        more.wallpapers.len() == 0 ==> busy(animators.push(more)) == busy(animators),
        more.wallpapers.len() > 0 ==> busy(animators.push(more)) == busy(animators).push(more),
{
    reveal(Seq::filter);
    assert(animators.push(more).drop_last() =~= animators);
}

} // verus!

//! Facts about sequences that have been filtered.

use vstd::prelude::*;

verus! {

/// What holds of every two elements, the first before the second, holds of every two that stay.
pub proof fn lemma_filter_keeps_pairs<A>(
    s: Seq<A>,
    keep: spec_fn(A) -> bool,
    related: spec_fn(A, A) -> bool,
)
    requires
        forall|i: int, j: int| 0 <= i < j < s.len() ==> #[trigger] related(s[i], s[j]),
    ensures
        forall|i: int, j: int|
            0 <= i < j < s.filter(keep).len() ==> #[trigger] related(
                s.filter(keep)[i],
                s.filter(keep)[j],
            ),
    decreases s.len(),
{
    reveal(Seq::filter);
    if s.len() > 0 {
        let front = s.drop_last();
        lemma_filter_keeps_pairs(front, keep, related);
        if keep(s.last()) {
            let kept = front.filter(keep);
            assert forall|i: int, j: int| 0 <= i < j < s.filter(keep).len() implies #[trigger] related(
                s.filter(keep)[i],
                s.filter(keep)[j],
            ) by {
                if j == kept.len() {
                    lemma_filter_is_from(front, keep, i);
                    let k = choose|k: int| 0 <= k < front.len() && front[k] == kept[i];
                    assert(related(s[k], s[s.len() - 1]));
                } else {
                    assert(related(kept[i], kept[j]));
                }
            }
        }
    }
}

/// What stays after filtering was there before, and passed.
pub proof fn lemma_filter_is_from<A>(s: Seq<A>, keep: spec_fn(A) -> bool, i: int)
    requires
        0 <= i < s.filter(keep).len(),
    ensures
        s.contains(s.filter(keep)[i]),
        keep(s.filter(keep)[i]),
{
    assert(s.filter(keep).contains(s.filter(keep)[i]));
    s.lemma_filter_contains_rev(keep, s.filter(keep)[i]);
    s.lemma_filter_pred(keep, i);
}

/// An element is among those that stay if and only if it was there and passes.
pub proof fn lemma_filter_members<A>(s: Seq<A>, keep: spec_fn(A) -> bool, x: A)
    ensures
        s.filter(keep).contains(x) <==> s.contains(x) && keep(x),
{
    if s.filter(keep).contains(x) {
        let i = choose|i: int| 0 <= i < s.filter(keep).len() && s.filter(keep)[i] == x;
        lemma_filter_is_from(s, keep, i);
    }
    if s.contains(x) && keep(x) {
        let i = choose|i: int| 0 <= i < s.len() && s[i] == x;
        s.lemma_filter_contains(keep, i);
    }
}

/// Filtering a sequence without duplicates leaves none.
pub proof fn lemma_filter_keeps_distinct<A>(s: Seq<A>, keep: spec_fn(A) -> bool)
    requires
        s.no_duplicates(),
    ensures
        s.filter(keep).no_duplicates(),
{
    let related = |a: A, b: A| a != b;
    assert forall|i: int, j: int| 0 <= i < j < s.len() implies #[trigger] related(s[i], s[j]) by {}
    lemma_filter_keeps_pairs(s, keep, related);
    let kept = s.filter(keep);
    assert forall|i: int, j: int| 0 <= i < kept.len() && 0 <= j < kept.len() && i != j implies kept[i]
        != kept[j] by {
        if i < j {
            assert(related(kept[i], kept[j]));
        } else {
            assert(related(kept[j], kept[i]));
        }
    }
}

/// Where everything passes, nothing changes.
pub proof fn lemma_filter_all<A>(s: Seq<A>, keep: spec_fn(A) -> bool)
    requires
        forall|i: int| 0 <= i < s.len() ==> keep(#[trigger] s[i]),
    ensures
        s.filter(keep) == s,
    decreases s.len(),
{
    reveal(Seq::filter);
    if s.len() > 0 {
        let front = s.drop_last();
        assert forall|i: int| 0 <= i < front.len() implies keep(#[trigger] front[i]) by {
            assert(front[i] == s[i]);
        }
        lemma_filter_all(front, keep);
        assert(front.push(s.last()) =~= s);
    } else {
        assert(s.filter(keep) =~= s);
    }
}

/// The next element of a sequence is added to what was kept of those before it, if it passes.
pub proof fn lemma_filter_step<A>(s: Seq<A>, keep: spec_fn(A) -> bool, i: int)
    requires
        0 <= i < s.len(),
    ensures
        s.take(i + 1).filter(keep) == if keep(s[i]) {
            s.take(i).filter(keep).push(s[i])
        } else {
            s.take(i).filter(keep)
        },
{
    reveal(Seq::filter);
    assert(s.take(i + 1).drop_last() =~= s.take(i));
    assert(s.take(i + 1).last() == s[i]);
}

/// Filtering twice is filtering by both tests at once.
pub proof fn lemma_filter_twice<A>(
    s: Seq<A>,
    first: spec_fn(A) -> bool,
    second: spec_fn(A) -> bool,
    both: spec_fn(A) -> bool,
)
    requires
        forall|x: A| #[trigger] both(x) <==> first(x) && second(x),
    ensures
        s.filter(first).filter(second) == s.filter(both),
    decreases s.len(),
{
    reveal(Seq::filter);
    if s.len() > 0 {
        let front = s.drop_last();
        lemma_filter_twice(front, first, second, both);
        if first(s.last()) {
            let kept = front.filter(first);
            assert(kept.push(s.last()).drop_last() =~= kept);
        }
        assert(both(s.last()) == (first(s.last()) && second(s.last())));
    }
}

} // verus!

//! What a run of a command did, and what it was told.

use vstd::prelude::*;

verus! {

/// Of the events that answer `actions`, one for one, those that answer an action
/// like `wanted`, in order.
pub open spec fn replies<A, E>(
    actions: Seq<A>,
    events: Seq<E>,
    wanted: spec_fn(A) -> bool,
) -> Seq<E>
    decreases actions.len(),
{
    if actions.len() == 0 {
        Seq::empty()
    } else {
        let n = actions.len() - 1;
        let before = replies(actions.drop_last(), events.take(n), wanted);
        if wanted(actions.last()) {
            before.push(events[n])
        } else {
            before
        }
    }
}

/// Of two runs, one after the other, what is wanted of the second follows.
pub proof fn lemma_sum<A, E>(
    one: Seq<A>,
    other: Seq<A>,
    one_events: Seq<E>,
    other_events: Seq<E>,
    wanted: spec_fn(A) -> bool,
)
    requires
        one.len() == one_events.len(),
        other.len() == other_events.len(),
    ensures
        (one + other).filter(wanted) == one.filter(wanted) + other.filter(wanted),
        replies(one + other, one_events + other_events, wanted) == replies(one, one_events, wanted)
            + replies(other, other_events, wanted),
    decreases other.len(),
{
    Seq::filter_distributes_over_add(one, other, wanted);
    let all = one + other;
    let all_events = one_events + other_events;
    if other.len() == 0 {
        assert(all =~= one);
        assert(all_events =~= one_events);
        assert(replies(one, one_events, wanted) + replies(other, other_events, wanted) =~= replies(
            one,
            one_events,
            wanted,
        ));
    } else {
        let n = other.len() - 1;
        lemma_sum(one, other.drop_last(), one_events, other_events.take(n), wanted);
        assert(all.drop_last() =~= one + other.drop_last());
        assert(all_events.take(all.len() - 1) =~= one_events + other_events.take(n));
        assert(all.last() == other.last());
        assert(all_events[all.len() - 1] == other_events[n]);
        assert(replies(all, all_events, wanted) =~= replies(one, one_events, wanted) + replies(
            other,
            other_events,
            wanted,
        ));
    }
}

/// Of actions that are all wanted, or all not, every one is, or none.
pub proof fn lemma_alike<A, E>(actions: Seq<A>, events: Seq<E>, wanted: spec_fn(A) -> bool)
    requires
        actions.len() == events.len(),
    ensures
        (forall|i: int| 0 <= i < actions.len() ==> wanted(#[trigger] actions[i])) ==> {
            &&& actions.filter(wanted) == actions
            &&& replies(actions, events, wanted) == events
        },
        (forall|i: int| 0 <= i < actions.len() ==> !wanted(#[trigger] actions[i])) ==> {
            &&& actions.filter(wanted) == Seq::<A>::empty()
            &&& replies(actions, events, wanted) == Seq::<E>::empty()
        },
    decreases actions.len(),
{
    reveal(Seq::filter);
    if actions.len() > 0 {
        let n = actions.len() - 1;
        lemma_alike(actions.drop_last(), events.take(n), wanted);
        assert(actions.drop_last().push(actions.last()) =~= actions);
        assert(events.take(n).push(events[n]) =~= events);
        assert(actions[n] == actions.last());
        assert forall|i: int| 0 <= i < n implies actions.drop_last()[i] == #[trigger] actions[i] by {}
    } else {
        assert(actions =~= Seq::empty());
        assert(events =~= Seq::empty());
    }
}

/// If the actions wanted are those from one index up to another, they are what
/// is found, and their answers with them.
pub proof fn lemma_range<A, E>(
    actions: Seq<A>,
    events: Seq<E>,
    wanted: spec_fn(A) -> bool,
    from: int,
    to: int,
)
    requires
        actions.len() == events.len(),
        0 <= from <= to <= actions.len(),
        forall|i: int|
            0 <= i < actions.len() ==> (wanted(#[trigger] actions[i]) <==> from <= i < to),
    ensures
        actions.filter(wanted) == actions.subrange(from, to),
        replies(actions, events, wanted) == events.subrange(from, to),
    decreases actions.len(),
{
    reveal(Seq::filter);
    if actions.len() == 0 {
        assert(actions.filter(wanted) =~= actions.subrange(from, to));
        assert(replies(actions, events, wanted) =~= events.subrange(from, to));
    } else {
        let n = actions.len() - 1;
        let before = actions.drop_last();
        assert forall|i: int| 0 <= i < n implies before[i] == #[trigger] actions[i] by {}
        assert(wanted(actions[n]) <==> from <= n < to);
        if to == n + 1 && from <= n {
            lemma_range(before, events.take(n), wanted, from, n);
            assert(before.subrange(from, n).push(actions[n]) =~= actions.subrange(from, to));
            assert(events.take(n).subrange(from, n).push(events[n]) =~= events.subrange(from, to));
        } else if from == n + 1 {
            lemma_range(before, events.take(n), wanted, n, n);
            assert(before.subrange(n, n) =~= actions.subrange(from, to));
            assert(events.take(n).subrange(n, n) =~= events.subrange(from, to));
        } else {
            lemma_range(before, events.take(n), wanted, from, to);
            assert(before.subrange(from, to) =~= actions.subrange(from, to));
            assert(events.take(n).subrange(from, to) =~= events.subrange(from, to));
        }
    }
}

} // verus!

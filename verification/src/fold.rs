//! Running a step over a sequence until the first failure.

use vstd::prelude::*;

verus! {

/// The state after `step` has taken every item in order, or the message of the first step
/// that fails. Nothing after a failure is looked at.
pub open spec fn fold_until_error<S, X>(
    state: S,
    items: Seq<X>,
    step: spec_fn(S, X) -> Result<S, Seq<char>>,
) -> Result<S, Seq<char>>
    decreases items.len(),
{
    if items.len() == 0 {
        Ok(state)
    } else {
        match fold_until_error(state, items.drop_last(), step) {
            Ok(reached) => step(reached, items.last()),
            Err(message) => Err(message),
        }
    }
}

/// One more item: the fold over `items.take(k + 1)` is the fold over `items.take(k)`
/// followed by one step on `items[k]`.
pub proof fn lemma_fold_next<S, X>(
    state: S,
    items: Seq<X>,
    step: spec_fn(S, X) -> Result<S, Seq<char>>,
    k: int,
)
    requires
        0 <= k < items.len(),
    ensures
        fold_until_error(state, items.take(k + 1), step) == match fold_until_error(
            state,
            items.take(k),
            step,
        ) {
            Ok(reached) => step(reached, items[k]),
            Err(message) => Err(message),
        },
{
    assert(items.take(k + 1).drop_last() =~= items.take(k));
}

/// A failure within a prefix is the failure of the whole.
pub proof fn lemma_fold_prefix_error<S, X>(
    state: S,
    items: Seq<X>,
    step: spec_fn(S, X) -> Result<S, Seq<char>>,
    k: int,
)
    requires
        0 <= k <= items.len(),
        fold_until_error(state, items.take(k), step) is Err,
    ensures
        fold_until_error(state, items, step) == fold_until_error(state, items.take(k), step),
    decreases items.len() - k,
{
    if k == items.len() {
        assert(items.take(k) =~= items);
    } else {
        lemma_fold_next(state, items, step, k);
        lemma_fold_prefix_error(state, items, step, k + 1);
    }
}

/// Folding over one sequence after another is folding over the first and going on, from
/// the state reached, over the second.
pub proof fn lemma_fold_concat<S, X>(
    state: S,
    front: Seq<X>,
    back: Seq<X>,
    step: spec_fn(S, X) -> Result<S, Seq<char>>,
)
    ensures
        fold_until_error(state, front + back, step) == match fold_until_error(state, front, step) {
            Ok(reached) => fold_until_error(reached, back, step),
            Err(message) => Err(message),
        },
    decreases back.len(),
{
    if back.len() == 0 {
        assert(front + back =~= front);
    } else {
        assert((front + back).drop_last() =~= front + back.drop_last());
        assert((front + back).last() == back.last());
        lemma_fold_concat(state, front, back.drop_last(), step);
    }
}

/// Folding over a single item is one step.
pub proof fn lemma_fold_single<S, X>(state: S, item: X, step: spec_fn(S, X) -> Result<S, Seq<char>>)
    ensures
        fold_until_error(state, seq![item], step) == step(state, item),
{
    assert(seq![item].drop_last() =~= Seq::<X>::empty());
    assert(fold_until_error(state, Seq::<X>::empty(), step) == Ok::<S, Seq<char>>(state));
}

/// An item on which the step fails from every state makes the whole fold fail.
pub proof fn lemma_fold_blocked<S, X>(
    state: S,
    items: Seq<X>,
    step: spec_fn(S, X) -> Result<S, Seq<char>>,
    k: int,
)
    requires
        0 <= k < items.len(),
        forall|reached: S| (#[trigger] step(reached, items[k])) is Err,
    ensures
        fold_until_error(state, items, step) is Err,
{
    lemma_fold_next(state, items, step, k);
    lemma_fold_prefix_error(state, items, step, k + 1);
}

/// What holds at the start and is kept by every step that succeeds holds at the end.
pub proof fn lemma_fold_keeps<S, X>(
    state: S,
    items: Seq<X>,
    step: spec_fn(S, X) -> Result<S, Seq<char>>,
    kept: spec_fn(S) -> bool,
)
    requires
        kept(state),
        forall|reached: S, k: int|
            0 <= k < items.len() && kept(reached) && (#[trigger] step(reached, items[k])) is Ok
                ==> kept(step(reached, items[k])->Ok_0),
    ensures
        fold_until_error(state, items, step) matches Ok(last) ==> kept(last),
    decreases items.len(),
{
    if items.len() > 0 {
        let front = items.drop_last();
        assert forall|reached: S, k: int|
            0 <= k < front.len() && kept(reached) && (#[trigger] step(reached, front[k]))
                is Ok implies kept(step(reached, front[k])->Ok_0) by {
            assert(front[k] == items[k]);
        }
        lemma_fold_keeps(state, front, step, kept);
        assert(items.last() == items[items.len() - 1]);
    }
}

/// A step that changes nothing on any of the items leaves the state as it was.
pub proof fn lemma_fold_idle<S, X>(
    state: S,
    items: Seq<X>,
    step: spec_fn(S, X) -> Result<S, Seq<char>>,
)
    requires
        forall|k: int| 0 <= k < items.len() ==> (#[trigger] step(state, items[k])) == Ok::<
            S,
            Seq<char>,
        >(state),
    ensures
        fold_until_error(state, items, step) == Ok::<S, Seq<char>>(state),
    decreases items.len(),
{
    if items.len() > 0 {
        assert forall|k: int| 0 <= k < items.drop_last().len() implies (#[trigger] step(
            state,
            items.drop_last()[k],
        )) == Ok::<S, Seq<char>>(state) by {
            assert(items.drop_last()[k] == items[k]);
        }
        lemma_fold_idle(state, items.drop_last(), step);
        assert(items.last() == items[items.len() - 1]);
    }
}

} // verus!

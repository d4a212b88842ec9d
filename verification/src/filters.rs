//! Facts about filtering a sequence.

use vstd::prelude::*;

verus! {

/// A filter that every item passes changes nothing.
pub proof fn lemma_filter_all<A>(items: Seq<A>, keep: spec_fn(A) -> bool)
    requires
        forall|i: int| 0 <= i < items.len() ==> keep(#[trigger] items[i]),
    ensures
        items.filter(keep) == items,
    decreases items.len(),
{
    reveal(Seq::filter);
    if items.len() > 0 {
        let head = items.drop_last();
        assert forall|i: int| 0 <= i < head.len() implies keep(#[trigger] head[i]) by {
            assert(head[i] == items[i]);
        }
        lemma_filter_all(head, keep);
        assert(keep(items[items.len() - 1]));
        assert(head.push(items.last()) =~= items);
    }
}

/// A filter that no item passes leaves nothing.
pub proof fn lemma_filter_none<A>(items: Seq<A>, keep: spec_fn(A) -> bool)
    requires
        forall|i: int| 0 <= i < items.len() ==> !keep(#[trigger] items[i]),
    ensures
        items.filter(keep) == Seq::<A>::empty(),
    decreases items.len(),
{
    reveal(Seq::filter);
    if items.len() > 0 {
        let head = items.drop_last();
        assert forall|i: int| 0 <= i < head.len() implies !keep(#[trigger] head[i]) by {
            assert(head[i] == items[i]);
        }
        lemma_filter_none(head, keep);
        assert(!keep(items[items.len() - 1]));
    }
}

/// What a filter lets through was there before.
pub proof fn lemma_filter_within<A>(items: Seq<A>, keep: spec_fn(A) -> bool)
    ensures
        forall|j: int| 0 <= j < items.filter(keep).len() ==> items.contains(#[trigger] items.filter(keep)[j]),
    decreases items.len(),
{
    reveal(Seq::filter);
    if items.len() > 0 {
        let head = items.drop_last();
        lemma_filter_within(head, keep);
        let kept = items.filter(keep);
        assert forall|j: int| 0 <= j < kept.len() implies items.contains(#[trigger] kept[j]) by {
            if j < head.filter(keep).len() {
                assert(kept[j] == head.filter(keep)[j]);
                let i = choose|i: int| 0 <= i < head.len() && head[i] == kept[j];
                assert(items[i] == kept[j]);
            } else {
                assert(items[items.len() - 1] == kept[j]);
            }
        }
    }
}

/// Whether `picked` are, in their order, exactly the items that pass the test: those at the places
/// `at`.
pub open spec fn picks<A>(items: Seq<A>, at: Seq<int>, test: spec_fn(A) -> bool, picked: Seq<A>) -> bool {
    &&& forall|k: int, l: int| 0 <= k < l < at.len() ==> #[trigger] at[k] < #[trigger] at[l]
    &&& forall|k: int| 0 <= k < at.len() ==> 0 <= #[trigger] at[k] < items.len() && test(items[at[k]])
    &&& forall|i: int| 0 <= i < items.len() && test(#[trigger] items[i]) ==> at.contains(i)
    &&& picked.len() == at.len()
    &&& forall|k: int| 0 <= k < at.len() ==> #[trigger] picked[k] == items[at[k]]
}

/// Whether `picked` are, in their order, exactly the items that pass the test.
pub open spec fn picked_from<A>(items: Seq<A>, test: spec_fn(A) -> bool, picked: Seq<A>) -> bool {
    exists|at: Seq<int>| picks(items, at, test, picked)
}

/// A filter picks exactly the items that pass, in their order.
pub proof fn lemma_filter_picks<A>(items: Seq<A>, test: spec_fn(A) -> bool) -> (at: Seq<int>)
    ensures
        picks(items, at, test, items.filter(test)),
        picked_from(items, test, items.filter(test)),
    decreases items.len(),
{
    reveal(Seq::filter);
    if items.len() == 0 {
        let at = Seq::<int>::empty();
        assert(picks(items, at, test, items.filter(test)));
        at
    } else {
        let head = items.drop_last();
        let before = lemma_filter_picks(head, test);
        let last = items.len() - 1;
        let at = if test(items[last]) {
            before.push(last)
        } else {
            before
        };
        assert forall|k: int| 0 <= k < at.len() implies 0 <= #[trigger] at[k] < items.len() && test(items[at[k]]) by {
            if k < before.len() {
                assert(head[before[k]] == items[before[k]]);
            }
        }
        assert forall|i: int| 0 <= i < items.len() && test(#[trigger] items[i]) implies at.contains(i) by {
            if i < last {
                assert(head[i] == items[i]);
                assert(before.contains(i));
                let k = choose|k: int| 0 <= k < before.len() && before[k] == i;
                assert(at[k] == i);
            } else {
                assert(at[before.len() as int] == i);
            }
        }
        assert forall|k: int| 0 <= k < at.len() implies #[trigger] items.filter(test)[k] == items[at[k]] by {
            if k < before.len() {
                assert(head.filter(test)[k] == head[before[k]]);
            }
        }
        assert(picks(items, at, test, items.filter(test)));
        at
    }
}

/// What is picked is as many as the places at which the test is passed.
pub proof fn lemma_picks_count<A>(items: Seq<A>, at: Seq<int>, test: spec_fn(A) -> bool, picked: Seq<A>)
    requires
        picks(items, at, test, picked),
    ensures
        picked.len() == Set::new(|i: int| 0 <= i < items.len() && test(items[i])).len(),
{
    let places = Set::new(|i: int| 0 <= i < items.len() && test(items[i]));
    at.unique_seq_to_set();
    assert forall|i: int| places.contains(i) implies at.to_set().contains(i) by {
        assert(test(items[i]));
        assert(at.contains(i));
    }
    assert forall|i: int| at.to_set().contains(i) implies places.contains(i) by {
        let k = choose|k: int| 0 <= k < at.len() && at[k] == i;
        assert(test(items[at[k]]));
    }
    assert(places =~= at.to_set());
}

} // verus!

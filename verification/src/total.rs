//! Sums over sequences: the weight of a sequence is the sum of the weights
//! of its items, whatever the items are and however they are weighed.
use vstd::prelude::*;

verus! {

/// The sum of the weights of the items of a sequence.
pub open spec fn total<A>(items: Seq<A>, weight: spec_fn(A) -> nat) -> nat
    decreases items.len(),
{
    if items.len() == 0 {
        0
    } else {
        total(items.drop_last(), weight) + weight(items.last())
    }
}

/// One more item adds its weight.
pub proof fn lemma_total_push<A>(items: Seq<A>, weight: spec_fn(A) -> nat, item: A)
    ensures
        total(items.push(item), weight) == total(items, weight) + weight(item),
{
    assert(items.push(item).drop_last() == items);
}

/// Replacing an item replaces its weight.
pub proof fn lemma_total_update<A>(items: Seq<A>, weight: spec_fn(A) -> nat, i: int, item: A)
    requires
        0 <= i < items.len(),
    ensures
        total(items.update(i, item), weight) + weight(items[i]) == total(items, weight) + weight(
            item,
        ),
    decreases items.len(),
{
    if i == items.len() - 1 {
        assert(items.update(i, item).drop_last() == items.drop_last());
    } else {
        lemma_total_update(items.drop_last(), weight, i, item);
        assert(items.update(i, item).drop_last() == items.drop_last().update(i, item));
    }
}

/// Taking the first item away takes its weight away.
pub proof fn lemma_total_drop_first<A>(items: Seq<A>, weight: spec_fn(A) -> nat)
    requires
        items.len() > 0,
    ensures
        total(items.drop_first(), weight) + weight(items[0]) == total(items, weight),
    decreases items.len(),
{
    if items.len() == 1 {
        assert(total(items.drop_first(), weight) == 0);
        assert(total(items.drop_last(), weight) == 0);
        assert(items.last() == items[0]);
    } else {
        lemma_total_drop_first(items.drop_last(), weight);
        assert(items.drop_first().drop_last() == items.drop_last().drop_first());
        assert(items.drop_first().last() == items.last());
        assert(items.drop_last()[0] == items[0]);
    }
}

/// Sequences whose items weigh the same, place by place, weigh the same.
pub proof fn lemma_total_same<A>(a: Seq<A>, b: Seq<A>, weight: spec_fn(A) -> nat)
    requires
        a.len() == b.len(),
        forall|i: int| 0 <= i < a.len() ==> weight(a[i]) == weight(b[i]),
    ensures
        total(a, weight) == total(b, weight),
    decreases a.len(),
{
    if a.len() > 0 {
        lemma_total_same(a.drop_last(), b.drop_last(), weight);
    }
}

/// No item weighs more than the whole sequence.
pub proof fn lemma_total_bounds<A>(items: Seq<A>, weight: spec_fn(A) -> nat, i: int)
    requires
        0 <= i < items.len(),
    ensures
        weight(items[i]) <= total(items, weight),
    decreases items.len(),
{
    if i < items.len() - 1 {
        lemma_total_bounds(items.drop_last(), weight, i);
    }
}

/// A sequence of items that each weigh at most `most` weighs at most
/// `most` times its length.
pub proof fn lemma_total_at_most<A>(items: Seq<A>, weight: spec_fn(A) -> nat, most: nat)
    requires
        forall|i: int| 0 <= i < items.len() ==> weight(items[i]) <= most,
    ensures
        total(items, weight) <= items.len() * most,
    decreases items.len(),
{
    if items.len() > 0 {
        lemma_total_at_most(items.drop_last(), weight, most);
        assert(items.len() * most == (items.len() - 1) * most + most) by (nonlinear_arith);
    } else {
        assert(0 * most == 0);
    }
}


/// A sequence of items without weight weighs nothing.
pub proof fn lemma_total_zero<A>(items: Seq<A>, weight: spec_fn(A) -> nat)
    requires
        forall|i: int| 0 <= i < items.len() ==> weight(items[i]) == 0,
    ensures
        total(items, weight) == 0,
    decreases items.len(),
{
    if items.len() > 0 {
        lemma_total_zero(items.drop_last(), weight);
    }
}

} // verus!

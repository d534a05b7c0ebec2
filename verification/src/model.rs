//! Plain-value models of lists of library values.

use vstd::prelude::*;

verus! {

/// The views of the items of a list, in order.
pub open spec fn views<T: View>(items: Seq<T>) -> Seq<T::V> {
    Seq::new(items.len(), |i: int| items[i]@)
}

/// The views of a list with one more item are those of the list, then the
/// view of the item.
pub proof fn lemma_views_push<T: View>(items: Seq<T>, item: T)
    ensures
        views(items.push(item)) == views(items).push(item@),
{
    assert(views(items.push(item)) =~= views(items).push(item@));
}

/// Replacing one item replaces its view.
pub proof fn lemma_views_update<T: View>(items: Seq<T>, at: int, item: T)
    requires
        0 <= at < items.len(),
    ensures
        views(items.update(at, item)) == views(items).update(at, item@),
{
    assert(views(items.update(at, item)) =~= views(items).update(at, item@));
}

/// The position of the first item that is `wanted`, if there is one.
pub open spec fn first_index<T>(items: Seq<T>, wanted: spec_fn(T) -> bool) -> Option<int>
    decreases items.len(),
{
    if items.len() == 0 {
        None
    } else {
        match first_index(items.drop_last(), wanted) {
            Some(i) => Some(i),
            None => if wanted(items.last()) {
                Some(items.len() - 1)
            } else {
                None
            },
        }
    }
}

/// `first_index` finds a wanted item that no wanted item precedes, and
/// reports `None` only when no item is wanted.
pub proof fn lemma_first_index<T>(items: Seq<T>, wanted: spec_fn(T) -> bool)
    ensures
        match first_index(items, wanted) {
            Some(i) => {
                &&& 0 <= i < items.len()
                &&& wanted(items[i])
                &&& forall|j: int| 0 <= j < i ==> !wanted(#[trigger] items[j])
            },
            None => forall|j: int| 0 <= j < items.len() ==> !wanted(#[trigger] items[j]),
        },
    decreases items.len(),
{
    if items.len() > 0 {
        let front = items.drop_last();
        lemma_first_index(front, wanted);
        match first_index(front, wanted) {
            Some(i) => {
                assert(items[i] == front[i]);
                assert forall|j: int| 0 <= j < i implies !wanted(#[trigger] items[j]) by {
                    assert(front[j] == items[j]);
                }
            },
            None => {
                assert forall|j: int| 0 <= j < front.len() implies !wanted(
                    #[trigger] items[j],
                ) by {
                    assert(front[j] == items[j]);
                }
            },
        }
    }
}

/// A wanted item that no wanted item precedes is the one `first_index`
/// finds.
pub proof fn lemma_first_index_at<T>(items: Seq<T>, wanted: spec_fn(T) -> bool, at: int)
    requires
        0 <= at < items.len(),
        wanted(items[at]),
        forall|j: int| 0 <= j < at ==> !wanted(#[trigger] items[j]),
    ensures
        first_index(items, wanted) == Some(at),
{
    lemma_first_index(items, wanted);
}

/// The sum of the weights of the items.
pub open spec fn total<T>(items: Seq<T>, weight: spec_fn(T) -> nat) -> nat
    decreases items.len(),
{
    if items.len() == 0 {
        0
    } else {
        total(items.drop_last(), weight) + weight(items.last())
    }
}

/// No two items have the same key.
pub open spec fn distinct_keys<T, K>(items: Seq<T>, key: spec_fn(T) -> K) -> bool {
    forall|i: int, j: int|
        0 <= i < j < items.len() ==> key(#[trigger] items[i]) != key(#[trigger] items[j])
}

/// The item at `at` of `items` has the key and the weight of `item`.
pub open spec fn matched<T, K>(
    items: Seq<T>,
    at: int,
    item: T,
    key: spec_fn(T) -> K,
    weight: spec_fn(T) -> nat,
) -> bool {
    &&& 0 <= at < items.len()
    &&& key(items[at]) == key(item)
    &&& weight(items[at]) == weight(item)
}

/// Some item of `items` has the key and the weight of `item`.
pub open spec fn has_match<T, K>(
    items: Seq<T>,
    item: T,
    key: spec_fn(T) -> K,
    weight: spec_fn(T) -> nat,
) -> bool {
    exists|at: int| matched(items, at, item, key, weight)
}

/// Every item of `from` has an item of the same key and weight in `to`.
pub open spec fn covered<T, K>(
    from: Seq<T>,
    to: Seq<T>,
    key: spec_fn(T) -> K,
    weight: spec_fn(T) -> nat,
) -> bool {
    forall|i: int| 0 <= i < from.len() ==> has_match(to, #[trigger] from[i], key, weight)
}

/// Taking one item out lowers the total by its weight.
pub proof fn lemma_total_remove<T>(items: Seq<T>, weight: spec_fn(T) -> nat, at: int)
    requires
        0 <= at < items.len(),
    ensures
        total(items, weight) == total(items.remove(at), weight) + weight(items[at]),
    decreases items.len(),
{
    if at == items.len() - 1 {
        assert(items.remove(at) =~= items.drop_last());
    } else {
        lemma_total_remove(items.drop_last(), weight, at);
        assert(items.remove(at).drop_last() =~= items.drop_last().remove(at));
        assert(items.remove(at).last() == items.last());
    }
}

/// Weights that agree on every item give the same total.
pub proof fn lemma_total_same_weights<T>(
    items: Seq<T>,
    one: spec_fn(T) -> nat,
    other: spec_fn(T) -> nat,
)
    requires
        forall|i: int| 0 <= i < items.len() ==> one(#[trigger] items[i]) == other(items[i]),
    ensures
        total(items, one) == total(items, other),
    decreases items.len(),
{
    if items.len() > 0 {
        let front = items.drop_last();
        assert forall|i: int| 0 <= i < front.len() implies one(#[trigger] front[i]) == other(
            front[i],
        ) by {
            assert(front[i] == items[i]);
        }
        lemma_total_same_weights(front, one, other);
    }
}

/// Two lists with distinct keys that hold items of the same keys and
/// weights have the same total, in whatever order each holds them.
pub proof fn lemma_total_unordered<T, K>(
    left: Seq<T>,
    right: Seq<T>,
    key: spec_fn(T) -> K,
    weight: spec_fn(T) -> nat,
)
    requires
        distinct_keys(left, key),
        distinct_keys(right, key),
        covered(left, right, key, weight),
        covered(right, left, key, weight),
    ensures
        total(left, weight) == total(right, weight),
    decreases left.len(),
{
    if left.len() == 0 {
        if right.len() > 0 {
            assert(has_match(left, right[0], key, weight));
        }
    } else {
        let last = left.len() - 1;
        assert(has_match(right, left[last], key, weight));
        let at = choose|j: int| matched(right, j, left[last], key, weight);
        let front = left.drop_last();
        let rest = right.remove(at);
        assert forall|i: int, j: int| 0 <= i < j < front.len() implies key(#[trigger] front[i])
            != key(#[trigger] front[j]) by {
            assert(front[i] == left[i] && front[j] == left[j]);
        }
        assert forall|i: int, j: int| 0 <= i < j < rest.len() implies key(#[trigger] rest[i])
            != key(#[trigger] rest[j]) by {
            let from_i = if i < at {
                i
            } else {
                i + 1
            };
            let from_j = if j < at {
                j
            } else {
                j + 1
            };
            assert(rest[i] == right[from_i] && rest[j] == right[from_j]);
        }
        assert forall|i: int| 0 <= i < front.len() implies has_match(
            rest,
            #[trigger] front[i],
            key,
            weight,
        ) by {
            assert(front[i] == left[i]);
            assert(has_match(right, left[i], key, weight));
            let j = choose|j: int| matched(right, j, left[i], key, weight);
            assert(key(left[i]) != key(left[last]));
            let to = if j < at {
                j
            } else {
                j - 1
            };
            assert(rest[to] == right[j]);
            assert(matched(rest, to, front[i], key, weight));
        }
        assert forall|j: int| 0 <= j < rest.len() implies has_match(
            front,
            #[trigger] rest[j],
            key,
            weight,
        ) by {
            let from = if j < at {
                j
            } else {
                j + 1
            };
            assert(rest[j] == right[from]);
            assert(key(right[from]) != key(right[at]));
            assert(has_match(left, right[from], key, weight));
            let i = choose|i: int| matched(left, i, right[from], key, weight);
            assert(front[i] == left[i]);
            assert(matched(front, i, rest[j], key, weight));
        }
        lemma_total_unordered(front, rest, key, weight);
        lemma_total_remove(right, weight, at);
    }
}

} // verus!

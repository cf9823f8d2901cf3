use core::cmp::Ordering;
use vstd::prelude::*;
use vstd::std_specs::cmp::PartialOrdSpec;

verus! {

/// `a` is strictly below `b` in the keys' own order.
pub open spec fn key_lt<K: PartialOrd>(a: K, b: K) -> bool {
    a.partial_cmp_spec(&b) == Some(Ordering::Less)
}

/// `a` is strictly above `b` in the keys' own order.
pub open spec fn key_gt<K: PartialOrd>(a: K, b: K) -> bool {
    a.partial_cmp_spec(&b) == Some(Ordering::Greater)
}

/// The order of heap elements: by key, and by identifier where the keys are
/// equal or cannot be compared.
pub open spec fn entry_lt<K: PartialOrd>(key0: K, id0: usize, key1: K, id1: usize) -> bool {
    if key_lt(key0, key1) {
        true
    } else if key_gt(key0, key1) {
        false
    } else {
        id0 < id1
    }
}

/// The first element is not above the second.
pub open spec fn entry_le<K: PartialOrd>(key0: K, id0: usize, key1: K, id1: usize) -> bool {
    !entry_lt(key1, id1, key0, id0)
}

/// Comparing two keys in compiled code gives what `partial_cmp_spec` says of
/// them.
pub open spec fn keys_comparable<K: PartialOrd>() -> bool {
    K::obeys_partial_cmp_spec()
}

/// The keys form a strict weak order: "below" is the mirror image of "above",
/// and "not above" is transitive. Every total order is one; an order with
/// keys that cannot be compared with anything, such as a floating-point
/// NaN, is not.
pub open spec fn keys_weakly_ordered<K: PartialOrd>() -> bool {
    &&& keys_comparable::<K>()
    &&& forall|a: K, b: K| #[trigger] key_lt(a, b) <==> key_gt(b, a)
    &&& forall|a: K, b: K, c: K|
        #![trigger key_gt(a, b), key_gt(b, c)]
        !key_gt(a, b) && !key_gt(b, c) ==> !key_gt(a, c)
}

/// Under a strict weak order of the keys, the element order is reflexive.
pub proof fn lemma_entry_le_reflexive<K: PartialOrd>(key: K, id: usize)
    requires
        keys_weakly_ordered::<K>(),
    ensures
        entry_le(key, id, key, id),
{
    assert(key_lt(key, key) <==> key_gt(key, key));
}

/// Under a strict weak order of the keys, of two elements one is not above
/// the other, and an element strictly below another is not above it.
pub proof fn lemma_entry_lt_asymmetric<K: PartialOrd>(key0: K, id0: usize, key1: K, id1: usize)
    requires
        keys_weakly_ordered::<K>(),
    ensures
        entry_lt(key0, id0, key1, id1) ==> entry_le(key0, id0, key1, id1),
        id0 != id1 ==> (entry_le(key0, id0, key1, id1) <==> entry_lt(key0, id0, key1, id1)),
{
    assert(key_lt(key0, key1) <==> key_gt(key1, key0));
    assert(key_lt(key1, key0) <==> key_gt(key0, key1));
}

/// Under a strict weak order of the keys, the element order is transitive.
pub proof fn lemma_entry_le_transitive<K: PartialOrd>(
    key0: K,
    id0: usize,
    key1: K,
    id1: usize,
    key2: K,
    id2: usize,
)
    requires
        keys_weakly_ordered::<K>(),
        entry_le(key0, id0, key1, id1),
        entry_le(key1, id1, key2, id2),
    ensures
        entry_le(key0, id0, key2, id2),
{
    assert(key_lt(key0, key1) <==> key_gt(key1, key0));
    assert(key_lt(key1, key0) <==> key_gt(key0, key1));
    assert(key_lt(key1, key2) <==> key_gt(key2, key1));
    assert(key_lt(key2, key1) <==> key_gt(key1, key2));
    assert(key_lt(key0, key2) <==> key_gt(key2, key0));
    assert(key_lt(key2, key0) <==> key_gt(key0, key2));
    assert(!key_gt(key0, key1) && !key_gt(key1, key2) ==> !key_gt(key0, key2));
    assert(!key_gt(key2, key0) && !key_gt(key0, key1) ==> !key_gt(key2, key1));
    assert(!key_gt(key1, key2) && !key_gt(key2, key0) ==> !key_gt(key1, key0));
}

/// The order of `u32` is a strict weak order.
pub proof fn lemma_u32_keys_weakly_ordered()
    ensures
        keys_weakly_ordered::<u32>(),
{
}

/// The order of `u64` is a strict weak order.
pub proof fn lemma_u64_keys_weakly_ordered()
    ensures
        keys_weakly_ordered::<u64>(),
{
}

/// The order of `usize` is a strict weak order.
pub proof fn lemma_usize_keys_weakly_ordered()
    ensures
        keys_weakly_ordered::<usize>(),
{
}

/// The order of `i32` is a strict weak order.
pub proof fn lemma_i32_keys_weakly_ordered()
    ensures
        keys_weakly_ordered::<i32>(),
{
}

/// The order of `i64` is a strict weak order.
pub proof fn lemma_i64_keys_weakly_ordered()
    ensures
        keys_weakly_ordered::<i64>(),
{
}

/// The element at position `first` of `order` is strictly below the one at
/// position `second`.
pub open spec fn below<K: PartialOrd, V>(
    items: Map<usize, (K, V)>,
    order: Seq<usize>,
    first: int,
    second: int,
) -> bool {
    entry_lt(items[order[first]].0, order[first], items[order[second]].0, order[second])
}

/// The identifiers at two positions exchanged.
pub open spec fn swapped(order: Seq<usize>, first: int, second: int) -> Seq<usize> {
    order.update(first, order[second]).update(second, order[first])
}

/// Sift-up from position `now`: while the element is strictly below its
/// parent, the two are exchanged. Gives the new order and the position where
/// the element came to rest.
pub open spec fn sift_up<K: PartialOrd, V>(
    items: Map<usize, (K, V)>,
    order: Seq<usize>,
    now: int,
) -> (Seq<usize>, int)
    decreases now,
{
    if 0 < now < order.len() && below(items, order, now, (now - 1) / 2) {
        sift_up(items, swapped(order, now, (now - 1) / 2), (now - 1) / 2)
    } else {
        (order, now)
    }
}

/// The child that a sift-down from `now` looks at: the left one where it is
/// strictly below the right one or has no sibling, else the right one.
pub open spec fn smaller_child<K: PartialOrd, V>(
    items: Map<usize, (K, V)>,
    order: Seq<usize>,
    now: int,
) -> int {
    if 2 * now + 2 < order.len() && !below(items, order, 2 * now + 1, 2 * now + 2) {
        2 * now + 2
    } else {
        2 * now + 1
    }
}

/// Sift-down from position `now`: while the smaller child is strictly below
/// the element, the two are exchanged. Gives the new order.
pub open spec fn sift_down<K: PartialOrd, V>(
    items: Map<usize, (K, V)>,
    order: Seq<usize>,
    now: int,
) -> Seq<usize>
    decreases order.len() - now,
{
    let child = smaller_child(items, order, now);
    if 0 <= now < child < order.len() && below(items, order, child, now) {
        sift_down(items, swapped(order, now, child), child)
    } else {
        order
    }
}

/// Sift-up from position `now`, then sift-down from where the element came
/// to rest.
pub open spec fn heapified<K: PartialOrd, V>(
    items: Map<usize, (K, V)>,
    order: Seq<usize>,
    now: int,
) -> Seq<usize> {
    sift_down(items, sift_up(items, order, now).0, sift_up(items, order, now).1)
}

/// `id` holds the least element of `items`: every other element is strictly
/// above it in the element order.
pub open spec fn least_in<K: PartialOrd, V>(items: Map<usize, (K, V)>, id: usize) -> bool {
    &&& items.contains_key(id)
    &&& forall|other: usize| #[trigger]
        items.contains_key(other) && other != id ==> entry_lt(
            items[id].0,
            id,
            items[other].0,
            other,
        )
}

/// Under a strict weak order of the keys, at most one identifier holds the
/// least element.
pub proof fn lemma_least_is_unique<K: PartialOrd, V>(
    items: Map<usize, (K, V)>,
    id: usize,
    other: usize,
)
    requires
        keys_weakly_ordered::<K>(),
        least_in(items, id),
        least_in(items, other),
    ensures
        id == other,
{
    if id != other {
        lemma_entry_lt_asymmetric(items[id].0, id, items[other].0, other);
    }
}

/// Which identifier holds the least element depends on the keys only: two
/// collections with the same keys under the same identifiers have the same
/// least element.
pub proof fn lemma_least_ignores_values<K: PartialOrd, V>(
    before: Map<usize, (K, V)>,
    after: Map<usize, (K, V)>,
    id: usize,
)
    requires
        before.dom() == after.dom(),
        forall|other: usize| #[trigger]
            before.contains_key(other) ==> before[other].0 == after[other].0,
        least_in(before, id),
    ensures
        least_in(after, id),
{
    assert forall|other: usize|
        #[trigger] after.contains_key(other) && other != id implies entry_lt(
        after[id].0,
        id,
        after[other].0,
        other,
    ) by {
        assert(before.contains_key(other));
        assert(before.contains_key(id));
    }
}

/// Under a strict weak order of the keys, the least element of what is left
/// once the least element is taken does not have a key strictly below the key
/// taken: keys leave in non-decreasing order. Where the two keys are equal,
/// the lower identifier leaves first.
pub proof fn lemma_least_then_next<K: PartialOrd, V>(
    items: Map<usize, (K, V)>,
    first: usize,
    second: usize,
)
    requires
        keys_weakly_ordered::<K>(),
        least_in(items, first),
        least_in(items.remove(first), second),
    ensures
        !key_lt(items[second].0, items[first].0),
        !key_lt(items[first].0, items[second].0) ==> first < second,
{
    assert(items.contains_key(second) && second != first);
    lemma_entry_lt_asymmetric(items[first].0, first, items[second].0, second);
}

} // verus!

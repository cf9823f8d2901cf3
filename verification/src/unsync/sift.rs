use crate::unsync::order::below;
use crate::unsync::order::entry_le;
use crate::unsync::order::entry_lt;
use crate::unsync::order::heapified;
use crate::unsync::order::keys_comparable;
use crate::unsync::order::keys_weakly_ordered;
use crate::unsync::order::least_in;
use crate::unsync::order::lemma_entry_le_reflexive;
use crate::unsync::order::lemma_entry_le_transitive;
use crate::unsync::order::lemma_entry_lt_asymmetric;
use crate::unsync::order::sift_down;
use crate::unsync::order::sift_up;
use crate::unsync::order::swapped;
use crate::unsync::slotmap::SlotMap;
use crate::unsync::state::SlotState;
use crate::util::swap::swap_unchecked;
use vstd::prelude::*;

verus! {

/// An element of the heap: the pair that the caller gave, and the
/// identifier under which the index map knows it.
pub(crate) struct Entry<K, V> {
    pub(crate) item: (K, V),
    pub(crate) id: usize,
}

/// The position above `child` in the heap.
pub(crate) open spec fn parent(child: int) -> int {
    (child - 1) / 2
}

/// The element at position `upper` is not above the one at `lower`.
pub(crate) open spec fn in_order<K: PartialOrd, V>(
    entries: Seq<Entry<K, V>>,
    upper: int,
    lower: int,
) -> bool {
    entry_le(entries[upper].item.0, entries[upper].id, entries[lower].item.0, entries[lower].id)
}

/// Every element is in order with its parent.
pub(crate) open spec fn ordered<K: PartialOrd, V>(entries: Seq<Entry<K, V>>) -> bool {
    forall|child: int|
        0 < child < entries.len() ==> #[trigger] in_order(entries, parent(child), child)
}

/// Every element is in order with its parent, except where `hole` is one of
/// the two; and what is below `hole` is in order with what is above it.
pub(crate) open spec fn ordered_except<K: PartialOrd, V>(
    entries: Seq<Entry<K, V>>,
    hole: int,
) -> bool {
    &&& forall|child: int|
        0 < child < entries.len() && child != hole && parent(child) != hole ==> #[trigger] in_order(
            entries,
            parent(child),
            child,
        )
    &&& forall|child: int|
        0 < hole && 0 < child < entries.len() && parent(child) == hole ==> #[trigger] in_order(
            entries,
            parent(hole),
            child,
        )
}

/// As `ordered_except`, and `hole` is in order with its parent.
pub(crate) open spec fn ordered_above<K: PartialOrd, V>(
    entries: Seq<Entry<K, V>>,
    hole: int,
) -> bool {
    &&& ordered_except(entries, hole)
    &&& 0 < hole < entries.len() ==> in_order(entries, parent(hole), hole)
}

/// Every element but `hole` is in order with its parent, and what is below
/// `hole` is in order with what is above it.
pub(crate) open spec fn ordered_below<K: PartialOrd, V>(
    entries: Seq<Entry<K, V>>,
    hole: int,
) -> bool {
    &&& forall|child: int|
        0 < child < entries.len() && child != hole ==> #[trigger] in_order(
            entries,
            parent(child),
            child,
        )
    &&& forall|child: int|
        0 < hole && 0 < child < entries.len() && parent(child) == hole ==> #[trigger] in_order(
            entries,
            parent(hole),
            child,
        )
}

/// The index map and the entries mirror each other.
pub(crate) open spec fn mirrored<K, V>(
    entries: Seq<Entry<K, V>>,
    index: Map<usize, usize>,
) -> bool {
    &&& forall|p: int|
        0 <= p < entries.len() ==> index.contains_key((#[trigger] entries[p]).id)
            && index[entries[p].id] == p
    &&& forall|id: usize| #[trigger]
        index.contains_key(id) ==> index[id] < entries.len() && entries[index[id] as int].id == id
}

/// The elements by identifier.
pub(crate) open spec fn items_of<K, V>(entries: Seq<Entry<K, V>>, index: Map<usize, usize>) -> Map<
    usize,
    (K, V),
> {
    Map::new(|id: usize| index.contains_key(id), |id: usize| entries[index[id] as int].item)
}

/// The identifiers by position.
pub(crate) open spec fn ids_of<K, V>(entries: Seq<Entry<K, V>>) -> Seq<usize> {
    Seq::new(entries.len(), |p: int| entries[p].id)
}

/// The two states differ at most in the positions recorded for live
/// identifiers.
pub(crate) open spec fn same_ids(before: SlotState<usize>, after: SlotState<usize>) -> bool {
    &&& after.live.dom() == before.live.dom()
    &&& after.free == before.free
    &&& after.reserved == before.reserved
    &&& after.slots == before.slots
}

/// Whether the first entry is strictly below the second.
pub(crate) fn entry_less<K: PartialOrd, V>(
    first: &Entry<K, V>,
    second: &Entry<K, V>,
) -> (below: bool)
    ensures
        keys_comparable::<K>() ==> below == entry_lt(
            first.item.0,
            first.id,
            second.item.0,
            second.id,
        ),
{
    match first.item.0.partial_cmp(&second.item.0) {
        Some(core::cmp::Ordering::Less) => true,
        Some(core::cmp::Ordering::Greater) => false,
        _ => first.id < second.id,
    }
}

/// The parent of `now`, if the element at `now` is strictly below it.
pub(crate) fn next_up<K: PartialOrd, V>(
    entries: &Vec<Entry<K, V>>,
    now: usize,
) -> (up: Option<usize>)
    requires
        now < entries.len(),
    ensures
        up is Some ==> now > 0 && up->Some_0 == parent(now as int),
        keys_comparable::<K>() ==> (up is Some <==> now > 0 && !in_order(
            entries@,
            parent(now as int),
            now as int,
        )),
{
    if now == 0 {
        return None;
    }
    let up = (now - 1) / 2;
    if entry_less(&entries[now], &entries[up]) {
        Some(up)
    } else {
        None
    }
}

/// The child of `now` that a sift-down looks at: the left one where it is
/// strictly below the right one or has no sibling, else the right one.
pub(crate) open spec fn lower_child<K: PartialOrd, V>(entries: Seq<Entry<K, V>>, now: int) -> int {
    let left = 2 * now + 1;
    let right = 2 * now + 2;
    if right < entries.len() && in_order(entries, right, left) {
        right
    } else {
        left
    }
}

/// The position that a sift-down moves to from `now`, if it moves.
pub(crate) open spec fn step_down<K: PartialOrd, V>(
    entries: Seq<Entry<K, V>>,
    now: int,
) -> Option<int> {
    let child = lower_child(entries, now);
    if child < entries.len() && !in_order(entries, now, child) {
        Some(child)
    } else {
        None
    }
}

/// The child of `now` that is strictly below the element at `now`, if there
/// is one: the left child where it is strictly below the right one, or alone.
pub(crate) fn next_down<K: PartialOrd, V>(
    entries: &Vec<Entry<K, V>>,
    now: usize,
) -> (down: Option<usize>)
    requires
        now < entries.len(),
    ensures
        down is Some ==> now < down->Some_0 < entries.len() && (down->Some_0 == 2 * now + 1
            || down->Some_0 == 2 * now + 2),
        keys_comparable::<K>() ==> match down {
            Some(down) => step_down(entries@, now as int) == Some(down as int),
            None => step_down(entries@, now as int) is None,
        },
{
    let len = entries.len();
    if now >= len / 2 {
        return None;
    }
    let left = now * 2 + 1;
    let right = left + 1;
    let now_item = &entries[now];
    let left_item = &entries[left];
    if right < len {
        let right_item = &entries[right];
        if entry_less(left_item, right_item) {
            if entry_less(left_item, now_item) {
                Some(left)
            } else {
                None
            }
        } else {
            if entry_less(right_item, now_item) {
                Some(right)
            } else {
                None
            }
        }
    } else {
        if entry_less(left_item, now_item) {
            Some(left)
        } else {
            None
        }
    }
}

/// The entries with the elements at two positions exchanged.
pub(crate) open spec fn exchanged<K, V>(
    entries: Seq<Entry<K, V>>,
    index0: int,
    index1: int,
) -> Seq<Entry<K, V>> {
    entries.update(index0, entries[index1]).update(index1, entries[index0])
}

/// Being in order is transitive under a strict weak order of the keys.
pub(crate) proof fn lemma_in_order_transitive<K: PartialOrd, V>(
    entries: Seq<Entry<K, V>>,
    a: int,
    b: int,
    c: int,
)
    requires
        keys_weakly_ordered::<K>(),
        in_order(entries, a, b),
        in_order(entries, b, c),
    ensures
        in_order(entries, a, c),
{
    lemma_entry_le_transitive(
        entries[a].item.0,
        entries[a].id,
        entries[b].item.0,
        entries[b].id,
        entries[c].item.0,
        entries[c].id,
    );
}

/// Of two elements of which the first is not in order with the second, the
/// second is in order with the first.
pub(crate) proof fn lemma_strictly_below_in_order<K: PartialOrd, V>(
    entries: Seq<Entry<K, V>>,
    a: int,
    b: int,
)
    requires
        keys_weakly_ordered::<K>(),
        !in_order(entries, a, b),
    ensures
        in_order(entries, b, a),
{
    lemma_entry_lt_asymmetric(entries[b].item.0, entries[b].id, entries[a].item.0, entries[a].id);
}

/// A step of a sift-up moves the hole of `ordered_except` to the parent.
pub(crate) proof fn lemma_sift_up_step<K: PartialOrd, V>(entries: Seq<Entry<K, V>>, hole: int)
    requires
        keys_weakly_ordered::<K>(),
        0 < hole < entries.len(),
        ordered_except(entries, hole),
    ensures
        ordered_except(exchanged(entries, hole, parent(hole)), parent(hole)),
{
    let up = parent(hole);
    let after = exchanged(entries, hole, up);
    assert forall|child: int|
        0 < child < after.len() && child != up && parent(child) != up implies #[trigger] in_order(
        after,
        parent(child),
        child,
    ) by {
        if parent(child) == hole {
            assert(in_order(entries, parent(hole), child));
        } else {
            assert(in_order(entries, parent(child), child));
        }
    }
    assert forall|child: int|
        0 < up && 0 < child < after.len() && parent(child) == up implies #[trigger] in_order(
        after,
        parent(up),
        child,
    ) by {
        assert(in_order(entries, parent(up), up));
        if child != hole {
            assert(in_order(entries, parent(child), child));
            lemma_in_order_transitive(entries, parent(up), up, child);
        }
    }
}

/// A step of a sift-down moves the hole of `ordered_above` to the child.
pub(crate) proof fn lemma_sift_down_step<K: PartialOrd, V>(
    entries: Seq<Entry<K, V>>,
    hole: int,
    down: int,
)
    requires
        keys_weakly_ordered::<K>(),
        0 <= hole < entries.len(),
        ordered_above(entries, hole),
        step_down(entries, hole) == Some(down),
    ensures
        ordered_above(exchanged(entries, hole, down), down),
{
    let after = exchanged(entries, hole, down);
    let left = 2 * hole + 1;
    let right = 2 * hole + 2;
    assert(parent(down) == hole);
    lemma_strictly_below_in_order(entries, hole, down);
    assert forall|child: int|
        0 < child < after.len() && child != down && parent(child) != down implies
        #[trigger] in_order(
        after,
        parent(child),
        child,
    ) by {
        if child == hole {
            assert(in_order(entries, parent(hole), down));
        } else if parent(child) == hole {
            assert(child == left || child == right);
            if down == left {
                lemma_strictly_below_in_order(entries, right, left);
            }
        } else {
            assert(in_order(entries, parent(child), child));
        }
    }
    assert forall|child: int|
        0 < down && 0 < child < after.len() && parent(child) == down implies #[trigger] in_order(
        after,
        parent(down),
        child,
    ) by {
        assert(in_order(entries, parent(child), child));
    }
}

/// Where a sift-down stops, the heap order holds everywhere.
pub(crate) proof fn lemma_sift_down_stop<K: PartialOrd, V>(entries: Seq<Entry<K, V>>, hole: int)
    requires
        keys_weakly_ordered::<K>(),
        0 <= hole < entries.len(),
        ordered_above(entries, hole),
        step_down(entries, hole) is None,
    ensures
        ordered(entries),
{
    let left = 2 * hole + 1;
    let right = 2 * hole + 2;
    let down = lower_child(entries, hole);
    assert forall|child: int| 0 < child < entries.len() implies #[trigger] in_order(
        entries,
        parent(child),
        child,
    ) by {
        if parent(child) == hole {
            assert(child == left || child == right);
            if child != down {
                if down == left {
                    lemma_strictly_below_in_order(entries, right, left);
                }
                lemma_in_order_transitive(entries, hole, down, child);
            }
        } else if child != hole {
            assert(in_order(entries, parent(child), child));
        }
    }
}

/// A heap is in order around any hole.
pub(crate) proof fn lemma_ordered_above_anywhere<K: PartialOrd, V>(
    entries: Seq<Entry<K, V>>,
    hole: int,
)
    requires
        keys_weakly_ordered::<K>(),
        ordered(entries),
        0 <= hole < entries.len(),
    ensures
        ordered_above(entries, hole),
{
    assert forall|child: int|
        0 < hole && 0 < child < entries.len() && parent(child) == hole implies #[trigger] in_order(
        entries,
        parent(hole),
        child,
    ) by {
        assert(in_order(entries, parent(hole), hole));
        assert(in_order(entries, parent(child), child));
        lemma_in_order_transitive(entries, parent(hole), hole, child);
    }
}

/// What is at the hole does not matter to `ordered_except`.
pub(crate) proof fn lemma_except_ignores_hole<K: PartialOrd, V>(
    before: Seq<Entry<K, V>>,
    after: Seq<Entry<K, V>>,
    hole: int,
)
    requires
        ordered_except(before, hole),
        after.len() <= before.len(),
        forall|p: int| 0 <= p < after.len() && p != hole ==> after[p] == before[p],
    ensures
        ordered_except(after, hole),
{
    assert forall|child: int|
        0 < child < after.len() && child != hole && parent(child) != hole implies
        #[trigger] in_order(
        after,
        parent(child),
        child,
    ) by {
        assert(in_order(before, parent(child), child));
    }
    assert forall|child: int|
        0 < hole && 0 < child < after.len() && parent(child) == hole implies #[trigger] in_order(
        after,
        parent(hole),
        child,
    ) by {
        assert(in_order(before, parent(hole), child));
    }
}

/// In a heap the root is in order with every element.
pub(crate) proof fn lemma_root_not_above<K: PartialOrd, V>(entries: Seq<Entry<K, V>>, p: int)
    requires
        keys_weakly_ordered::<K>(),
        ordered(entries),
        0 <= p < entries.len(),
    ensures
        in_order(entries, 0, p),
    decreases p,
{
    if p == 0 {
        lemma_entry_le_reflexive(entries[0].item.0, entries[0].id);
    } else {
        lemma_root_not_above(entries, parent(p));
        assert(in_order(entries, parent(p), p));
        lemma_in_order_transitive(entries, 0, parent(p), p);
    }
}

/// In a heap the root holds the least element.
pub(crate) proof fn lemma_root_least<K: PartialOrd, V>(
    entries: Seq<Entry<K, V>>,
    index: Map<usize, usize>,
)
    requires
        keys_weakly_ordered::<K>(),
        ordered(entries),
        mirrored(entries, index),
        entries.len() > 0,
    ensures
        least_in(items_of(entries, index), entries[0].id),
{
    let items = items_of(entries, index);
    let root = entries[0].id;
    assert forall|other: usize|
        #[trigger] items.contains_key(other) && other != root implies entry_lt(
        items[root].0,
        root,
        items[other].0,
        other,
    ) by {
        let p = index[other] as int;
        lemma_root_not_above(entries, p);
        lemma_entry_lt_asymmetric(entries[0].item.0, root, entries[p].item.0, other);
    }
}

/// A step of a sift-up moves the hole of `ordered_below` to the parent.
pub(crate) proof fn lemma_sift_up_step_below<K: PartialOrd, V>(entries: Seq<Entry<K, V>>, hole: int)
    requires
        keys_weakly_ordered::<K>(),
        0 < hole < entries.len(),
        ordered_below(entries, hole),
        !in_order(entries, parent(hole), hole),
    ensures
        ordered_below(exchanged(entries, hole, parent(hole)), parent(hole)),
{
    let up = parent(hole);
    let after = exchanged(entries, hole, up);
    lemma_strictly_below_in_order(entries, up, hole);
    assert forall|child: int| 0 < child < after.len() && child != up implies #[trigger] in_order(
        after,
        parent(child),
        child,
    ) by {
        if child == hole {
        } else if parent(child) == hole {
            assert(in_order(entries, parent(hole), child));
        } else if parent(child) == up {
            assert(in_order(entries, parent(child), child));
            lemma_in_order_transitive(entries, hole, up, child);
        } else {
            assert(in_order(entries, parent(child), child));
        }
    }
    assert forall|child: int|
        0 < up && 0 < child < after.len() && parent(child) == up implies #[trigger] in_order(
        after,
        parent(up),
        child,
    ) by {
        assert(in_order(entries, parent(up), up));
        if child != hole {
            assert(in_order(entries, parent(child), child));
            lemma_in_order_transitive(entries, parent(up), up, child);
        }
    }
}

/// A heap with an element appended is in order but for that element.
pub(crate) proof fn lemma_pushed_ordered_below<K: PartialOrd, V>(
    entries: Seq<Entry<K, V>>,
    entry: Entry<K, V>,
)
    requires
        ordered(entries),
    ensures
        ordered_below(entries.push(entry), entries.len() as int),
{
    let after = entries.push(entry);
    assert forall|child: int|
        0 < child < after.len() && child != entries.len() implies #[trigger] in_order(
        after,
        parent(child),
        child,
    ) by {
        assert(in_order(entries, parent(child), child));
    }
}

/// With the element at the hole replaced by the last one, or dropped where
/// it is the last one, what was in order around the hole still is.
pub(crate) proof fn lemma_removed_ordered_except<K: PartialOrd, V>(
    entries: Seq<Entry<K, V>>,
    hole: int,
)
    requires
        0 <= hole < entries.len(),
        ordered_except(entries, hole),
    ensures
        hole < entries.len() - 1 ==> ordered_except(
            entries.update(hole, entries.last()).drop_last(),
            hole,
        ),
        hole == entries.len() - 1 ==> ordered(entries.drop_last()),
{
    if hole < entries.len() - 1 {
        lemma_except_ignores_hole(entries, entries.update(hole, entries.last()).drop_last(), hole);
    } else {
        let after = entries.drop_last();
        assert forall|child: int| 0 < child < after.len() implies #[trigger] in_order(
            after,
            parent(child),
            child,
        ) by {
            assert(in_order(entries, parent(child), child));
        }
    }
}

/// What the order of the identifiers says of two positions is what the
/// entries say.
pub(crate) proof fn lemma_below<K: PartialOrd, V>(
    entries: Seq<Entry<K, V>>,
    index: Map<usize, usize>,
    first: int,
    second: int,
)
    requires
        mirrored(entries, index),
        0 <= first < entries.len(),
        0 <= second < entries.len(),
    ensures
        below(items_of(entries, index), ids_of(entries), first, second) == !in_order(
            entries,
            second,
            first,
        ),
{
    assert(index[entries[first].id] == first);
    assert(index[entries[second].id] == second);
}

/// The step that a sift-down takes on the entries is the step that it takes
/// on the order of the identifiers.
pub(crate) proof fn lemma_step_down<K: PartialOrd, V>(
    entries: Seq<Entry<K, V>>,
    index: Map<usize, usize>,
    now: int,
)
    requires
        mirrored(entries, index),
        0 <= now < entries.len(),
    ensures
        lower_child(entries, now) == crate::unsync::order::smaller_child(
            items_of(entries, index),
            ids_of(entries),
            now,
        ),
        step_down(entries, now) is Some ==> below(
            items_of(entries, index),
            ids_of(entries),
            lower_child(entries, now),
            now,
        ),
        step_down(entries, now) is None ==> sift_down(
            items_of(entries, index),
            ids_of(entries),
            now,
        ) == ids_of(entries),
{
    let left = 2 * now + 1;
    let right = 2 * now + 2;
    if right < entries.len() {
        lemma_below(entries, index, left, right);
    }
    let child = lower_child(entries, now);
    if child < entries.len() {
        lemma_below(entries, index, child, now);
    }
}

/// Exchanges the entries at two positions and records the new positions in
/// the index map.
pub(crate) fn swap_entries<K, V>(
    entries: &mut Vec<Entry<K, V>>,
    indices: &mut SlotMap<usize>,
    index0: usize,
    index1: usize,
)
    requires
        mirrored(old(entries)@, old(indices)@),
        index0 < old(entries).len(),
        index1 < old(entries).len(),
        index0 != index1,
    ensures
        final(entries)@ == exchanged(old(entries)@, index0 as int, index1 as int),
        mirrored(final(entries)@, final(indices)@),
        same_ids(old(indices).state(), final(indices).state()),
        items_of(final(entries)@, final(indices)@) == items_of(old(entries)@, old(indices)@),
        ids_of(final(entries)@) == swapped(ids_of(old(entries)@), index0 as int, index1 as int),
{
    let ghost before = entries@;
    let ghost index_before = indices@;
    swap_unchecked(entries, index0, index1);
    let id0 = entries[index0].id;
    let id1 = entries[index1].id;
    assert(before[index1 as int].id == id0);
    assert(before[index0 as int].id == id1);
    *indices.get_unchecked_mut(id0) = index0;
    *indices.get_unchecked_mut(id1) = index1;
    proof {
        assert(indices@ == index_before.insert(id0, index0).insert(id1, index1));
        assert(indices@.dom() =~= index_before.dom());
        assert forall|p: int| 0 <= p < entries@.len() implies indices@.contains_key(
            (#[trigger] entries@[p]).id,
        ) && indices@[entries@[p].id] == p by {
            if p != index0 && p != index1 {
                assert(entries@[p] == before[p]);
            }
        }
        assert(items_of(entries@, indices@) =~= items_of(before, index_before));
        assert(ids_of(entries@) =~= swapped(ids_of(before), index0 as int, index1 as int));
    }
}

/// Sifts the element at `now` up while it is strictly below its parent, and
/// returns where it came to rest.
pub(crate) fn heapify_up<K: PartialOrd, V>(
    entries: &mut Vec<Entry<K, V>>,
    indices: &mut SlotMap<usize>,
    now: usize,
) -> (end: usize)
    requires
        mirrored(old(entries)@, old(indices)@),
        now < old(entries).len(),
    ensures
        mirrored(final(entries)@, final(indices)@),
        final(entries).len() == old(entries).len(),
        same_ids(old(indices).state(), final(indices).state()),
        items_of(final(entries)@, final(indices)@) == items_of(old(entries)@, old(indices)@),
        end < final(entries).len(),
        keys_weakly_ordered::<K>() && ordered_except(old(entries)@, now as int) ==> ordered_above(
            final(entries)@,
            end as int,
        ),
        keys_weakly_ordered::<K>() && ordered_below(old(entries)@, now as int) ==> ordered(
            final(entries)@,
        ),
        keys_comparable::<K>() ==> (ids_of(final(entries)@), end as int) == sift_up(
            items_of(old(entries)@, old(indices)@),
            ids_of(old(entries)@),
            now as int,
        ),
{
    let ghost before = entries@;
    let ghost state_before = indices.state();
    let ghost index_before = indices@;
    let ghost start = now;
    let ghost items = items_of(before, index_before);
    let mut now = now;
    let mut up = next_up(entries, now);
    proof {
        if now > 0 {
            lemma_below(entries@, indices@, now as int, parent(now as int));
        }
    }
    while up.is_some()
        invariant
            mirrored(entries@, indices@),
            entries.len() == before.len(),
            same_ids(state_before, indices.state()),
            items_of(entries@, indices@) == items_of(before, index_before),
            now < entries.len(),
            up is Some ==> now > 0 && up->Some_0 == parent(now as int),
            keys_comparable::<K>() ==> (up is Some <==> now > 0 && !in_order(
                entries@,
                parent(now as int),
                now as int,
            )),
            keys_weakly_ordered::<K>() && ordered_except(before, start as int) ==> ordered_except(
                entries@,
                now as int,
            ),
            keys_weakly_ordered::<K>() && ordered_below(before, start as int) ==> ordered_below(
                entries@,
                now as int,
            ),
            items == items_of(before, index_before),
            now > 0 ==> below(items, ids_of(entries@), now as int, parent(now as int))
                == !in_order(entries@, parent(now as int), now as int),
            keys_comparable::<K>() ==> sift_up(items, ids_of(entries@), now as int) == sift_up(
                items,
                ids_of(before),
                start as int,
            ),
        decreases now,
    {
        let target = up.unwrap();
        proof {
            if keys_weakly_ordered::<K>() {
                if ordered_except(entries@, now as int) {
                    lemma_sift_up_step(entries@, now as int);
                }
                if ordered_below(entries@, now as int) {
                    lemma_sift_up_step_below(entries@, now as int);
                }
            }
        }
        swap_entries(entries, indices, now, target);
        now = target;
        up = next_up(entries, now);
        proof {
            if now > 0 {
                lemma_below(entries@, indices@, now as int, parent(now as int));
            }
        }
    }
    now
}

/// Sifts the element at `now` down while one of its children is strictly
/// below it.
pub(crate) fn heapify_down<K: PartialOrd, V>(
    entries: &mut Vec<Entry<K, V>>,
    indices: &mut SlotMap<usize>,
    now: usize,
)
    requires
        mirrored(old(entries)@, old(indices)@),
        now < old(entries).len(),
    ensures
        mirrored(final(entries)@, final(indices)@),
        final(entries).len() == old(entries).len(),
        same_ids(old(indices).state(), final(indices).state()),
        items_of(final(entries)@, final(indices)@) == items_of(old(entries)@, old(indices)@),
        keys_weakly_ordered::<K>() && ordered_above(old(entries)@, now as int) ==> ordered(
            final(entries)@,
        ),
        keys_comparable::<K>() ==> ids_of(final(entries)@) == sift_down(
            items_of(old(entries)@, old(indices)@),
            ids_of(old(entries)@),
            now as int,
        ),
{
    let ghost before = entries@;
    let ghost state_before = indices.state();
    let ghost index_before = indices@;
    let ghost start = now;
    let ghost items = items_of(before, index_before);
    let mut now = now;
    let mut down = next_down(entries, now);
    while down.is_some()
        invariant
            mirrored(entries@, indices@),
            entries.len() == before.len(),
            same_ids(state_before, indices.state()),
            items_of(entries@, indices@) == items_of(before, index_before),
            now < entries.len(),
            down is Some ==> now < down->Some_0 < entries.len(),
            keys_comparable::<K>() ==> match down {
                Some(down) => step_down(entries@, now as int) == Some(down as int),
                None => step_down(entries@, now as int) is None,
            },
            keys_weakly_ordered::<K>() && ordered_above(before, start as int) ==> ordered_above(
                entries@,
                now as int,
            ),
            items == items_of(before, index_before),
            keys_comparable::<K>() ==> sift_down(items, ids_of(entries@), now as int)
                == sift_down(items, ids_of(before), start as int),
        decreases entries.len() - now,
    {
        let target = down.unwrap();
        proof {
            lemma_step_down(entries@, indices@, now as int);
            if keys_weakly_ordered::<K>() && ordered_above(entries@, now as int) {
                lemma_sift_down_step(entries@, now as int, target as int);
            }
        }
        swap_entries(entries, indices, now, target);
        now = target;
        down = next_down(entries, now);
    }
    proof {
        lemma_step_down(entries@, indices@, now as int);
        if keys_weakly_ordered::<K>() && ordered_above(entries@, now as int) {
            lemma_sift_down_stop(entries@, now as int);
        }
    }
}

/// Sifts the element at `now` up, then down from where it came to rest.
pub(crate) fn heapify<K: PartialOrd, V>(
    entries: &mut Vec<Entry<K, V>>,
    indices: &mut SlotMap<usize>,
    now: usize,
)
    requires
        mirrored(old(entries)@, old(indices)@),
        now < old(entries).len(),
    ensures
        mirrored(final(entries)@, final(indices)@),
        final(entries).len() == old(entries).len(),
        same_ids(old(indices).state(), final(indices).state()),
        items_of(final(entries)@, final(indices)@) == items_of(old(entries)@, old(indices)@),
        keys_weakly_ordered::<K>() && ordered_except(old(entries)@, now as int) ==> ordered(
            final(entries)@,
        ),
        keys_comparable::<K>() ==> ids_of(final(entries)@) == heapified(
            items_of(old(entries)@, old(indices)@),
            ids_of(old(entries)@),
            now as int,
        ),
{
    let end = heapify_up(entries, indices, now);
    heapify_down(entries, indices, end)
}

/// The heap order looks at keys and identifiers only.
pub(crate) proof fn lemma_order_reads_keys<K: PartialOrd, V>(
    before: Seq<Entry<K, V>>,
    after: Seq<Entry<K, V>>,
)
    requires
        after.len() == before.len(),
        forall|p: int|
            0 <= p < before.len() ==> (#[trigger] after[p]).id == before[p].id && after[p].item.0
                == before[p].item.0,
    ensures
        ordered(after) == ordered(before),
        forall|hole: int| #[trigger] ordered_except(after, hole) == ordered_except(before, hole),
        forall|hole: int| #[trigger] ordered_above(after, hole) == ordered_above(before, hole),
{
    assert forall|upper: int, lower: int|
        0 <= upper < before.len() && 0 <= lower < before.len() implies #[trigger] in_order(
        after,
        upper,
        lower,
    ) == in_order(before, upper, lower) by {
        assert(after[upper].id == before[upper].id);
        assert(after[lower].id == before[lower].id);
    }
    assert(ordered(after) == ordered(before)) by {
        if ordered(before) {
            assert forall|child: int| 0 < child < after.len() implies #[trigger] in_order(
                after,
                parent(child),
                child,
            ) by {
                assert(in_order(before, parent(child), child));
            }
        }
        if ordered(after) {
            assert forall|child: int| 0 < child < before.len() implies #[trigger] in_order(
                before,
                parent(child),
                child,
            ) by {
                assert(in_order(after, parent(child), child));
            }
        }
    }
    assert forall|hole: int| #[trigger] ordered_except(after, hole) == ordered_except(
        before,
        hole,
    ) by {
        if ordered_except(before, hole) {
            lemma_order_reads_keys_except(before, after, hole);
        }
        if ordered_except(after, hole) {
            lemma_order_reads_keys_except(after, before, hole);
        }
    }
    assert forall|hole: int| #[trigger] ordered_above(after, hole) == ordered_above(
        before,
        hole,
    ) by {
        if ordered_except(before, hole) {
            lemma_order_reads_keys_except(before, after, hole);
        }
        if ordered_except(after, hole) {
            lemma_order_reads_keys_except(after, before, hole);
        }
        if 0 < hole < before.len() {
            assert(in_order(after, parent(hole), hole) == in_order(before, parent(hole), hole));
        }
    }
}

/// `ordered_except` looks at keys and identifiers only.
pub(crate) proof fn lemma_order_reads_keys_except<K: PartialOrd, V>(
    before: Seq<Entry<K, V>>,
    after: Seq<Entry<K, V>>,
    hole: int,
)
    requires
        after.len() == before.len(),
        forall|p: int|
            0 <= p < before.len() ==> (#[trigger] after[p]).id == before[p].id && after[p].item.0
                == before[p].item.0,
        ordered_except(before, hole),
    ensures
        ordered_except(after, hole),
{
    assert forall|child: int|
        0 < child < after.len() && child != hole && parent(child) != hole implies
        #[trigger] in_order(
        after,
        parent(child),
        child,
    ) by {
        assert(in_order(before, parent(child), child));
        assert(after[child].id == before[child].id);
        assert(after[parent(child)].id == before[parent(child)].id);
    }
    assert forall|child: int|
        0 < hole && 0 < child < after.len() && parent(child) == hole implies #[trigger] in_order(
        after,
        parent(hole),
        child,
    ) by {
        assert(in_order(before, parent(hole), child));
        assert(after[child].id == before[child].id);
        assert(after[parent(hole)].id == before[parent(hole)].id);
    }
}

/// The entries with the element at `index` replaced by `item`, under the
/// identifier that was there.
pub(crate) open spec fn with_item<K, V>(
    entries: Seq<Entry<K, V>>,
    index: int,
    item: (K, V),
) -> Seq<Entry<K, V>> {
    entries.update(index, Entry { item, id: entries[index].id })
}

/// What replacing the element at a position keeps.
pub(crate) proof fn lemma_with_item<K: PartialOrd, V>(
    entries: Seq<Entry<K, V>>,
    index: Map<usize, usize>,
    at: int,
    item: (K, V),
)
    requires
        mirrored(entries, index),
        0 <= at < entries.len(),
    ensures
        mirrored(with_item(entries, at, item), index),
        items_of(with_item(entries, at, item), index) == items_of(entries, index).insert(
            entries[at].id,
            item,
        ),
        ids_of(with_item(entries, at, item)) == ids_of(entries),
        ordered_except(entries, at) ==> ordered_except(with_item(entries, at, item), at),
        item.0 == entries[at].item.0 ==> {
            &&& ordered(with_item(entries, at, item)) == ordered(entries)
            &&& forall|hole: int| #[trigger]
                ordered_except(with_item(entries, at, item), hole) == ordered_except(entries, hole)
            &&& forall|hole: int| #[trigger]
                ordered_above(with_item(entries, at, item), hole) == ordered_above(entries, hole)
        },
{
    let after = with_item(entries, at, item);
    assert forall|p: int| 0 <= p < after.len() implies index.contains_key((#[trigger] after[p]).id)
        && index[after[p].id] == p by {
        assert(after[p].id == entries[p].id);
    }
    assert forall|id: usize| #[trigger] index.contains_key(id) implies index[id] < after.len()
        && after[index[id] as int].id == id by {
        assert(after[index[id] as int].id == entries[index[id] as int].id);
    }
    assert(items_of(after, index) =~= items_of(entries, index).insert(entries[at].id, item)) by {
        assert forall|id: usize|
            index.contains_key(id) implies #[trigger] items_of(after, index)[id]
            == items_of(entries, index).insert(entries[at].id, item)[id] by {
            if id != entries[at].id {
                assert(index[id] != at);
            }
        }
    }
    assert(ids_of(after) =~= ids_of(entries));
    if ordered_except(entries, at) {
        lemma_except_ignores_hole(entries, after, at);
    }
    if item.0 == entries[at].item.0 {
        lemma_order_reads_keys(entries, after);
    }
}

/// An exclusive reference to the element at `index`.
pub(crate) fn entry_item_mut<K, V>(
    entries: &mut Vec<Entry<K, V>>,
    index: usize,
) -> (item: &mut (K, V))
    requires
        index < old(entries).len(),
    ensures
        *item == old(entries)[index as int].item,
        final(entries)@ == with_item(old(entries)@, index as int, *final(item)),
    no_unwind
{
    &mut entries[index].item
}

/// An exclusive reference to the value of the element at `index`.
pub(crate) fn entry_value_mut<K, V>(entries: &mut Vec<Entry<K, V>>, index: usize) -> (value: &mut V)
    requires
        index < old(entries).len(),
    ensures
        *value == old(entries)[index as int].item.1,
        final(entries)@ == with_item(
            old(entries)@,
            index as int,
            (old(entries)[index as int].item.0, *final(value)),
        ),
    no_unwind
{
    &mut entries[index].item.1
}

/// The identifiers by position are the live identifiers, each once.
pub(crate) proof fn lemma_ids_of_mirrored<K, V>(entries: Seq<Entry<K, V>>, index: Map<usize, usize>)
    requires
        mirrored(entries, index),
    ensures
        ids_of(entries).no_duplicates(),
        forall|id: usize| index.contains_key(id) <==> ids_of(entries).contains(id),
{
    let ids = ids_of(entries);
    assert forall|i: int, j: int| 0 <= i < ids.len() && 0 <= j < ids.len() && i != j implies ids[i]
        != ids[j] by {
        assert(index[entries[i].id] == i);
        assert(index[entries[j].id] == j);
    }
    assert forall|id: usize| index.contains_key(id) <==> ids.contains(id) by {
        if index.contains_key(id) {
            assert(ids[index[id] as int] == id);
        }
        if ids.contains(id) {
            let p = choose|p: int| 0 <= p < ids.len() && ids[p] == id;
            assert(entries[p].id == id);
        }
    }
}

} // verus!

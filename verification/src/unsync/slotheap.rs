use crate::unsync::order::heapified;
use crate::unsync::order::key_lt;
use crate::unsync::order::keys_comparable;
use crate::unsync::order::keys_weakly_ordered;
use crate::unsync::order::least_in;
use crate::unsync::order::lemma_least_ignores_values;
use crate::unsync::order::lemma_least_then_next;
use crate::unsync::order::sift_down;
use crate::unsync::order::sift_up;
use crate::unsync::sift::Entry;
use crate::unsync::sift::entry_item_mut;
use crate::unsync::sift::entry_value_mut;
use crate::unsync::sift::heapify;
use crate::unsync::sift::heapify_down;
use crate::unsync::sift::heapify_up;
use crate::unsync::sift::ids_of;
use crate::unsync::sift::items_of;
use crate::unsync::sift::lemma_ids_of_mirrored;
use crate::unsync::sift::lemma_ordered_above_anywhere;
use crate::unsync::sift::lemma_pushed_ordered_below;
use crate::unsync::sift::lemma_removed_ordered_except;
use crate::unsync::sift::lemma_root_least;
use crate::unsync::sift::lemma_with_item;
use crate::unsync::sift::mirrored;
use crate::unsync::sift::ordered;
use crate::unsync::sift::ordered_above;
use crate::unsync::sift::ordered_except;
use crate::unsync::sift::parent;
use crate::unsync::sift::with_item;
use crate::unsync::slotmap::SlotMap;
use crate::util::swap::swap_remove_unchecked;
use vstd::prelude::*;

verus! {

/// How many elements of `items` have the key `key`.
pub open spec fn key_count<K, V>(items: Map<usize, (K, V)>, key: K) -> nat {
    items.dom().filter(|id: usize| items[id].0 == key).len()
}

/// An element that comes in under a new identifier makes its key one more
/// frequent and leaves the other keys as frequent as they were.
pub proof fn lemma_key_count_insert<K, V>(
    items: Map<usize, (K, V)>,
    id: usize,
    item: (K, V),
    key: K,
)
    requires
        items.dom().finite(),
        !items.contains_key(id),
    ensures
        key_count(items.insert(id, item), key) == key_count(items, key) + (if key == item.0 {
            1nat
        } else {
            0
        }),
{
    let after = items.insert(id, item);
    let before_ids = items.dom().filter(|id: usize| items[id].0 == key);
    let after_ids = after.dom().filter(|id: usize| after[id].0 == key);
    items.dom().lemma_len_filter(|id: usize| items[id].0 == key);
    if key == item.0 {
        assert(after_ids =~= before_ids.insert(id));
    } else {
        assert(after_ids =~= before_ids);
    }
}

/// An element that leaves makes its key one less frequent and leaves the
/// other keys as frequent as they were.
pub proof fn lemma_key_count_remove<K, V>(items: Map<usize, (K, V)>, id: usize, key: K)
    requires
        items.dom().finite(),
        items.contains_key(id),
    ensures
        key_count(items.remove(id), key) == key_count(items, key) - (if key == items[id].0 {
            1nat
        } else {
            0
        }),
{
    let after = items.remove(id);
    let before_ids = items.dom().filter(|id: usize| items[id].0 == key);
    let after_ids = after.dom().filter(|id: usize| after[id].0 == key);
    items.dom().lemma_len_filter(|id: usize| items[id].0 == key);
    if key == items[id].0 {
        assert(after_ids =~= before_ids.remove(id));
    } else {
        assert(after_ids =~= before_ids);
    }
}

/// Single-threaded min-heap with stable, reusable identifiers.
///
/// `entries` is a binary heap on the keys; `indices` maps each identifier to
/// the position of its element in `entries`.
pub struct SlotHeap<K, V> {
    entries: Vec<Entry<K, V>>,
    indices: SlotMap<usize>,
}

impl<K, V> SlotHeap<K, V> {
    /// What holds of every slot heap at all times: the index map and the
    /// entries mirror each other. The heap order is not part of it, since a
    /// guard that lends a key out suspends it: see `is_heap`.
    #[verifier::type_invariant]
    pub closed spec fn well_formed(&self) -> bool {
        &&& mirrored(self.entries@, self.indices@)
        &&& self.indices@.dom().finite()
        &&& self.indices@.dom().len() == self.entries.len()
    }

    /// The elements, by identifier.
    pub closed spec fn view(&self) -> Map<usize, (K, V)> {
        items_of(self.entries@, self.indices@)
    }

    /// The identifiers by position in the heap, the root first.
    pub closed spec fn order(&self) -> Seq<usize> {
        ids_of(self.entries@)
    }

    /// The identifiers waiting to be used again, the next one first.
    pub closed spec fn free_list(&self) -> Seq<usize> {
        self.indices.state().free
    }

    /// How many identifiers have been allocated since the heap was last
    /// reset.
    pub closed spec fn slots(&self) -> nat {
        self.indices.state().slots
    }

    /// The identifier that the next insert returns.
    pub open spec fn next_id(&self) -> usize {
        if self.free_list().len() > 0 {
            self.free_list()[0]
        } else {
            self.slots() as usize
        }
    }

    /// The position of `id` in the heap.
    pub open spec fn position(&self, id: usize) -> int {
        self.order().index_of(id)
    }

    /// The position of a live identifier is where the order has it.
    pub proof fn lemma_position(&self, id: usize)
        requires
            self.well_formed(),
            self@.contains_key(id),
        ensures
            0 <= self.position(id) < self.order().len(),
            self.order()[self.position(id)] == id,
            forall|at: int|
                0 <= at < self.order().len() && self.order()[at] == id ==> at == self.position(id),
    {
        self.lemma_position_is_index(id);
        lemma_ids_of_mirrored(self.entries@, self.indices@);
    }

    /// The position of a live identifier is what the index map records.
    proof fn lemma_position_is_index(&self, id: usize)
        requires
            self.well_formed(),
            self@.contains_key(id),
        ensures
            0 <= self.position(id) < self.order().len(),
            self.order()[self.position(id)] == id,
            self.position(id) == self.indices@[id],
    {
        lemma_ids_of_mirrored(self.entries@, self.indices@);
        let at = self.indices@[id] as int;
        assert(self.order()[at] == id);
        assert(self.order().contains(id));
        let found = self.order().index_of(id);
        assert(0 <= found < self.order().len() && self.order()[found] == id);
    }

    /// The positions hold the live identifiers, each once.
    pub proof fn lemma_order(&self)
        requires
            self.well_formed(),
        ensures
            self.order().no_duplicates(),
            self.order().len() == self@.len(),
            self@.dom().finite(),
            forall|id: usize| self@.contains_key(id) <==> self.order().contains(id),
    {
        lemma_ids_of_mirrored(self.entries@, self.indices@);
        assert(self@.dom() =~= self.indices@.dom());
    }
}

impl<K, V> SlotHeap<K, V> where K: PartialOrd {
    /// No element is strictly below its parent.
    pub closed spec fn is_heap(&self) -> bool {
        ordered(self.entries@)
    }

    /// The heap order holds between all elements other than `id`, and the
    /// children of `id` are in order with its parent. This is what is left of
    /// `is_heap` when the key of `id` is replaced by any other.
    pub closed spec fn is_heap_except(&self, id: usize) -> bool {
        &&& self.indices@.contains_key(id)
        &&& ordered_except(self.entries@, self.indices@[id] as int)
    }

    /// As `is_heap_except`, and `id` is in order with its parent: only the
    /// children of `id` may be strictly below it.
    pub closed spec fn is_heap_above(&self, id: usize) -> bool {
        &&& self.indices@.contains_key(id)
        &&& ordered_above(self.entries@, self.indices@[id] as int)
    }

    /// In a heap under a strict weak order of the keys, the root holds the
    /// least element.
    pub proof fn lemma_root_is_least(&self)
        requires
            self.well_formed(),
            keys_weakly_ordered::<K>(),
            self.is_heap(),
            self.order().len() > 0,
        ensures
            least_in(self@, self.order()[0]),
    {
        lemma_root_least(self.entries@, self.indices@);
    }

    /// A heap under a strict weak order of the keys stays one, but for `id`,
    /// whatever becomes of the key of `id`.
    pub proof fn lemma_heap_is_heap_except(&self, id: usize)
        requires
            self.well_formed(),
            keys_weakly_ordered::<K>(),
            self.is_heap(),
            self@.contains_key(id),
        ensures
            self.is_heap_above(id),
            self.is_heap_except(id),
    {
        lemma_ordered_above_anywhere(self.entries@, self.indices@[id] as int);
    }

    /// Only a live element can be left out of the heap order.
    pub proof fn lemma_heap_except_is_live(&self, id: usize)
        requires
            self.is_heap_except(id) || self.is_heap_above(id),
        ensures
            self@.contains_key(id),
    {
    }

    /// At the root, `is_heap_except` is no less than `is_heap_above`.
    pub proof fn lemma_root_above(&self)
        requires
            self.well_formed(),
            self.order().len() > 0,
            self.is_heap_except(self.order()[0]),
        ensures
            self.is_heap_above(self.order()[0]),
    {
    }

    /// Creates an empty heap.
    pub fn new() -> (heap: Self)
        ensures
            heap@ == Map::<usize, (K, V)>::empty(),
            heap.order() == Seq::<usize>::empty(),
            heap.free_list() == Seq::<usize>::empty(),
            heap.slots() == 0,
            heap.is_heap(),
    {
        let entries: Vec<Entry<K, V>> = Vec::new();
        let indices = SlotMap::new();
        proof {
            assert(items_of(entries@, indices@) =~= Map::<usize, (K, V)>::empty());
            assert(ids_of(entries@) =~= Seq::<usize>::empty());
        }
        SlotHeap { entries, indices }
    }

    /// Removes all elements and resets the identifiers.
    pub fn clear(&mut self)
        ensures
            final(self)@ == Map::<usize, (K, V)>::empty(),
            final(self).order() == Seq::<usize>::empty(),
            final(self).free_list() == Seq::<usize>::empty(),
            final(self).slots() == 0,
            final(self).is_heap(),
    {
        *self = Self::new();
    }

    /// Returns the number of live elements.
    pub fn len(&self) -> (n: usize)
        ensures
            n == self@.len(),
            n == self.order().len(),
    {
        proof {
            use_type_invariant(self);
            self.lemma_order();
        }
        self.entries.len()
    }

    /// Returns `true` if there are no live elements.
    pub fn is_empty(&self) -> (b: bool)
        ensures
            b == (self@.len() == 0),
    {
        proof {
            use_type_invariant(self);
            self.lemma_order();
        }
        self.entries.len() == 0
    }

    /// Returns `true` if `id` refers to a live element.
    pub fn contains(&self, id: usize) -> (b: bool)
        ensures
            b == self@.contains_key(id),
    {
        self.indices.contains(id)
    }

    /// The position of the element with the given `id`, if it is live.
    pub fn get_index(&self, id: usize) -> (index: Option<usize>)
        ensures
            match index {
                Some(index) => self@.contains_key(id) && index < self.order().len()
                    && self.order()[index as int] == id,
                None => !self@.contains_key(id),
            },
    {
        proof {
            use_type_invariant(self);
        }
        match self.indices.get(id) {
            Some(index) => Some(*index),
            None => None,
        }
    }

    /// The position of the element with the given `id`, without a liveness
    /// test.
    pub fn get_unchecked_index(&self, id: usize) -> (index: usize)
        requires
            self@.contains_key(id),
        ensures
            index < self.order().len(),
            self.order()[index as int] == id,
    {
        proof {
            use_type_invariant(self);
        }
        *self.indices.get_unchecked(id)
    }

    /// What a pop does to a heap that is not empty: the root leaves with its
    /// element, and its identifier goes to the head of the free list, unless
    /// the heap becomes empty, which resets the identifiers. The last element
    /// takes the root's place and is sifted down. In a heap under a strict
    /// weak order of the keys the root held the least element, and what is
    /// left is a heap again.
    pub open spec fn popped(before: Self, after: Self, item: (K, V)) -> bool {
        let root = before.order()[0];
        &&& before.order().len() > 0
        &&& item == before@[root]
        &&& after@ == before@.remove(root)
        &&& if before.order().len() == 1 {
            after.free_list() == Seq::<usize>::empty() && after.slots() == 0
        } else {
            after.free_list() == seq![root] + before.free_list() && after.slots() == before.slots()
        }
        &&& keys_comparable::<K>() ==> after.order() == (if before.order().len() == 1 {
            Seq::<usize>::empty()
        } else {
            sift_down(after@, before.order().update(0, before.order().last()).drop_last(), 0)
        })
        &&& keys_weakly_ordered::<K>() && before.is_heap() ==> least_in(before@, root)
        &&& keys_weakly_ordered::<K>() && (before.is_heap() || before.is_heap_except(root))
            ==> after.is_heap()
    }

    /// What removing the live element `id` does: it leaves with its element,
    /// and its identifier goes to the head of the free list. The last element
    /// takes its place and is sifted up, then down. What is left of a heap
    /// under a strict weak order of the keys is a heap again.
    pub open spec fn removed(before: Self, after: Self, id: usize, item: (K, V)) -> bool {
        &&& before@.contains_key(id)
        &&& item == before@[id]
        &&& after@ == before@.remove(id)
        &&& after.free_list() == seq![id] + before.free_list()
        &&& after.slots() == before.slots()
        &&& keys_comparable::<K>() ==> after.order() == (if before.position(id)
            == before.order().len() - 1 {
            before.order().drop_last()
        } else {
            heapified(
                after@,
                before.order().update(before.position(id), before.order().last()).drop_last(),
                before.position(id),
            )
        })
        &&& keys_weakly_ordered::<K>() && (before.is_heap() || before.is_heap_except(id))
            ==> after.is_heap()
    }

    /// The two heaps hold the same elements under the same identifiers and
    /// will hand out the same identifiers next.
    pub open spec fn same_elements(before: Self, after: Self) -> bool {
        &&& after@ == before@
        &&& after.free_list() == before.free_list()
        &&& after.slots() == before.slots()
    }

    /// Two pops in a row from a heap under a strict weak order of the keys
    /// give keys in non-decreasing order, and leave a heap each time.
    pub proof fn lemma_pops_in_order(
        first: Self,
        second: Self,
        third: Self,
        earlier: (K, V),
        later: (K, V),
    )
        requires
            keys_weakly_ordered::<K>(),
            first.is_heap(),
            Self::popped(first, second, earlier),
            Self::popped(second, third, later),
        ensures
            second.is_heap(),
            third.is_heap(),
            !key_lt(later.0, earlier.0),
    {
        lemma_least_then_next(first@, first.order()[0], second.order()[0]);
    }

    /// A value written through `peek_value_mut` or `get_value_mut` changes
    /// neither which element is the least nor the positions in the heap, so
    /// that the pops that follow give the same identifiers as they would
    /// have given.
    pub proof fn lemma_value_lent_keeps_least(
        before: Self,
        after: Self,
        id: usize,
        value: V,
        least: usize,
    )
        requires
            Self::value_lent(before, after, id, value),
            least_in(before@, least),
        ensures
            least_in(after@, least),
            after.order() == before.order(),
    {
        assert(after@.dom() =~= before@.dom());
        lemma_least_ignores_values(before@, after@, least);
    }

    /// Inserts `(key, value)` and returns the new element's identifier.
    pub fn insert(&mut self, key: K, value: V) -> (id: usize)
        ensures
            id == old(self).next_id(),
            !old(self)@.contains_key(id),
            final(self)@ == old(self)@.insert(id, (key, value)),
            final(self).free_list() == (if old(self).free_list().len() > 0 {
                old(self).free_list().drop_first()
            } else {
                old(self).free_list()
            }),
            final(self).slots() == (if old(self).free_list().len() > 0 {
                old(self).slots()
            } else {
                old(self).slots() + 1
            }),
            keys_comparable::<K>() ==> final(self).order() == sift_up(
                final(self)@,
                old(self).order().push(id),
                old(self).order().len() as int,
            ).0,
            keys_weakly_ordered::<K>() && old(self).is_heap() ==> final(self).is_heap(),
    {
        proof {
            use_type_invariant(&*self);
        }
        let mut owned = Self::new();
        core::mem::swap(self, &mut owned);
        let SlotHeap { mut entries, mut indices } = owned;
        let ghost before = entries@;
        let ghost index_before = indices@;
        let last = entries.len();
        let id = indices.insert(last);
        let entry = Entry { item: (key, value), id };
        entries.push(entry);
        proof {
            use_type_invariant(&indices);
            indices.lemma_well_formed();
            assert forall|p: int| 0 <= p < entries@.len() implies indices@.contains_key(
                (#[trigger] entries@[p]).id,
            ) && indices@[entries@[p].id] == p by {
                if p < last {
                    assert(entries@[p] == before[p]);
                }
            }
            assert(items_of(entries@, indices@) =~= items_of(before, index_before).insert(
                id,
                (key, value),
            ));
            if ordered(before) {
                lemma_pushed_ordered_below(before, entry);
            }
            assert(ids_of(entries@) =~= ids_of(before).push(id));
        }
        heapify_up(&mut entries, &mut indices, last);
        proof {
            use_type_invariant(&indices);
            indices.lemma_well_formed();
        }
        *self = SlotHeap { entries, indices };
        id
    }

    /// Removes and returns the least element, or `None` if the heap is empty.
    pub fn pop(&mut self) -> (item: Option<(K, V)>)
        ensures
            match item {
                Some(item) => Self::popped(*old(self), *final(self), item),
                None => old(self)@.len() == 0 && *final(self) == *old(self),
            },
    {
        if self.is_empty() {
            None
        } else {
            proof {
                use_type_invariant(&*self);
                self.lemma_order();
            }
            Some(self.pop_unchecked())
        }
    }

    /// Removes and returns the least element of a heap that is not empty.
    pub fn pop_unchecked(&mut self) -> (item: (K, V))
        requires
            old(self).order().len() > 0,
        ensures
            Self::popped(*old(self), *final(self), item),
    {
        proof {
            use_type_invariant(&*self);
            if keys_weakly_ordered::<K>() && self.is_heap() {
                self.lemma_root_is_least();
                self.lemma_heap_is_heap_except(self.order()[0]);
            }
        }
        let mut owned = Self::new();
        core::mem::swap(self, &mut owned);
        let SlotHeap { mut entries, mut indices } = owned;
        let ghost before = entries@;
        let ghost index_before = indices@;
        if entries.len() == 1 {
            indices.clear();
            let entry = entries.pop().unwrap();
            proof {
                assert(index_before.dom() =~= set![entry.id]) by {
                    assert forall|id: usize| index_before.contains_key(id) implies id
                        == entry.id by {
                        assert(index_before[id] == 0);
                    }
                }
                assert(items_of(entries@, indices@) =~= items_of(before, index_before).remove(
                    entry.id,
                ));
                assert(ids_of(entries@) =~= Seq::<usize>::empty());
            }
            *self = SlotHeap { entries, indices };
            return entry.item;
        }
        let entry = swap_remove_unchecked(&mut entries, 0);
        indices.remove_unchecked(entry.id);
        let moved = entries[0].id;
        assert(index_before[moved] == before.len() - 1);
        *indices.get_unchecked_mut(moved) = 0;
        proof {
            use_type_invariant(&indices);
            indices.lemma_well_formed();
            assert(indices@ == index_before.remove(entry.id).insert(moved, 0));
            assert(indices@.dom() =~= index_before.dom().remove(entry.id));
            assert forall|p: int| 0 <= p < entries@.len() implies indices@.contains_key(
                (#[trigger] entries@[p]).id,
            ) && indices@[entries@[p].id] == p by {
                if p > 0 {
                    assert(entries@[p] == before[p]);
                    assert(index_before[before[p].id] == p);
                }
            }
            assert forall|id: usize| #[trigger] indices@.contains_key(id) implies indices@[id]
                < entries@.len() && entries@[indices@[id] as int].id == id by {
                assert(index_before.contains_key(id));
            }
            assert(items_of(entries@, indices@) =~= items_of(before, index_before).remove(
                entry.id,
            ));
            if ordered_except(before, 0) {
                lemma_removed_ordered_except(before, 0);
            }
            assert(ids_of(entries@) =~= ids_of(before).update(
                0,
                ids_of(before).last(),
            ).drop_last());
        }
        heapify_down(&mut entries, &mut indices, 0);
        proof {
            use_type_invariant(&indices);
            indices.lemma_well_formed();
        }
        *self = SlotHeap { entries, indices };
        entry.item
    }

    /// Removes the element with the given `id` and returns it, or `None` if
    /// `id` is not a live element.
    pub fn remove(&mut self, id: usize) -> (item: Option<(K, V)>)
        ensures
            match item {
                Some(item) => Self::removed(*old(self), *final(self), id, item),
                None => !old(self)@.contains_key(id) && *final(self) == *old(self),
            },
    {
        if self.contains(id) {
            Some(self.remove_unchecked(id))
        } else {
            None
        }
    }

    /// Removes the element with the given `id` and returns it, without a
    /// liveness test. The last element takes its place and is sifted up, then
    /// down.
    pub fn remove_unchecked(&mut self, id: usize) -> (item: (K, V))
        requires
            old(self)@.contains_key(id),
        ensures
            Self::removed(*old(self), *final(self), id, item),
    {
        proof {
            use_type_invariant(&*self);
            self.lemma_position_is_index(id);
            if keys_weakly_ordered::<K>() && self.is_heap() {
                self.lemma_heap_is_heap_except(id);
            }
        }
        let mut owned = Self::new();
        core::mem::swap(self, &mut owned);
        let SlotHeap { mut entries, mut indices } = owned;
        let ghost before = entries@;
        let ghost index_before = indices@;
        let index = indices.remove_unchecked(id);
        let len = entries.len();
        proof {
            use_type_invariant(&indices);
            indices.lemma_well_formed();
            if ordered_except(before, index as int) {
                lemma_removed_ordered_except(before, index as int);
            }
        }
        if index == len - 1 {
            let entry = entries.pop().unwrap();
            proof {
                assert forall|other: usize|
                    #[trigger] indices@.contains_key(other) implies indices@[other]
                    < entries@.len() && entries@[indices@[other] as int].id == other by {
                    assert(index_before.contains_key(other));
                }
                assert(items_of(entries@, indices@) =~= items_of(before, index_before).remove(id));
                assert(ids_of(entries@) =~= ids_of(before).drop_last());
            }
            *self = SlotHeap { entries, indices };
            return entry.item;
        }
        let entry = swap_remove_unchecked(&mut entries, index);
        let moved = entries[index].id;
        assert(index_before[moved] == before.len() - 1);
        *indices.get_unchecked_mut(moved) = index;
        proof {
            use_type_invariant(&indices);
            indices.lemma_well_formed();
            assert(indices@ == index_before.remove(id).insert(moved, index));
            assert(indices@.dom() =~= index_before.dom().remove(id));
            assert forall|p: int| 0 <= p < entries@.len() implies indices@.contains_key(
                (#[trigger] entries@[p]).id,
            ) && indices@[entries@[p].id] == p by {
                if p != index {
                    assert(entries@[p] == before[p]);
                    assert(index_before[before[p].id] == p);
                }
            }
            assert forall|other: usize|
                    #[trigger] indices@.contains_key(other) implies indices@[other]
                < entries@.len() && entries@[indices@[other] as int].id == other by {
                assert(index_before.contains_key(other));
            }
            assert(items_of(entries@, indices@) =~= items_of(before, index_before).remove(id));
            assert(ids_of(entries@) =~= ids_of(before).update(
                index as int,
                ids_of(before).last(),
            ).drop_last());
        }
        heapify(&mut entries, &mut indices, index);
        proof {
            use_type_invariant(&indices);
            indices.lemma_well_formed();
        }
        *self = SlotHeap { entries, indices };
        entry.item
    }

    /// What lending the value of `id` out does, once the loan ends with
    /// `value` in place: nothing moves, no key changes, and the heap is as
    /// much of a heap as it was.
    pub open spec fn value_lent(before: Self, after: Self, id: usize, value: V) -> bool {
        &&& before@.contains_key(id)
        &&& after@ == before@.insert(id, (before@[id].0, value))
        &&& after.order() == before.order()
        &&& after.free_list() == before.free_list()
        &&& after.slots() == before.slots()
        &&& after.is_heap() == before.is_heap()
        &&& forall|other: usize| #[trigger]
            after.is_heap_except(other) == before.is_heap_except(other)
        &&& forall|other: usize| #[trigger]
            after.is_heap_above(other) == before.is_heap_above(other)
    }

    /// What lending the element of `id` out does, once the loan ends with
    /// `item` in place: nothing moves, and the heap order holds wherever `id`
    /// is not involved, if it did before.
    pub open spec fn item_lent(before: Self, after: Self, id: usize, item: (K, V)) -> bool {
        &&& before@.contains_key(id)
        &&& after@ == before@.insert(id, item)
        &&& after.order() == before.order()
        &&& after.free_list() == before.free_list()
        &&& after.slots() == before.slots()
        &&& before.is_heap_except(id) ==> after.is_heap_except(id)
        &&& keys_weakly_ordered::<K>() && before.is_heap() ==> after.is_heap_except(id)
        &&& item.0 == before@[id].0 ==> after.is_heap() == before.is_heap()
    }

    /// Returns a shared reference to the least element.
    pub fn peek(&self) -> (item: Option<&(K, V)>)
        ensures
            item == (if self.order().len() > 0 {
                Some(&self@[self.order()[0]])
            } else {
                None::<&(K, V)>
            }),
            keys_weakly_ordered::<K>() && self.is_heap() && self.order().len() > 0 ==> least_in(
                self@,
                self.order()[0],
            ),
    {
        if self.entries.len() > 0 {
            Some(self.peek_unchecked())
        } else {
            None
        }
    }

    /// Returns a shared reference to the least element of a heap that is not
    /// empty.
    pub fn peek_unchecked(&self) -> (item: &(K, V))
        requires
            self.order().len() > 0,
        ensures
            *item == self@[self.order()[0]],
            keys_weakly_ordered::<K>() && self.is_heap() ==> least_in(self@, self.order()[0]),
    {
        proof {
            use_type_invariant(self);
            if keys_weakly_ordered::<K>() && self.is_heap() {
                self.lemma_root_is_least();
            }
        }
        &self.entries[0].item
    }

    /// Returns a shared reference to the least element's key.
    pub fn peek_key(&self) -> (key: Option<&K>)
        ensures
            key == (if self.order().len() > 0 {
                Some(&self@[self.order()[0]].0)
            } else {
                None::<&K>
            }),
            keys_weakly_ordered::<K>() && self.is_heap() && self.order().len() > 0 ==> least_in(
                self@,
                self.order()[0],
            ),
    {
        if self.entries.len() > 0 {
            Some(self.peek_unchecked_key())
        } else {
            None
        }
    }

    /// Returns a shared reference to the least element's key, in a heap that
    /// is not empty.
    pub fn peek_unchecked_key(&self) -> (key: &K)
        requires
            self.order().len() > 0,
        ensures
            *key == self@[self.order()[0]].0,
            keys_weakly_ordered::<K>() && self.is_heap() ==> least_in(self@, self.order()[0]),
    {
        &self.peek_unchecked().0
    }

    /// Returns a shared reference to the least element's value.
    pub fn peek_value(&self) -> (value: Option<&V>)
        ensures
            value == (if self.order().len() > 0 {
                Some(&self@[self.order()[0]].1)
            } else {
                None::<&V>
            }),
            keys_weakly_ordered::<K>() && self.is_heap() && self.order().len() > 0 ==> least_in(
                self@,
                self.order()[0],
            ),
    {
        if self.entries.len() > 0 {
            Some(self.peek_unchecked_value())
        } else {
            None
        }
    }

    /// Returns a shared reference to the least element's value, in a heap
    /// that is not empty.
    pub fn peek_unchecked_value(&self) -> (value: &V)
        requires
            self.order().len() > 0,
        ensures
            *value == self@[self.order()[0]].1,
            keys_weakly_ordered::<K>() && self.is_heap() ==> least_in(self@, self.order()[0]),
    {
        &self.peek_unchecked().1
    }

    /// Returns a shared reference to the element with `id`, or `None` if `id`
    /// is not live.
    pub fn get(&self, id: usize) -> (item: Option<&(K, V)>)
        ensures
            item == (if self@.contains_key(id) {
                Some(&self@[id])
            } else {
                None::<&(K, V)>
            }),
    {
        match self.get_index(id) {
            Some(index) => {
                proof {
                    use_type_invariant(self);
                }
                Some(&self.entries[index].item)
            },
            None => None,
        }
    }

    /// Returns a shared reference to the element with `id`, without a
    /// liveness test.
    pub fn get_unchecked(&self, id: usize) -> (item: &(K, V))
        requires
            self@.contains_key(id),
        ensures
            *item == self@[id],
    {
        let index = self.get_unchecked_index(id);
        proof {
            use_type_invariant(self);
        }
        &self.entries[index].item
    }

    /// Returns a shared reference to the key of the element with `id`.
    pub fn get_key(&self, id: usize) -> (key: Option<&K>)
        ensures
            key == (if self@.contains_key(id) {
                Some(&self@[id].0)
            } else {
                None::<&K>
            }),
    {
        match self.get(id) {
            Some(item) => Some(&item.0),
            None => None,
        }
    }

    /// Returns a shared reference to the key of the element with `id`,
    /// without a liveness test.
    pub fn get_unchecked_key(&self, id: usize) -> (key: &K)
        requires
            self@.contains_key(id),
        ensures
            *key == self@[id].0,
    {
        &self.get_unchecked(id).0
    }

    /// Returns a shared reference to the value of the element with `id`.
    pub fn get_value(&self, id: usize) -> (value: Option<&V>)
        ensures
            value == (if self@.contains_key(id) {
                Some(&self@[id].1)
            } else {
                None::<&V>
            }),
    {
        match self.get(id) {
            Some(item) => Some(&item.1),
            None => None,
        }
    }

    /// Returns a shared reference to the value of the element with `id`,
    /// without a liveness test.
    pub fn get_unchecked_value(&self, id: usize) -> (value: &V)
        requires
            self@.contains_key(id),
        ensures
            *value == self@[id].1,
    {
        &self.get_unchecked(id).1
    }

    /// Returns a shared reference to the element at position `index` of the
    /// heap, or `None` if there is no such position.
    pub fn by_index(&self, index: usize) -> (item: Option<&(K, V)>)
        ensures
            item == (if index < self.order().len() {
                Some(&self@[self.order()[index as int]])
            } else {
                None::<&(K, V)>
            }),
    {
        proof {
            use_type_invariant(self);
        }
        if index < self.entries.len() {
            Some(&self.entries[index].item)
        } else {
            None
        }
    }

    /// Returns an exclusive reference to the element at position `index` of
    /// the heap, or `None` if there is no such position. The heap order is
    /// not restored when the loan ends: `heapify` does that.
    pub fn by_index_mut(&mut self, index: usize) -> (item: Option<&mut (K, V)>)
        ensures
            match item {
                Some(item) => index < old(self).order().len() && *item == old(self)@[old(
                    self,
                ).order()[index as int]] && Self::item_lent(
                    *old(self),
                    *final(self),
                    old(self).order()[index as int],
                    *final(item),
                ),
                None => index >= old(self).order().len() && *final(self) == *old(self),
            },
    {
        proof {
            use_type_invariant(&*self);
        }
        if index < self.entries.len() {
            proof {
                let (entries, indices) = (self.entries@, self.indices@);
                if keys_weakly_ordered::<K>() && self.is_heap() {
                    lemma_ordered_above_anywhere(entries, index as int);
                }
                assert forall|item: (K, V)|
                    mirrored(#[trigger] with_item(entries, index as int, item), indices)
                        && items_of(with_item(entries, index as int, item), indices) == items_of(
                        entries,
                        indices,
                    ).insert(entries[index as int].id, item) && ids_of(
                        with_item(entries, index as int, item),
                    ) == ids_of(entries) && (ordered_except(entries, index as int)
                        ==> ordered_except(
                        with_item(entries, index as int, item),
                        index as int,
                    )) && (item.0 == entries[index as int].item.0 ==> ordered(
                        with_item(entries, index as int, item),
                    ) == ordered(entries)) by {
                    lemma_with_item(entries, indices, index as int, item);
                }
            }
            Some(entry_item_mut(&mut self.entries, index))
        } else {
            None
        }
    }

    /// Returns an exclusive reference to the root's element, in a heap that
    /// is not empty. The heap order is not restored when the loan ends.
    pub fn peek_mut_impl(&mut self) -> (item: &mut (K, V))
        requires
            old(self).order().len() > 0,
        ensures
            *item == old(self)@[old(self).order()[0]],
            Self::item_lent(*old(self), *final(self), old(self).order()[0], *final(item)),
    {
        self.by_index_mut(0).unwrap()
    }

    /// Returns an exclusive reference to the element with `id`, without a
    /// liveness test. The heap order is not restored when the loan ends.
    pub fn get_mut_impl(&mut self, id: usize) -> (item: &mut (K, V))
        requires
            old(self)@.contains_key(id),
        ensures
            *item == old(self)@[id],
            Self::item_lent(*old(self), *final(self), id, *final(item)),
    {
        let index = self.get_unchecked_index(id);
        self.by_index_mut(index).unwrap()
    }

    /// Returns an exclusive reference to the least element's value. Values
    /// do not take part in the heap order.
    pub fn peek_value_mut(&mut self) -> (value: Option<&mut V>)
        ensures
            match value {
                Some(value) => old(self).order().len() > 0 && *value == old(self)@[old(
                    self,
                ).order()[0]].1 && Self::value_lent(
                    *old(self),
                    *final(self),
                    old(self).order()[0],
                    *final(value),
                ),
                None => old(self).order().len() == 0 && *final(self) == *old(self),
            },
    {
        if self.entries.len() > 0 {
            Some(self.peek_unchecked_value_mut())
        } else {
            None
        }
    }

    /// Returns an exclusive reference to the least element's value, in a
    /// heap that is not empty.
    pub fn peek_unchecked_value_mut(&mut self) -> (value: &mut V)
        requires
            old(self).order().len() > 0,
        ensures
            *value == old(self)@[old(self).order()[0]].1,
            Self::value_lent(*old(self), *final(self), old(self).order()[0], *final(value)),
    {
        self.value_mut_at(0)
    }

    /// Returns an exclusive reference to the value of the element with `id`.
    /// Values do not take part in the heap order.
    pub fn get_value_mut(&mut self, id: usize) -> (value: Option<&mut V>)
        ensures
            match value {
                Some(value) => old(self)@.contains_key(id) && *value == old(self)@[id].1
                    && Self::value_lent(*old(self), *final(self), id, *final(value)),
                None => !old(self)@.contains_key(id) && *final(self) == *old(self),
            },
    {
        match self.get_index(id) {
            Some(index) => Some(self.value_mut_at(index)),
            None => None,
        }
    }

    /// Returns an exclusive reference to the value of the element with `id`,
    /// without a liveness test.
    pub fn get_unchecked_value_mut(&mut self, id: usize) -> (value: &mut V)
        requires
            old(self)@.contains_key(id),
        ensures
            *value == old(self)@[id].1,
            Self::value_lent(*old(self), *final(self), id, *final(value)),
    {
        let index = self.get_unchecked_index(id);
        self.value_mut_at(index)
    }

    /// An exclusive reference to the value at position `index`.
    fn value_mut_at(&mut self, index: usize) -> (value: &mut V)
        requires
            index < old(self).order().len(),
        ensures
            *value == old(self)@[old(self).order()[index as int]].1,
            Self::value_lent(
                *old(self),
                *final(self),
                old(self).order()[index as int],
                *final(value),
            ),
    {
        proof {
            use_type_invariant(&*self);
            let (entries, indices) = (self.entries@, self.indices@);
            assert forall|value: V|
                #![trigger with_item(entries, index as int, (entries[index as int].item.0, value))]
                ({
                    let item = (entries[index as int].item.0, value);
                    let after = with_item(entries, index as int, item);
                    &&& mirrored(after, indices)
                    &&& items_of(after, indices) == items_of(entries, indices).insert(
                        entries[index as int].id,
                        item,
                    )
                    &&& ids_of(after) == ids_of(entries)
                    &&& ordered(after) == ordered(entries)
                    &&& forall|hole: int| #[trigger]
                        ordered_except(after, hole) == ordered_except(entries, hole)
                    &&& forall|hole: int| #[trigger]
                        ordered_above(after, hole) == ordered_above(entries, hole)
                }) by {
                lemma_with_item(
                    entries,
                    indices,
                    index as int,
                    (entries[index as int].item.0, value),
                );
            }
        }
        entry_value_mut(&mut self.entries, index)
    }

    /// Sifts the element at position `now` up, then down from where it came
    /// to rest. Does nothing where there is no such position.
    pub fn heapify(&mut self, now: usize)
        ensures
            Self::same_elements(*old(self), *final(self)),
            keys_weakly_ordered::<K>() && old(self).is_heap() ==> final(self).is_heap(),
            keys_weakly_ordered::<K>() && now < old(self).order().len() && old(
                self,
            ).is_heap_except(old(self).order()[now as int]) ==> final(self).is_heap(),
            now >= old(self).order().len() ==> *final(self) == *old(self),
            keys_comparable::<K>() && now < old(self).order().len() ==> final(self).order()
                == heapified(final(self)@, old(self).order(), now as int),
    {
        proof {
            use_type_invariant(&*self);
        }
        if now >= self.entries.len() {
            return ;
        }
        proof {
            if keys_weakly_ordered::<K>() && self.is_heap() {
                lemma_ordered_above_anywhere(self.entries@, now as int);
            }
        }
        let mut owned = Self::new();
        core::mem::swap(self, &mut owned);
        let SlotHeap { mut entries, mut indices } = owned;
        heapify(&mut entries, &mut indices, now);
        proof {
            use_type_invariant(&indices);
            indices.lemma_well_formed();
        }
        *self = SlotHeap { entries, indices };
    }

    /// Sifts the element at position `now` down. Does nothing where there is
    /// no such position.
    pub fn heapify_down(&mut self, now: usize)
        ensures
            Self::same_elements(*old(self), *final(self)),
            keys_weakly_ordered::<K>() && old(self).is_heap() ==> final(self).is_heap(),
            keys_weakly_ordered::<K>() && now < old(self).order().len() && old(self).is_heap_above(
                old(self).order()[now as int],
            ) ==> final(self).is_heap(),
            now >= old(self).order().len() ==> *final(self) == *old(self),
            keys_comparable::<K>() && now < old(self).order().len() ==> final(self).order()
                == sift_down(final(self)@, old(self).order(), now as int),
    {
        proof {
            use_type_invariant(&*self);
        }
        if now >= self.entries.len() {
            return ;
        }
        proof {
            if keys_weakly_ordered::<K>() && self.is_heap() {
                lemma_ordered_above_anywhere(self.entries@, now as int);
            }
        }
        let mut owned = Self::new();
        core::mem::swap(self, &mut owned);
        let SlotHeap { mut entries, mut indices } = owned;
        heapify_down(&mut entries, &mut indices, now);
        proof {
            use_type_invariant(&indices);
            indices.lemma_well_formed();
        }
        *self = SlotHeap { entries, indices };
    }
}

impl<K, V> Default for SlotHeap<K, V> where K: PartialOrd {
    /// Creates an empty heap.
    fn default() -> (heap: Self)
        ensures
            heap@ == Map::<usize, (K, V)>::empty(),
            heap.is_heap(),
    {
        Self::new()
    }
}

} // verus!

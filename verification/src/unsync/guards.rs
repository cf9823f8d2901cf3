use crate::unsync::order::heapified;
use crate::unsync::order::keys_comparable;
use crate::unsync::order::keys_weakly_ordered;
use crate::unsync::order::sift_up;
use crate::unsync::slotheap::SlotHeap;
use vstd::prelude::*;

verus! {

/// Exclusive guard over the least element's `(key, value)` pair. Lending the
/// pair out marks the guard dirty; `release` then restores the heap order. A
/// dirty guard that goes out of scope without it leaves the heap order
/// suspended, which the contracts of the heap take into account.
pub struct PeekMut<'a, K, V> where K: PartialOrd {
    pub dirty: bool,
    pub from: &'a mut SlotHeap<K, V>,
}

/// Exclusive guard over the least element's key. Lending the key out marks
/// the guard dirty; `release` then restores the heap order.
pub struct PeekKeyMut<'a, K, V> where K: PartialOrd {
    pub dirty: bool,
    pub from: &'a mut SlotHeap<K, V>,
}

/// Exclusive guard over the `(key, value)` pair of the element with a given
/// identifier. Lending the pair out marks the guard dirty; `release` then
/// restores the heap order.
pub struct RefMut<'a, K, V> where K: PartialOrd {
    pub dirty: bool,
    pub from: &'a mut SlotHeap<K, V>,
    pub id: usize,
}

/// Exclusive guard over the key of the element with a given identifier.
/// Lending the key out marks the guard dirty; `release` then restores the
/// heap order.
pub struct RefKeyMut<'a, K, V> where K: PartialOrd {
    pub dirty: bool,
    pub from: &'a mut SlotHeap<K, V>,
    pub id: usize,
}

impl<K, V> SlotHeap<K, V> where K: PartialOrd {
    /// What a guard that is released leaves behind: the same elements, with
    /// the element of `id` sifted up, then down, if the guard is dirty; and a
    /// heap, if the keys are under a strict weak order and the heap order
    /// held before, at least between all elements other than `id`. A guard
    /// that is not dirty leaves the heap as it was.
    pub open spec fn released(before: Self, after: Self, dirty: bool, id: usize) -> bool {
        &&& Self::same_elements(before, after)
        &&& !dirty || !before@.contains_key(id) ==> after == before
        &&& dirty && before@.contains_key(id) && keys_comparable::<K>() ==> after.order()
            == heapified(after@, before.order(), before.position(id))
        &&& keys_weakly_ordered::<K>() && (before.is_heap() || (dirty && before.is_heap_except(id)))
            ==> after.is_heap()
    }

    /// Whatever a guard's loan leaves in place of the element of `id`, a
    /// heap under a strict weak order of the keys is a heap again once the
    /// guard is released, and holds what was left in place.
    pub proof fn lemma_guarded_change_keeps_heap(
        before: Self,
        lent: Self,
        after: Self,
        id: usize,
        item: (K, V),
    )
        requires
            keys_weakly_ordered::<K>(),
            before.is_heap(),
            Self::item_lent(before, lent, id, item),
            Self::released(lent, after, true, id),
        ensures
            after.is_heap(),
            after@ == before@.insert(id, item),
    {
    }

    /// Returns an exclusive guard over the least element, or `None` if the
    /// heap is empty.
    pub fn peek_mut(&mut self) -> (guard: Option<PeekMut<'_, K, V>>)
        ensures
            match guard {
                Some(guard) => old(self).order().len() > 0 && !guard.dirty && *guard.from == *old(
                    self,
                ) && *final(guard.from) == *final(self),
                None => old(self).order().len() == 0 && *final(self) == *old(self),
            },
    {
        if self.len() > 0 {
            Some(self.peek_unchecked_mut())
        } else {
            None
        }
    }

    /// Returns an exclusive guard over the least element of a heap that is
    /// not empty.
    pub fn peek_unchecked_mut(&mut self) -> (guard: PeekMut<'_, K, V>)
        requires
            old(self).order().len() > 0,
        ensures
            !guard.dirty,
            *guard.from == *old(self),
            *final(guard.from) == *final(self),
    {
        PeekMut { dirty: false, from: self }
    }

    /// Returns an exclusive guard over the least element's key, or `None` if
    /// the heap is empty.
    pub fn peek_key_mut(&mut self) -> (guard: Option<PeekKeyMut<'_, K, V>>)
        ensures
            match guard {
                Some(guard) => old(self).order().len() > 0 && !guard.dirty && *guard.from == *old(
                    self,
                ) && *final(guard.from) == *final(self),
                None => old(self).order().len() == 0 && *final(self) == *old(self),
            },
    {
        if self.len() > 0 {
            Some(self.peek_unchecked_key_mut())
        } else {
            None
        }
    }

    /// Returns an exclusive guard over the least element's key, in a heap
    /// that is not empty.
    pub fn peek_unchecked_key_mut(&mut self) -> (guard: PeekKeyMut<'_, K, V>)
        requires
            old(self).order().len() > 0,
        ensures
            !guard.dirty,
            *guard.from == *old(self),
            *final(guard.from) == *final(self),
    {
        PeekKeyMut { dirty: false, from: self }
    }

    /// Returns an exclusive guard over the element with `id`, or `None` if
    /// `id` is not live.
    pub fn get_mut(&mut self, id: usize) -> (guard: Option<RefMut<'_, K, V>>)
        ensures
            match guard {
                Some(guard) => old(self)@.contains_key(id) && !guard.dirty && guard.id == id
                    && *guard.from == *old(self) && *final(guard.from) == *final(self),
                None => !old(self)@.contains_key(id) && *final(self) == *old(self),
            },
    {
        if self.contains(id) {
            Some(self.get_unchecked_mut(id))
        } else {
            None
        }
    }

    /// Returns an exclusive guard over the element with `id`, without a
    /// liveness test.
    pub fn get_unchecked_mut(&mut self, id: usize) -> (guard: RefMut<'_, K, V>)
        requires
            old(self)@.contains_key(id),
        ensures
            !guard.dirty,
            guard.id == id,
            *guard.from == *old(self),
            *final(guard.from) == *final(self),
    {
        RefMut { dirty: false, from: self, id }
    }

    /// Returns an exclusive guard over the key of the element with `id`, or
    /// `None` if `id` is not live.
    pub fn get_key_mut(&mut self, id: usize) -> (guard: Option<RefKeyMut<'_, K, V>>)
        ensures
            match guard {
                Some(guard) => old(self)@.contains_key(id) && !guard.dirty && guard.id == id
                    && *guard.from == *old(self) && *final(guard.from) == *final(self),
                None => !old(self)@.contains_key(id) && *final(self) == *old(self),
            },
    {
        if self.contains(id) {
            Some(self.get_unchecked_key_mut(id))
        } else {
            None
        }
    }

    /// Returns an exclusive guard over the key of the element with `id`,
    /// without a liveness test.
    pub fn get_unchecked_key_mut(&mut self, id: usize) -> (guard: RefKeyMut<'_, K, V>)
        requires
            old(self)@.contains_key(id),
        ensures
            !guard.dirty,
            guard.id == id,
            *guard.from == *old(self),
            *final(guard.from) == *final(self),
    {
        RefKeyMut { dirty: false, from: self, id }
    }
}

impl<K, V> PeekMut<'_, K, V> where K: PartialOrd {
    /// The least element.
    pub fn deref(&self) -> (item: &(K, V))
        requires
            self.from.order().len() > 0,
        ensures
            *item == old(self.from)@[old(self.from).order()[0]],
    {
        self.from.peek_unchecked()
    }

    /// Lends the least element out and marks the guard dirty.
    pub fn deref_mut(&mut self) -> (item: &mut (K, V))
        requires
            old(self).from.order().len() > 0,
        ensures
            *item == old(self).from@[old(self).from.order()[0]],
            final(self).dirty,
            SlotHeap::item_lent(
                *old(self).from,
                *final(self).from,
                old(self).from.order()[0],
                *final(item),
            ),
            *final(final(self).from) == *final(old(self).from),
    {
        self.dirty = true;
        self.from.peek_mut_impl()
    }

    /// Removes the least element from the heap and returns it.
    pub fn remove(self) -> (item: (K, V))
        requires
            old(self.from).order().len() > 0,
        ensures
            SlotHeap::popped(*old(self.from), *final(self.from), item),
    {
        self.from.pop_unchecked()
    }

    /// Ends the guard: if it is dirty, the root is sifted down.
    pub fn release(self)
        ensures
            SlotHeap::released(
                *old(self.from),
                *final(self.from),
                self.dirty,
                old(self.from).order()[0],
            ),
    {
        if self.dirty {
            proof {
                use_type_invariant(&*self.from);
                self.from.lemma_order();
                let root = self.from.order()[0];
                if self.from.is_heap_except(root) {
                    self.from.lemma_heap_except_is_live(root);
                    self.from.lemma_root_above();
                }
                if self.from@.contains_key(root) {
                    self.from.lemma_position(root);
                }
                let order = self.from.order();
                if order.len() > 0 {
                    assert(order.contains(order[0]));
                }
                assert forall|items: Map<usize, (K, V)>| #[trigger]
                    sift_up(items, order, 0) == (order, 0int) by {}
            }
            self.from.heapify_down(0)
        }
    }
}

impl<K, V> PeekKeyMut<'_, K, V> where K: PartialOrd {
    /// The least element's key.
    pub fn deref(&self) -> (key: &K)
        requires
            self.from.order().len() > 0,
        ensures
            *key == old(self.from)@[old(self.from).order()[0]].0,
    {
        self.from.peek_unchecked_key()
    }

    /// Lends the least element's key out and marks the guard dirty.
    pub fn deref_mut(&mut self) -> (key: &mut K)
        requires
            old(self).from.order().len() > 0,
        ensures
            *key == old(self).from@[old(self).from.order()[0]].0,
            final(self).dirty,
            SlotHeap::item_lent(
                *old(self).from,
                *final(self).from,
                old(self).from.order()[0],
                (*final(key), old(self).from@[old(self).from.order()[0]].1),
            ),
            *final(final(self).from) == *final(old(self).from),
    {
        self.dirty = true;
        &mut self.from.peek_mut_impl().0
    }

    /// Removes the least element from the heap and returns its key.
    pub fn remove(self) -> (key: K)
        requires
            old(self.from).order().len() > 0,
        ensures
            exists|value: V| SlotHeap::popped(*old(self.from), *final(self.from), (key, value)),
    {
        let (key, _) = self.from.pop_unchecked();
        key
    }

    /// Ends the guard: if it is dirty, the root is sifted down.
    pub fn release(self)
        ensures
            SlotHeap::released(
                *old(self.from),
                *final(self.from),
                self.dirty,
                old(self.from).order()[0],
            ),
    {
        if self.dirty {
            proof {
                use_type_invariant(&*self.from);
                self.from.lemma_order();
                let root = self.from.order()[0];
                if self.from.is_heap_except(root) {
                    self.from.lemma_heap_except_is_live(root);
                    self.from.lemma_root_above();
                }
                if self.from@.contains_key(root) {
                    self.from.lemma_position(root);
                }
                let order = self.from.order();
                if order.len() > 0 {
                    assert(order.contains(order[0]));
                }
                assert forall|items: Map<usize, (K, V)>| #[trigger]
                    sift_up(items, order, 0) == (order, 0int) by {}
            }
            self.from.heapify_down(0)
        }
    }
}

impl<K, V> RefMut<'_, K, V> where K: PartialOrd {
    /// The element that the guard is for.
    pub fn deref(&self) -> (item: &(K, V))
        requires
            self.from@.contains_key(self.id),
        ensures
            *item == old(self.from)@[self.id],
    {
        self.from.get_unchecked(self.id)
    }

    /// Lends the element out and marks the guard dirty.
    pub fn deref_mut(&mut self) -> (item: &mut (K, V))
        requires
            old(self).from@.contains_key(old(self).id),
        ensures
            *item == old(self).from@[old(self).id],
            final(self).dirty,
            final(self).id == old(self).id,
            SlotHeap::item_lent(*old(self).from, *final(self).from, old(self).id, *final(item)),
            *final(final(self).from) == *final(old(self).from),
    {
        self.dirty = true;
        self.from.get_mut_impl(self.id)
    }

    /// Removes the element from the heap and returns it.
    pub fn remove(self) -> (item: (K, V))
        requires
            old(self.from)@.contains_key(self.id),
        ensures
            SlotHeap::removed(*old(self.from), *final(self.from), self.id, item),
    {
        self.from.remove_unchecked(self.id)
    }

    /// Ends the guard: if it is dirty, the element is sifted up, then down.
    pub fn release(self)
        ensures
            SlotHeap::released(*old(self.from), *final(self.from), self.dirty, self.id),
    {
        if self.dirty {
            proof {
                use_type_invariant(&*self.from);
                if self.from.is_heap_except(self.id) {
                    self.from.lemma_heap_except_is_live(self.id);
                }
                if self.from@.contains_key(self.id) {
                    self.from.lemma_position(self.id);
                }
            }
            match self.from.get_index(self.id) {
                Some(index) => self.from.heapify(index),
                None => {},
            }
        }
    }
}

impl<K, V> RefKeyMut<'_, K, V> where K: PartialOrd {
    /// The key of the element that the guard is for.
    pub fn deref(&self) -> (key: &K)
        requires
            self.from@.contains_key(self.id),
        ensures
            *key == old(self.from)@[self.id].0,
    {
        self.from.get_unchecked_key(self.id)
    }

    /// Lends the key out and marks the guard dirty.
    pub fn deref_mut(&mut self) -> (key: &mut K)
        requires
            old(self).from@.contains_key(old(self).id),
        ensures
            *key == old(self).from@[old(self).id].0,
            final(self).dirty,
            final(self).id == old(self).id,
            SlotHeap::item_lent(
                *old(self).from,
                *final(self).from,
                old(self).id,
                (*final(key), old(self).from@[old(self).id].1),
            ),
            *final(final(self).from) == *final(old(self).from),
    {
        self.dirty = true;
        &mut self.from.get_mut_impl(self.id).0
    }

    /// Removes the element from the heap and returns its key.
    pub fn remove(self) -> (key: K)
        requires
            old(self.from)@.contains_key(self.id),
        ensures
            exists|value: V|
                SlotHeap::removed(*old(self.from), *final(self.from), self.id, (key, value)),
    {
        let (key, _) = self.from.remove_unchecked(self.id);
        key
    }

    /// Ends the guard: if it is dirty, the element is sifted up, then down.
    pub fn release(self)
        ensures
            SlotHeap::released(*old(self.from), *final(self.from), self.dirty, self.id),
    {
        if self.dirty {
            proof {
                use_type_invariant(&*self.from);
                if self.from.is_heap_except(self.id) {
                    self.from.lemma_heap_except_is_live(self.id);
                }
                if self.from@.contains_key(self.id) {
                    self.from.lemma_position(self.id);
                }
            }
            match self.from.get_index(self.id) {
                Some(index) => self.from.heapify(index),
                None => {},
            }
        }
    }
}

} // verus!

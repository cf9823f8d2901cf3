use crate::sync::lock::lock_read;
use crate::sync::lock::lock_write;
use crate::sync::lock::new_lock;
use crate::sync::lock::target;
use crate::sync::lock::target_mut;
use crate::sync::lock::try_map_read;
use crate::sync::lock::try_map_write;
use crate::sync::lock::MappedReadGuard;
use crate::sync::lock::MappedWriteGuard;
use crate::sync::lock::WriteGuard;
use crate::unsync;
use parking_lot::RwLock;
use vstd::prelude::*;

verus! {

/// Thread-safe min-heap with stable, reusable identifiers: a single-threaded
/// slot heap behind a reader-writer lock. Each operation is one operation of
/// that heap under the lock; a guard keeps the write lock until it is
/// released.
#[verifier::reject_recursive_types(K)]
#[verifier::reject_recursive_types(V)]
pub struct SlotHeap<K, V> {
    inner: RwLock<unsync::SlotHeap<K, V>>,
}

/// Exclusive guard over the least element's `(key, value)` pair.
///
/// The guard holds the heap's write lock and, for as long as it lives, the
/// heap itself, which it has taken out of the lock and puts back when it goes
/// out of scope. `release` restores the heap order before that, if the guard
/// is dirty.
#[verifier::reject_recursive_types(K)]
#[verifier::reject_recursive_types(V)]
pub struct PeekMut<'a, K, V> where K: Ord {
    guard: WriteGuard<'a, unsync::SlotHeap<K, V>>,
    heap: unsync::SlotHeap<K, V>,
    dirty: bool,
}

/// Exclusive guard over the least element's key.
///
/// The guard holds the heap's write lock and, for as long as it lives, the
/// heap itself, which it has taken out of the lock and puts back when it goes
/// out of scope. `release` restores the heap order before that, if the guard
/// is dirty.
#[verifier::reject_recursive_types(K)]
#[verifier::reject_recursive_types(V)]
pub struct PeekKeyMut<'a, K, V> where K: Ord {
    guard: WriteGuard<'a, unsync::SlotHeap<K, V>>,
    heap: unsync::SlotHeap<K, V>,
    dirty: bool,
}

/// Exclusive guard over the `(key, value)` pair of the element at a position
/// of the heap.
///
/// The guard holds the heap's write lock and, for as long as it lives, the
/// heap itself, which it has taken out of the lock and puts back when it goes
/// out of scope. `release` restores the heap order before that, if the guard
/// is dirty.
#[verifier::reject_recursive_types(K)]
#[verifier::reject_recursive_types(V)]
pub struct RefMut<'a, K, V> where K: Ord {
    guard: WriteGuard<'a, unsync::SlotHeap<K, V>>,
    heap: unsync::SlotHeap<K, V>,
    index: usize,
    dirty: bool,
}

/// Exclusive guard over the key of the element at a position of the heap.
///
/// The guard holds the heap's write lock and, for as long as it lives, the
/// heap itself, which it has taken out of the lock and puts back when it goes
/// out of scope. `release` restores the heap order before that, if the guard
/// is dirty.
#[verifier::reject_recursive_types(K)]
#[verifier::reject_recursive_types(V)]
pub struct RefKeyMut<'a, K, V> where K: Ord {
    guard: WriteGuard<'a, unsync::SlotHeap<K, V>>,
    heap: unsync::SlotHeap<K, V>,
    index: usize,
    dirty: bool,
}

impl<K, V> SlotHeap<K, V> where K: Ord {
    /// Creates an empty heap.
    pub fn new() -> Self {
        SlotHeap { inner: new_lock(unsync::SlotHeap::new()) }
    }

    /// Removes all elements and resets the identifiers.
    pub fn clear(&self) {
        let mut guard = lock_write(&self.inner);
        target_mut(&mut guard).clear()
    }

    /// Returns the number of live elements.
    pub fn len(&self) -> usize {
        let guard = lock_read(&self.inner);
        target(&guard).len()
    }

    /// Returns `true` if there are no live elements.
    pub fn is_empty(&self) -> bool {
        let guard = lock_read(&self.inner);
        target(&guard).is_empty()
    }

    /// Returns `true` if `id` refers to a live element.
    pub fn contains(&self, id: usize) -> bool {
        let guard = lock_read(&self.inner);
        target(&guard).contains(id)
    }

    /// Inserts `(key, value)` and returns the new element's identifier.
    pub fn insert(&self, key: K, value: V) -> usize {
        let mut guard = lock_write(&self.inner);
        target_mut(&mut guard).insert(key, value)
    }

    /// Removes and returns the least element, or `None` if the heap is empty.
    pub fn pop(&self) -> Option<(K, V)> {
        let mut guard = lock_write(&self.inner);
        target_mut(&mut guard).pop()
    }

    /// Removes the element with the given `id` and returns it, or `None` if
    /// `id` is not a live element.
    pub fn remove(&self, id: usize) -> Option<(K, V)> {
        let mut guard = lock_write(&self.inner);
        target_mut(&mut guard).remove(id)
    }

    /// Returns a read-locked guard for the least element.
    pub fn peek(&self) -> Option<MappedReadGuard<'_, (K, V)>> {
        try_map_read(lock_read(&self.inner), |inner: &unsync::SlotHeap<K, V>| inner.peek())
    }

    /// Returns a read-locked guard for the least element's key.
    pub fn peek_key(&self) -> Option<MappedReadGuard<'_, K>> {
        try_map_read(lock_read(&self.inner), |inner: &unsync::SlotHeap<K, V>| inner.peek_key())
    }

    /// Returns a read-locked guard for the least element's value.
    pub fn peek_value(&self) -> Option<MappedReadGuard<'_, V>> {
        try_map_read(lock_read(&self.inner), |inner: &unsync::SlotHeap<K, V>| inner.peek_value())
    }

    /// Returns an exclusive guard over the least element, or `None` if the
    /// heap is empty.
    pub fn peek_mut(&self) -> (guard: Option<PeekMut<'_, K, V>>)
        ensures
            guard matches Some(guard) ==> !guard.is_dirty() && guard.is_live(),
    {
        let mut guard = lock_write(&self.inner);
        let mut heap = unsync::SlotHeap::new();
        core::mem::swap(target_mut(&mut guard), &mut heap);
        if heap.is_empty() {
            core::mem::swap(target_mut(&mut guard), &mut heap);
            return None;
        }
        proof {
            use_type_invariant(&heap);
            heap.lemma_order();
        }
        Some(PeekMut { guard, heap, dirty: false })
    }

    /// Returns an exclusive guard over the least element's key, or `None` if
    /// the heap is empty.
    pub fn peek_key_mut(&self) -> (guard: Option<PeekKeyMut<'_, K, V>>)
        ensures
            guard matches Some(guard) ==> !guard.is_dirty() && guard.is_live(),
    {
        let mut guard = lock_write(&self.inner);
        let mut heap = unsync::SlotHeap::new();
        core::mem::swap(target_mut(&mut guard), &mut heap);
        if heap.is_empty() {
            core::mem::swap(target_mut(&mut guard), &mut heap);
            return None;
        }
        proof {
            use_type_invariant(&heap);
            heap.lemma_order();
        }
        Some(PeekKeyMut { guard, heap, dirty: false })
    }

    /// Returns a write-locked guard for the least element's value.
    pub fn peek_value_mut(&self) -> Option<MappedWriteGuard<'_, V>> {
        try_map_write(
            lock_write(&self.inner),
            |inner: &mut unsync::SlotHeap<K, V>| inner.peek_value_mut(),
        )
    }

    /// Returns a read-locked guard for the element with `id`, or `None` if
    /// `id` is not live.
    pub fn get(&self, id: usize) -> Option<MappedReadGuard<'_, (K, V)>> {
        try_map_read(lock_read(&self.inner), |inner: &unsync::SlotHeap<K, V>| inner.get(id))
    }

    /// Returns a read-locked guard for the key of the element with `id`.
    pub fn get_key(&self, id: usize) -> Option<MappedReadGuard<'_, K>> {
        try_map_read(lock_read(&self.inner), |inner: &unsync::SlotHeap<K, V>| inner.get_key(id))
    }

    /// Returns a read-locked guard for the value of the element with `id`.
    pub fn get_value(&self, id: usize) -> Option<MappedReadGuard<'_, V>> {
        try_map_read(lock_read(&self.inner), |inner: &unsync::SlotHeap<K, V>| inner.get_value(id))
    }

    /// Returns an exclusive guard over the element with `id`, or `None` if
    /// `id` is not live.
    pub fn get_mut(&self, id: usize) -> (guard: Option<RefMut<'_, K, V>>)
        ensures
            guard matches Some(guard) ==> !guard.is_dirty() && guard.is_live() && guard.id() == id,
    {
        let mut guard = lock_write(&self.inner);
        let mut heap = unsync::SlotHeap::new();
        core::mem::swap(target_mut(&mut guard), &mut heap);
        match heap.get_index(id) {
            Some(index) => Some(RefMut { guard, heap, index, dirty: false }),
            None => {
                core::mem::swap(target_mut(&mut guard), &mut heap);
                None
            },
        }
    }

    /// Returns an exclusive guard over the key of the element with `id`, or
    /// `None` if `id` is not live.
    pub fn get_key_mut(&self, id: usize) -> (guard: Option<RefKeyMut<'_, K, V>>)
        ensures
            guard matches Some(guard) ==> !guard.is_dirty() && guard.is_live() && guard.id() == id,
    {
        let mut guard = lock_write(&self.inner);
        let mut heap = unsync::SlotHeap::new();
        core::mem::swap(target_mut(&mut guard), &mut heap);
        match heap.get_index(id) {
            Some(index) => Some(RefKeyMut { guard, heap, index, dirty: false }),
            None => {
                core::mem::swap(target_mut(&mut guard), &mut heap);
                None
            },
        }
    }

    /// Returns a write-locked guard for the value of the element with `id`.
    pub fn get_value_mut(&self, id: usize) -> Option<MappedWriteGuard<'_, V>> {
        try_map_write(
            lock_write(&self.inner),
            |inner: &mut unsync::SlotHeap<K, V>| inner.get_value_mut(id),
        )
    }
}

impl<K, V> PeekMut<'_, K, V> where K: Ord {
    /// Whether the guard has lent its element out for writing since it was
    /// made, so that `release` has to restore the heap order.
    pub closed spec fn is_dirty(&self) -> bool {
        self.dirty
    }

    /// The heap as the guard holds it.
    pub closed spec fn heap(&self) -> unsync::SlotHeap<K, V> {
        self.heap
    }

    /// The position in the heap of the element that the guard is for: the
    /// root.
    pub closed spec fn index(&self) -> usize {
        0
    }

    /// The heap has an element at the guard's position.
    pub open spec fn is_live(&self) -> bool {
        self.index() < self.heap().order().len()
    }

    /// The identifier of the element at the guard's position.
    pub open spec fn id(&self) -> usize {
        self.heap().order()[self.index() as int]
    }

    /// The element of the least element, or `None` where the heap has
    /// no such element.
    pub fn deref(&self) -> (item: Option<&(K, V)>)
        ensures
            item == (if self.is_live() {
                Some(&self.heap()@[self.id()])
            } else {
                None::<&(K, V)>
            }),
    {
        self.heap.by_index(0)
    }

    /// Lends the element of the least element out and marks the
    /// guard dirty. What is written through the reference takes the place of
    /// the element; the heap order is restored by `release`.
    pub fn deref_mut(&mut self) -> (item: Option<&mut (K, V)>)
        ensures
            final(self).is_dirty(),
            final(self).index() == old(self).index(),
            match item {
                Some(item) => old(self).is_live() && *item == old(self).heap()@[old(self).id()]
                    && unsync::SlotHeap::item_lent(
                    old(self).heap(),
                    final(self).heap(),
                    old(self).id(),
                    *final(item),
                ),
                None => !old(self).is_live() && final(self).heap() == old(self).heap(),
            },
    {
        self.dirty = true;
        self.heap.by_index_mut(0)
    }

    /// Ends the guard: if it is dirty, the root is sifted. Then
    /// the heap goes back behind the lock, and the lock is released.
    pub fn release(self) {
        let mut guard = self;
        if guard.dirty {
            guard.heap.heapify(0)
        }
    }
}

impl<K, V> PeekKeyMut<'_, K, V> where K: Ord {
    /// Whether the guard has lent its key out for writing since it was
    /// made, so that `release` has to restore the heap order.
    pub closed spec fn is_dirty(&self) -> bool {
        self.dirty
    }

    /// The heap as the guard holds it.
    pub closed spec fn heap(&self) -> unsync::SlotHeap<K, V> {
        self.heap
    }

    /// The position in the heap of the element that the guard is for: the
    /// root.
    pub closed spec fn index(&self) -> usize {
        0
    }

    /// The heap has an element at the guard's position.
    pub open spec fn is_live(&self) -> bool {
        self.index() < self.heap().order().len()
    }

    /// The identifier of the element at the guard's position.
    pub open spec fn id(&self) -> usize {
        self.heap().order()[self.index() as int]
    }

    /// The key of the least element, or `None` where the heap has
    /// no such element.
    pub fn deref(&self) -> (key: Option<&K>)
        ensures
            key == (if self.is_live() {
                Some(&self.heap()@[self.id()].0)
            } else {
                None::<&K>
            }),
    {
        match self.heap.by_index(0) {
            Some(item) => Some(&item.0),
            None => None,
        }
    }

    /// Lends the key of the least element out and marks the
    /// guard dirty. What is written through the reference takes the place of
    /// the key; the heap order is restored by `release`.
    pub fn deref_mut(&mut self) -> (key: Option<&mut K>)
        ensures
            final(self).is_dirty(),
            final(self).index() == old(self).index(),
            match key {
                Some(key) => old(self).is_live() && *key == old(self).heap()@[old(self).id()].0
                    && unsync::SlotHeap::item_lent(
                    old(self).heap(),
                    final(self).heap(),
                    old(self).id(),
                    (*final(key), old(self).heap()@[old(self).id()].1),
                ),
                None => !old(self).is_live() && final(self).heap() == old(self).heap(),
            },
    {
        self.dirty = true;
        match self.heap.by_index_mut(0) {
            Some(item) => Some(&mut item.0),
            None => None,
        }
    }

    /// Ends the guard: if it is dirty, the root is sifted. Then
    /// the heap goes back behind the lock, and the lock is released.
    pub fn release(self) {
        let mut guard = self;
        if guard.dirty {
            guard.heap.heapify(0)
        }
    }
}

impl<K, V> RefMut<'_, K, V> where K: Ord {
    /// Whether the guard has lent its element out for writing since it was
    /// made, so that `release` has to restore the heap order.
    pub closed spec fn is_dirty(&self) -> bool {
        self.dirty
    }

    /// The heap as the guard holds it.
    pub closed spec fn heap(&self) -> unsync::SlotHeap<K, V> {
        self.heap
    }

    /// The position in the heap of the element that the guard is for.
    pub closed spec fn index(&self) -> usize {
        self.index
    }

    /// The heap has an element at the guard's position.
    pub open spec fn is_live(&self) -> bool {
        self.index() < self.heap().order().len()
    }

    /// The identifier of the element at the guard's position.
    pub open spec fn id(&self) -> usize {
        self.heap().order()[self.index() as int]
    }

    /// The element of the element that the guard is for, or `None` where the heap has
    /// no such element.
    pub fn deref(&self) -> (item: Option<&(K, V)>)
        ensures
            item == (if self.is_live() {
                Some(&self.heap()@[self.id()])
            } else {
                None::<&(K, V)>
            }),
    {
        self.heap.by_index(self.index)
    }

    /// Lends the element of the element that the guard is for out and marks the
    /// guard dirty. What is written through the reference takes the place of
    /// the element; the heap order is restored by `release`.
    pub fn deref_mut(&mut self) -> (item: Option<&mut (K, V)>)
        ensures
            final(self).is_dirty(),
            final(self).index() == old(self).index(),
            match item {
                Some(item) => old(self).is_live() && *item == old(self).heap()@[old(self).id()]
                    && unsync::SlotHeap::item_lent(
                    old(self).heap(),
                    final(self).heap(),
                    old(self).id(),
                    *final(item),
                ),
                None => !old(self).is_live() && final(self).heap() == old(self).heap(),
            },
    {
        self.dirty = true;
        self.heap.by_index_mut(self.index)
    }

    /// Ends the guard: if it is dirty, the element is sifted up, then down. Then
    /// the heap goes back behind the lock, and the lock is released.
    pub fn release(self) {
        let mut guard = self;
        if guard.dirty {
            guard.heap.heapify(guard.index)
        }
    }
}

impl<K, V> RefKeyMut<'_, K, V> where K: Ord {
    /// Whether the guard has lent its key out for writing since it was
    /// made, so that `release` has to restore the heap order.
    pub closed spec fn is_dirty(&self) -> bool {
        self.dirty
    }

    /// The heap as the guard holds it.
    pub closed spec fn heap(&self) -> unsync::SlotHeap<K, V> {
        self.heap
    }

    /// The position in the heap of the element that the guard is for.
    pub closed spec fn index(&self) -> usize {
        self.index
    }

    /// The heap has an element at the guard's position.
    pub open spec fn is_live(&self) -> bool {
        self.index() < self.heap().order().len()
    }

    /// The identifier of the element at the guard's position.
    pub open spec fn id(&self) -> usize {
        self.heap().order()[self.index() as int]
    }

    /// The key of the element that the guard is for, or `None` where the heap has
    /// no such element.
    pub fn deref(&self) -> (key: Option<&K>)
        ensures
            key == (if self.is_live() {
                Some(&self.heap()@[self.id()].0)
            } else {
                None::<&K>
            }),
    {
        match self.heap.by_index(self.index) {
            Some(item) => Some(&item.0),
            None => None,
        }
    }

    /// Lends the key of the element that the guard is for out and marks the
    /// guard dirty. What is written through the reference takes the place of
    /// the key; the heap order is restored by `release`.
    pub fn deref_mut(&mut self) -> (key: Option<&mut K>)
        ensures
            final(self).is_dirty(),
            final(self).index() == old(self).index(),
            match key {
                Some(key) => old(self).is_live() && *key == old(self).heap()@[old(self).id()].0
                    && unsync::SlotHeap::item_lent(
                    old(self).heap(),
                    final(self).heap(),
                    old(self).id(),
                    (*final(key), old(self).heap()@[old(self).id()].1),
                ),
                None => !old(self).is_live() && final(self).heap() == old(self).heap(),
            },
    {
        self.dirty = true;
        match self.heap.by_index_mut(self.index) {
            Some(item) => Some(&mut item.0),
            None => None,
        }
    }

    /// Ends the guard: if it is dirty, the element is sifted up, then down. Then
    /// the heap goes back behind the lock, and the lock is released.
    pub fn release(self) {
        let mut guard = self;
        if guard.dirty {
            guard.heap.heapify(guard.index)
        }
    }
}

impl<K, V> Default for SlotHeap<K, V> where K: Ord {
    /// Creates an empty heap.
    fn default() -> Self {
        Self::new()
    }
}

impl<K, V> Drop for PeekMut<'_, K, V> where K: Ord {
    /// Puts the heap back behind the lock.
    fn drop(&mut self)
        opens_invariants none
        no_unwind
    {
        core::mem::swap(target_mut(&mut self.guard), &mut self.heap);
    }
}

impl<K, V> Drop for PeekKeyMut<'_, K, V> where K: Ord {
    /// Puts the heap back behind the lock.
    fn drop(&mut self)
        opens_invariants none
        no_unwind
    {
        core::mem::swap(target_mut(&mut self.guard), &mut self.heap);
    }
}

impl<K, V> Drop for RefMut<'_, K, V> where K: Ord {
    /// Puts the heap back behind the lock.
    fn drop(&mut self)
        opens_invariants none
        no_unwind
    {
        core::mem::swap(target_mut(&mut self.guard), &mut self.heap);
    }
}

impl<K, V> Drop for RefKeyMut<'_, K, V> where K: Ord {
    /// Puts the heap back behind the lock.
    fn drop(&mut self)
        opens_invariants none
        no_unwind
    {
        core::mem::swap(target_mut(&mut self.guard), &mut self.heap);
    }
}

} // verus!

use crate::sync::counter::decrement;
use crate::sync::counter::increment;
use crate::sync::counter::load;
use crate::sync::counter::store;
use crate::sync::lock::new_lock;
use crate::sync::lock::pad;
use crate::sync::lock::padded;
use crate::sync::lock::lock_read;
use crate::sync::lock::target;
use crate::sync::lock::target_mut;
use crate::sync::lock::try_map_read;
use crate::sync::lock::try_map_write;
use crate::sync::lock::lock_write;
use crate::sync::lock::MappedReadGuard;
use crate::sync::lock::MappedWriteGuard;
use crate::sync::lock::WriteGuard;
use crate::sync::shard::all_idle;
use crate::sync::shard::candidate;
use crate::sync::shard::candidate_of;
use crate::sync::shard::is_shard_count;
use crate::sync::shard::least_loaded;
use crate::sync::shard::locks_first_shard_first;
use crate::sync::shard::merge;
use crate::sync::shard::merged;
use crate::sync::shard::split;
use crate::sync::shard::total_load;
use crate::unsync;
use crate::util::shard::default_num_shards;
use crate::util::shard::is_default_num_shards;
use crate::util::shard::max_num_threads;
use core::sync::atomic::AtomicUsize;
use crossbeam_utils::CachePadded;
use parking_lot::RwLock;
use vstd::prelude::*;

verus! {

/// Thread-safe slot map with stable, reusable identifiers.
///
/// The map is a fixed number of shards, each a single-threaded slot map
/// behind its own lock, beside a count of its live entries. The low bits of
/// an identifier name the shard, the bits above them the identifier within
/// the shard.
#[verifier::reject_recursive_types(T)]
pub struct SlotMap<T> {
    shards: Vec<CachePadded<Shard<T>>>,
    rr: AtomicUsize,
}

/// One partition of the map: a slot map behind its lock, and the number of
/// its live entries as the inserts and removals have counted it.
#[verifier::reject_recursive_types(T)]
struct Shard<T> {
    inner: RwLock<unsync::SlotMap<T>>,
    len: AtomicUsize,
}

/// Guard for a slot reserved by `SlotMap::lazy_insert`. It holds the write
/// lock of the slot's shard. `commit` stores a value and makes the slot live;
/// `cancel` gives the slot back. A guard that goes out of scope without
/// either releases the lock and leaves the slot reserved.
#[verifier::reject_recursive_types(T)]
pub struct LazyInsert<'a, T> {
    guard: WriteGuard<'a, unsync::SlotMap<T>>,
    shard: &'a Shard<T>,
    id: usize,
}

/// Inserts `value` into the map of shard `shard_index` and returns the
/// identifier under which the sharded map knows it.
pub fn insert_into<T>(
    map: &mut unsync::SlotMap<T>,
    num_shards: usize,
    shard_index: usize,
    value: T,
) -> (id: usize)
    requires
        is_shard_count(num_shards),
    ensures
        id == merged(num_shards, shard_index, old(map).state().next_id()),
        final(map).state() == old(map).state().insert(value),
{
    let inner = map.insert(value);
    merge(num_shards, shard_index, inner)
}

/// Reserves a slot in the map of shard `shard_index` and returns the
/// identifier under which the sharded map knows it, with the identifier
/// within the shard.
pub fn reserve_in<T>(map: &mut unsync::SlotMap<T>, num_shards: usize, shard_index: usize) -> (ids:
    (usize, usize))
    requires
        is_shard_count(num_shards),
    ensures
        ids.1 == old(map).state().next_id(),
        ids.0 == merged(num_shards, shard_index, ids.1),
        final(map).state() == old(map).state().reserve(),
{
    let inner = map.prepare_lazy_insert();
    (merge(num_shards, shard_index, inner), inner)
}

/// Makes the slot `id` live with `value`, if it is reserved; else leaves the
/// map as it is and gives `value` back.
pub fn commit_reserved<T>(map: &mut unsync::SlotMap<T>, id: usize, value: T) -> (rejected: Option<
    T,
>)
    ensures
        match rejected {
            None => old(map).state().reserved.contains(id) && final(map).state() == old(
                map,
            ).state().commit(id, value),
            Some(rejected) => !old(map).state().reserved.contains(id) && rejected == value
                && final(map).state() == old(map).state(),
        },
{
    if map.is_reserved(id) {
        map.commit_lazy_insert(id, value);
        None
    } else {
        Some(value)
    }
}

/// Gives the reservation of the slot `id` up, if it is reserved; else leaves
/// the map as it is.
pub fn cancel_reserved<T>(map: &mut unsync::SlotMap<T>, id: usize) -> (cancelled: bool)
    ensures
        cancelled == old(map).state().reserved.contains(id),
        cancelled ==> final(map).state() == old(map).state().release(id),
        !cancelled ==> final(map).state() == old(map).state(),
{
    if map.is_reserved(id) {
        map.drop_lazy_insert(id);
        true
    } else {
        false
    }
}

/// Swaps the value at `id0` of one map with the value at `id1` of another.
/// Returns `None`, and changes nothing, if either is not a live entry of its
/// map.
pub fn swap_between<T>(
    map0: &mut unsync::SlotMap<T>,
    id0: usize,
    map1: &mut unsync::SlotMap<T>,
    id1: usize,
) -> (done: Option<()>)
    ensures
        done is Some <==> old(map0)@.contains_key(id0) && old(map1)@.contains_key(id1),
        done is Some ==> final(map0).state() == old(map0).state().set(id0, old(map1)@[id1])
            && final(map1).state() == old(map1).state().set(id1, old(map0)@[id0]),
        done is None ==> final(map0).state() == old(map0).state() && final(map1).state() == old(
            map1,
        ).state(),
{
    let elem0 = map0.get_mut(id0)?;
    let elem1 = map1.get_mut(id1)?;
    core::mem::swap(elem0, elem1);
    Some(())
}

/// The shard that an insert takes in round `round`, given the loads of its
/// four candidates: the least loaded, and the first of them where several
/// are.
pub fn select(num_shards: usize, round: usize, loads: &[usize; 4]) -> (shard_index: usize)
    requires
        is_shard_count(num_shards),
    ensures
        shard_index < num_shards,
        exists|step: usize|
            step < 4 && shard_index == candidate_of(num_shards, round, step) && (forall|other: int|
                0 <= other < 4 ==> loads[step as int] <= loads[other]) && (forall|other: int|
                0 <= other < step ==> loads[step as int] < loads[other]),
{
    let step = least_loaded(loads);
    candidate(num_shards, round, step)
}

impl<T> SlotMap<T> {
    /// What holds of every sharded slot map at all times: the number of its
    /// shards is a power of two, and at least 4.
    #[verifier::type_invariant]
    pub closed spec fn well_formed(&self) -> bool {
        is_shard_count(self.shards.len())
    }

    /// The number of shards.
    pub closed spec fn shard_count(&self) -> usize {
        self.shards.len()
    }

    /// Creates a map for a machine that runs `num_threads` threads at once:
    /// with four times as many shards, and more where that is no power of
    /// two.
    pub fn new(num_threads: usize) -> (map: Self)
        requires
            num_threads <= max_num_threads(),
        ensures
            is_default_num_shards(num_threads, map.shard_count()),
    {
        Self::with_num_shards_unchecked(default_num_shards(num_threads))
    }

    /// Creates a map with exactly `num_shards` shards. Returns `None` if
    /// `num_shards` is not a power of two or is less than 4.
    pub fn with_num_shards(num_shards: usize) -> (map: Option<Self>)
        ensures
            map is Some <==> is_shard_count(num_shards),
            map is Some ==> map->Some_0.shard_count() == num_shards,
    {
        if num_shards.is_power_of_two() && num_shards >= 4 {
            Some(Self::with_num_shards_unchecked(num_shards))
        } else {
            None
        }
    }

    /// Creates a map with exactly `num_shards` shards, without a test of the
    /// number.
    pub fn with_num_shards_unchecked(num_shards: usize) -> (map: Self)
        requires
            is_shard_count(num_shards),
        ensures
            map.shard_count() == num_shards,
    {
        let mut shards: Vec<CachePadded<Shard<T>>> = Vec::new();
        let mut index: usize = 0;
        while index < num_shards
            invariant
                index <= num_shards,
                shards.len() == index,
            decreases num_shards - index,
        {
            shards.push(
                pad(Shard { inner: new_lock(unsync::SlotMap::new()), len: AtomicUsize::new(0) }),
            );
            index += 1;
        }
        SlotMap { shards, rr: AtomicUsize::new(0) }
    }

    /// Returns the number of shards.
    pub fn num_shards(&self) -> (num_shards: usize)
        ensures
            num_shards == self.shard_count(),
            is_shard_count(num_shards),
    {
        proof {
            use_type_invariant(self);
        }
        self.shards.len()
    }

    /// The shard with the given index.
    fn shard(&self, shard_index: usize) -> &Shard<T>
        requires
            shard_index < self.shard_count(),
    {
        padded(&self.shards[shard_index])
    }

    /// Returns the sum of the shards' counts of live entries, each read on
    /// its own: the number of live entries where no other thread changes the
    /// map meanwhile, and an approximation of it otherwise.
    pub fn len(&self) -> usize {
        total_load(&self.loads())
    }

    /// Returns `true` if every shard reports that it has no live entry.
    pub fn is_empty(&self) -> bool {
        all_idle(&self.loads())
    }

    /// Reads the count of live entries of every shard, one shard after the
    /// other.
    fn loads(&self) -> (loads: Vec<usize>)
        ensures
            loads.len() == self.shard_count(),
    {
        let num_shards = self.num_shards();
        let mut loads: Vec<usize> = Vec::new();
        let mut index: usize = 0;
        while index < num_shards
            invariant
                index <= num_shards,
                num_shards == self.shard_count(),
                loads.len() == index,
            decreases num_shards - index,
        {
            loads.push(load(&self.shard(index).len));
            index += 1;
        }
        loads
    }

    /// Removes all entries from every shard, one shard after the other, each
    /// under its write lock.
    pub fn clear(&self) {
        let num_shards = self.num_shards();
        let mut index: usize = 0;
        while index < num_shards
            invariant
                index <= num_shards,
                num_shards == self.shard_count(),
            decreases num_shards - index,
        {
            let shard = self.shard(index);
            let mut guard = lock_write(&shard.inner);
            target_mut(&mut guard).clear();
            store(&shard.len, 0);
            index += 1;
        }
    }

    /// Returns `true` if `id` refers to a live entry.
    pub fn contains(&self, id: usize) -> bool {
        let (shard_index, id) = split(self.num_shards(), id);
        let guard = lock_read(&self.shard(shard_index).inner);
        target(&guard).contains(id)
    }

    /// Returns a read-locked guard for the value at `id`, or `None` if `id`
    /// is not a live entry.
    pub fn get(&self, id: usize) -> Option<MappedReadGuard<'_, T>> {
        let (shard_index, id) = split(self.num_shards(), id);
        let shard = self.shard(shard_index);
        try_map_read(lock_read(&shard.inner), |inner: &unsync::SlotMap<T>| inner.get(id))
    }

    /// Returns a write-locked guard for the value at `id`, or `None` if `id`
    /// is not a live entry.
    pub fn get_mut(&self, id: usize) -> Option<MappedWriteGuard<'_, T>> {
        let (shard_index, id) = split(self.num_shards(), id);
        let shard = self.shard(shard_index);
        try_map_write(lock_write(&shard.inner), |inner: &mut unsync::SlotMap<T>| inner.get_mut(id))
    }

    /// Inserts `value` into the least loaded of four shards and returns its
    /// identifier, which names that shard and the slot taken there.
    pub fn insert(&self, value: T) -> (id: usize)
        ensures
            exists|shard_index: usize, inner: usize|
                shard_index < self.shard_count() && id == merged(
                    self.shard_count(),
                    shard_index,
                    inner,
                ),
    {
        let shard_index = self.select_shard();
        let shard = self.shard(shard_index);
        let mut guard = lock_write(&shard.inner);
        let id = insert_into(target_mut(&mut guard), self.num_shards(), shard_index, value);
        increment(&shard.len);
        id
    }

    /// Reserves a slot as `insert` would take it and returns its identifier
    /// with a guard. The slot is not live until the guard is committed.
    pub fn lazy_insert(&self) -> (reserved: (usize, LazyInsert<'_, T>))
        ensures
            exists|shard_index: usize, inner: usize|
                shard_index < self.shard_count() && reserved.0 == merged(
                    self.shard_count(),
                    shard_index,
                    inner,
                ),
    {
        let shard_index = self.select_shard();
        let shard = self.shard(shard_index);
        let mut guard = lock_write(&shard.inner);
        let (id, inner) = reserve_in(target_mut(&mut guard), self.num_shards(), shard_index);
        (id, LazyInsert { guard, shard, id: inner })
    }

    /// Removes the entry at `id` and returns its value, or `None` if `id` is
    /// not a live entry.
    pub fn remove(&self, id: usize) -> Option<T> {
        let (shard_index, id) = split(self.num_shards(), id);
        let shard = self.shard(shard_index);
        let mut guard = lock_write(&shard.inner);
        let value = target_mut(&mut guard).remove(id)?;
        decrement(&shard.len);
        Some(value)
    }

    /// Swaps the values at `id0` and `id1`. Returns `None` if either is not
    /// a live entry. Where the two are in different shards, both write locks
    /// are taken, that of the shard with the lower index first, or last if
    /// `reverse` is set.
    pub fn swap(&self, id0: usize, id1: usize, reverse: bool) -> Option<()> {
        let (shard_index0, id0) = split(self.num_shards(), id0);
        let (shard_index1, id1) = split(self.num_shards(), id1);
        if shard_index0 == shard_index1 {
            let shard = self.shard(shard_index0);
            let mut guard = lock_write(&shard.inner);
            target_mut(&mut guard).swap(id0, id1)
        } else {
            let shard0 = self.shard(shard_index0);
            let shard1 = self.shard(shard_index1);
            let mut guard0;
            let mut guard1;
            if locks_first_shard_first(shard_index0, shard_index1, reverse) {
                guard0 = lock_write(&shard0.inner);
                guard1 = lock_write(&shard1.inner);
            } else {
                guard1 = lock_write(&shard1.inner);
                guard0 = lock_write(&shard0.inner);
            }
            swap_between(target_mut(&mut guard0), id0, target_mut(&mut guard1), id1)
        }
    }

    /// Swaps the values at `id0` and `id1` for a caller who knows both to be
    /// live. The locks are taken as `swap` takes them; where one of the two
    /// is not live after all, nothing is swapped.
    pub fn swap_unchecked(&self, id0: usize, id1: usize, reverse: bool) {
        let _ = self.swap(id0, id1, reverse);
    }

    /// Picks the shard for the next insert: the least loaded of four, a
    /// quarter of the shards apart, starting from the round-robin counter
    /// after it was incremented; the first of them where several are the
    /// least loaded.
    fn select_shard(&self) -> (shard_index: usize)
        ensures
            shard_index < self.shard_count(),
    {
        let num_shards = self.num_shards();
        let round = increment(&self.rr).wrapping_add(1);
        let loads = [
            load(&self.shard(candidate(num_shards, round, 0)).len),
            load(&self.shard(candidate(num_shards, round, 1)).len),
            load(&self.shard(candidate(num_shards, round, 2)).len),
            load(&self.shard(candidate(num_shards, round, 3)).len),
        ];
        select(num_shards, round, &loads)
    }
}

impl<'a, T> LazyInsert<'a, T> {
    /// Stores `value` in the reserved slot, makes it live and releases the
    /// lock.
    pub fn commit(self, value: T) {
        let LazyInsert { mut guard, shard, id } = self;
        if commit_reserved(target_mut(&mut guard), id, value).is_none() {
            increment(&shard.len);
        }
    }

    /// Gives the reserved slot back to the free list of its shard and
    /// releases the lock.
    pub fn cancel(self) {
        let LazyInsert { mut guard, shard: _, id } = self;
        cancel_reserved(target_mut(&mut guard), id);
    }
}

} // verus!

use crate::unsync::state::lemma_cons_contains;
use crate::unsync::state::SlotState;
use crate::util::okok::Okok;
use vstd::prelude::*;

verus! {

/// Single-threaded slot map with stable, reusable identifiers.
///
/// A slot is either live (`Ok`, holding a value) or vacant (`Err`, holding a
/// link). A vacant slot on the free list links to the next free slot, the
/// last one to the length of the backing vector. A slot reserved by a lazy
/// insert links to itself, which no free slot ever does.
pub struct SlotMap<T> {
    entries: Vec<Result<T, usize>>,
    len: usize,
    next: usize,
    free: Ghost<Seq<usize>>,
}

/// The link that the `k`-th slot of the free list holds.
spec fn link_after(free: Seq<usize>, k: int, slots: nat) -> usize {
    if k + 1 < free.len() {
        free[k + 1]
    } else {
        slots as usize
    }
}

/// The live entries that a backing vector holds.
spec fn live_of<T>(entries: Seq<Result<T, usize>>) -> Map<usize, T> {
    Map::new(
        |i: usize| i < entries.len() && entries[i as int] is Ok,
        |i: usize| entries[i as int]->Ok_0,
    )
}

/// The reserved slots of a backing vector: those that link to themselves.
spec fn reserved_of<T>(entries: Seq<Result<T, usize>>) -> Set<usize> {
    Set::new(|i: usize| i < entries.len() && entries[i as int] == Err::<T, usize>(i))
}

/// The state that a backing vector stands for, given its free list.
spec fn state_of<T>(entries: Seq<Result<T, usize>>, free: Seq<usize>) -> SlotState<T> {
    SlotState {
        live: live_of(entries),
        free,
        reserved: reserved_of(entries),
        slots: entries.len(),
    }
}

/// How the backing vector realises a free list.
spec fn chained<T>(entries: Seq<Result<T, usize>>, free: Seq<usize>) -> bool {
    forall|k: int|
        0 <= k < free.len() ==> (#[trigger] free[k]) < entries.len() && entries[free[k] as int]
            == Err::<T, usize>(link_after(free, k, entries.len()))
}

/// What the fields of a slot map have to do with each other.
spec fn consistent<T>(
    entries: Seq<Result<T, usize>>,
    len: usize,
    next: usize,
    free: Seq<usize>,
) -> bool {
    &&& state_of(entries, free).wf()
    &&& chained(entries, free)
    &&& len == live_of(entries).dom().len()
    &&& next == state_of(entries, free).next_id()
}

/// An empty backing vector stands for the empty state.
proof fn lemma_empty_consistent<T>()
    ensures
        consistent(Seq::<Result<T, usize>>::empty(), 0, 0, Seq::empty()),
        state_of(Seq::<Result<T, usize>>::empty(), Seq::empty()) == SlotState::<T>::empty(),
{
    let entries = Seq::<Result<T, usize>>::empty();
    assert(live_of(entries) =~= Map::<usize, T>::empty());
    assert(reserved_of(entries) =~= Set::<usize>::empty());
    assert(state_of(entries, Seq::empty()) =~= SlotState::<T>::empty());
}

/// What taking the next identifier does to the backing vector: `slot` is
/// written where the free list pointed, or appended when the list was empty.
spec fn entries_after_take<T>(
    entries: Seq<Result<T, usize>>,
    next: usize,
    slot: Result<T, usize>,
) -> Seq<Result<T, usize>> {
    if next < entries.len() {
        entries.update(next as int, slot)
    } else {
        entries.push(slot)
    }
}

/// The cursor once the identifier at `next` has been handed out.
spec fn next_after_take<T>(
    entries: Seq<Result<T, usize>>,
    next: usize,
    free: Seq<usize>,
) -> usize {
    if next < entries.len() {
        link_after(free, 0, entries.len())
    } else {
        (entries.len() + 1) as usize
    }
}

/// Taking the next identifier, for a value or for a reservation.
proof fn lemma_take_slot<T>(
    entries: Seq<Result<T, usize>>,
    len: usize,
    next: usize,
    free: Seq<usize>,
    slot: Result<T, usize>,
)
    requires
        consistent(entries, len, next, free),
        next == entries.len() ==> entries.len() < usize::MAX,
        slot is Ok || slot == Err::<T, usize>(next),
    ensures
        next <= entries.len(),
        next < entries.len() <==> free.len() > 0,
        next < entries.len() ==> entries[next as int] == Err::<T, usize>(
            next_after_take(entries, next, free),
        ),
        len < usize::MAX,
        chained(
            entries_after_take(entries, next, slot),
            state_of(entries, free).take_next().0,
        ),
        slot is Ok ==> state_of(
            entries_after_take(entries, next, slot),
            state_of(entries, free).take_next().0,
        ) == state_of(entries, free).insert(slot->Ok_0),
        slot is Err ==> state_of(
            entries_after_take(entries, next, slot),
            state_of(entries, free).take_next().0,
        ) == state_of(entries, free).reserve(),
        state_of(
            entries_after_take(entries, next, slot),
            state_of(entries, free).take_next().0,
        ).next_id() == next_after_take(entries, next, free),
{
    let s = state_of(entries, free);
    s.lemma_take_next();
    let entries2 = entries_after_take(entries, next, slot);
    let free2 = s.take_next().0;
    if free.len() > 0 {
        assert(free[0] == next);
        assert(entries[next as int] == Err::<T, usize>(link_after(free, 0, entries.len())));
        assert(s.free.contains(free[0]));
        assert(s.groups(next) == 1);
        assert forall|k: int| 0 <= k < free2.len() implies (#[trigger] free2[k]) < entries2.len()
            && entries2[free2[k] as int] == Err::<T, usize>(
            link_after(free2, k, entries2.len()),
        ) by {
            assert(free2[k] == free[k + 1]);
            assert(free2.contains(free2[k]));
        }
    }
    assert(s.groups(next) == (if next < s.slots { 1int } else { 0 }));
    if slot is Ok {
        s.lemma_insert(slot->Ok_0);
        assert(live_of(entries2) =~= s.live.insert(next, slot->Ok_0));
        assert(reserved_of(entries2) =~= s.reserved);
        assert(state_of(entries2, free2) =~= s.insert(slot->Ok_0));
    } else {
        s.lemma_reserve();
        assert(live_of(entries2) =~= s.live);
        assert(reserved_of(entries2) =~= s.reserved.insert(next));
        assert(state_of(entries2, free2) =~= s.reserve());
    }
}

/// Putting a live or a reserved slot on the free list.
proof fn lemma_vacate_slot<T>(
    entries: Seq<Result<T, usize>>,
    len: usize,
    next: usize,
    free: Seq<usize>,
    id: usize,
)
    requires
        consistent(entries, len, next, free),
        id < entries.len(),
        entries[id as int] is Ok || entries[id as int] == Err::<T, usize>(id),
    ensures
        entries[id as int] is Ok ==> len > 0,
        chained(entries.update(id as int, Err(next)), seq![id] + free),
        entries[id as int] is Ok ==> state_of(
            entries.update(id as int, Err(next)),
            seq![id] + free,
        ) == state_of(entries, free).remove(id),
        entries[id as int] is Err ==> state_of(
            entries.update(id as int, Err(next)),
            seq![id] + free,
        ) == state_of(entries, free).release(id),
        state_of(entries.update(id as int, Err(next)), seq![id] + free).next_id() == id,
{
    let s = state_of(entries, free);
    let entries2 = entries.update(id as int, Err::<T, usize>(next));
    let free2 = seq![id] + free;
    assert(s.groups(id) == 1);
    lemma_cons_contains(id, free);
    assert(free2[0] == id);
    if free.len() > 0 {
        assert(free.contains(free[0]));
    }
    assert(next != id);
    assert forall|k: int| 0 <= k < free2.len() implies (#[trigger] free2[k]) < entries2.len()
        && entries2[free2[k] as int] == Err::<T, usize>(link_after(free2, k, entries2.len())) by {
        if k > 0 {
            assert(free2[k] == free[k - 1]);
            assert(free.contains(free[k - 1]));
            assert(link_after(free2, k, entries2.len()) == link_after(
                free,
                k - 1,
                entries.len(),
            ));
        }
    }
    if entries[id as int] is Ok {
        s.lemma_remove(id);
        assert(live_of(entries2) =~= s.live.remove(id));
        assert(reserved_of(entries2) =~= s.reserved);
        assert(state_of(entries2, free2) =~= s.remove(id));
    } else {
        s.lemma_release(id);
        assert(live_of(entries2) =~= s.live);
        assert(reserved_of(entries2) =~= s.reserved.remove(id));
        assert(state_of(entries2, free2) =~= s.release(id));
    }
}

/// Writing a value into a live or a reserved slot.
proof fn lemma_fill_slot<T>(
    entries: Seq<Result<T, usize>>,
    len: usize,
    next: usize,
    free: Seq<usize>,
    id: usize,
    value: T,
)
    requires
        consistent(entries, len, next, free),
        id < entries.len(),
        entries[id as int] is Ok || entries[id as int] == Err::<T, usize>(id),
    ensures
        chained(entries.update(id as int, Ok(value)), free),
        state_of(entries.update(id as int, Ok(value)), free).next_id() == next,
        entries[id as int] is Ok ==> consistent(
            entries.update(id as int, Ok(value)),
            len,
            next,
            free,
        ) && state_of(entries.update(id as int, Ok(value)), free) == state_of(entries, free).set(
            id,
            value,
        ),
        entries[id as int] is Err ==> len < usize::MAX && consistent(
            entries.update(id as int, Ok(value)),
            (len + 1) as usize,
            next,
            free,
        ) && state_of(entries.update(id as int, Ok(value)), free) == state_of(
            entries,
            free,
        ).commit(id, value),
{
    let s = state_of(entries, free);
    let entries2 = entries.update(id as int, Ok::<T, usize>(value));
    assert(s.groups(id) == 1);
    assert forall|k: int| 0 <= k < free.len() implies (#[trigger] free[k]) < entries2.len()
        && entries2[free[k] as int] == Err::<T, usize>(link_after(free, k, entries2.len())) by {
        assert(free.contains(free[k]));
    }
    assert(reserved_of(entries2) =~= s.reserved.remove(id));
    if entries[id as int] is Ok {
        s.lemma_set(id, value);
        assert(live_of(entries2) =~= s.live.insert(id, value));
        assert(s.reserved.remove(id) =~= s.reserved);
        assert(state_of(entries2, free) =~= s.set(id, value));
    } else {
        s.lemma_commit(id, value);
        assert(live_of(entries2) =~= s.live.insert(id, value));
        assert(state_of(entries2, free) =~= s.commit(id, value));
    }
}

/// Exchanging what two live slots hold.
proof fn lemma_swap_slots<T>(
    entries: Seq<Result<T, usize>>,
    len: usize,
    next: usize,
    free: Seq<usize>,
    id0: usize,
    id1: usize,
)
    requires
        consistent(entries, len, next, free),
        id0 < entries.len(),
        id1 < entries.len(),
        entries[id0 as int] is Ok,
        entries[id1 as int] is Ok,
    ensures
        consistent(
            entries.update(id0 as int, entries[id1 as int]).update(id1 as int, entries[id0 as int]),
            len,
            next,
            free,
        ),
        state_of(
            entries.update(id0 as int, entries[id1 as int]).update(id1 as int, entries[id0 as int]),
            free,
        ) == state_of(entries, free).swap(id0, id1),
{
    let s = state_of(entries, free);
    let entries2 = entries.update(id0 as int, entries[id1 as int]).update(
        id1 as int,
        entries[id0 as int],
    );
    s.lemma_swap(id0, id1);
    assert(s.groups(id0) == 1);
    assert(s.groups(id1) == 1);
    assert forall|k: int| 0 <= k < free.len() implies (#[trigger] free[k]) < entries2.len()
        && entries2[free[k] as int] == Err::<T, usize>(link_after(free, k, entries2.len())) by {
        assert(free.contains(free[k]));
    }
    assert(live_of(entries2) =~= s.swap(id0, id1).live);
    assert(reserved_of(entries2) =~= s.reserved);
    assert(state_of(entries2, free) =~= s.swap(id0, id1));
}

impl<T> SlotMap<T> {
    /// What holds of every slot map at all times.
    #[verifier::type_invariant]
    pub closed spec fn well_formed(&self) -> bool {
        consistent(self.entries@, self.len, self.next, self.free@)
    }

    /// The state of a slot map is well formed.
    pub proof fn lemma_well_formed(&self)
        requires
            self.well_formed(),
        ensures
            self.state().wf(),
    {
    }

    /// The full mathematical state.
    pub closed spec fn state(&self) -> SlotState<T> {
        state_of(self.entries@, self.free@)
    }

    /// The live entries, by identifier.
    pub open spec fn view(&self) -> Map<usize, T> {
        self.state().live
    }

    /// Creates an empty map.
    pub fn new() -> (map: Self)
        ensures
            map.state() == SlotState::<T>::empty(),
    {
        proof {
            lemma_empty_consistent::<T>();
        }
        SlotMap { entries: Vec::new(), len: 0, next: 0, free: Ghost(Seq::empty()) }
    }

    /// Returns the number of slots, live or vacant: every identifier in use
    /// is below it.
    pub fn slots(&self) -> (n: usize)
        ensures
            n == self.state().slots,
    {
        self.entries.len()
    }

    /// Returns the number of live entries.
    pub fn len(&self) -> (n: usize)
        ensures
            n == self@.len(),
    {
        proof {
            use_type_invariant(self);
        }
        self.len
    }

    /// Returns `true` if there are no live entries.
    pub fn is_empty(&self) -> (b: bool)
        ensures
            b == (self@.len() == 0),
    {
        proof {
            use_type_invariant(self);
        }
        self.len == 0
    }

    /// Returns `true` if `id` refers to a live entry.
    pub fn contains(&self, id: usize) -> (b: bool)
        ensures
            b == self@.contains_key(id),
    {
        if id < self.entries.len() {
            match &self.entries[id] {
                Ok(_) => true,
                Err(_) => false,
            }
        } else {
            false
        }
    }

    /// Returns a shared reference to the value at `id`, or `None` if `id` is
    /// not a live entry.
    pub fn get(&self, id: usize) -> (value: Option<&T>)
        ensures
            value == (if self@.contains_key(id) {
                Some(&self@[id])
            } else {
                None::<&T>
            }),
    {
        if id < self.entries.len() {
            (&self.entries[id]).okok()
        } else {
            None
        }
    }

    /// Returns a shared reference to the value at `id` without a liveness
    /// test.
    pub fn get_unchecked(&self, id: usize) -> (value: &T)
        requires
            self@.contains_key(id),
        ensures
            *value == self@[id],
    {
        (&self.entries[id]).okok_unchecked()
    }

    /// Returns an exclusive reference to the value at `id`, or `None` if `id`
    /// is not a live entry. Whatever the caller writes through the reference
    /// becomes the value at `id`.
    pub fn get_mut(&mut self, id: usize) -> (value: Option<&mut T>)
        ensures
            match value {
                Some(value) => old(self)@.contains_key(id) && *value == old(self)@[id]
                    && final(self).state() == old(self).state().set(id, *final(value)),
                None => !old(self)@.contains_key(id) && final(self).state() == old(self).state(),
            },
    {
        proof {
            use_type_invariant(&*self);
            let (entries, len, next, free) = (self.entries@, self.len, self.next, self.free@);
            if self@.contains_key(id) {
                assert forall|v: T|
                    consistent(#[trigger] entries.update(id as int, Ok(v)), len, next, free)
                        && state_of(entries.update(id as int, Ok(v)), free) == state_of(
                        entries,
                        free,
                    ).set(id, v) by {
                    lemma_fill_slot(entries, len, next, free, id, v);
                }
            }
        }
        live_slot_mut(&mut self.entries, id)
    }

    /// Returns an exclusive reference to the value at `id` without a liveness
    /// test.
    pub fn get_unchecked_mut(&mut self, id: usize) -> (value: &mut T)
        requires
            old(self)@.contains_key(id),
        ensures
            *value == old(self)@[id],
            final(self).state() == old(self).state().set(id, *final(value)),
    {
        self.get_mut(id).unwrap()
    }

    /// Inserts `value` and returns its identifier: the head of the free list
    /// when there is one, a fresh slot otherwise.
    pub fn insert(&mut self, value: T) -> (id: usize)
        ensures
            id == old(self).state().next_id(),
            !old(self)@.contains_key(id),
            final(self).state() == old(self).state().insert(value),
            final(self)@ == old(self)@.insert(id, value),
            final(self)@.len() == old(self)@.len() + 1,
    {
        proof {
            use_type_invariant(&*self);
        }
        let mut owned = Self::new();
        core::mem::swap(self, &mut owned);
        let SlotMap { mut entries, len, next, free } = owned;
        let ghost before = entries@;
        let id = next;
        let mut slot = Ok(value);
        let new_next = if entries.len() == id {
            entries.push(slot);
            entries.len()
        } else {
            proof {
                lemma_take_slot(before, len, next, free@, slot);
            }
            core::mem::swap(&mut entries[id], &mut slot);
            link_of(slot)
        };
        proof {
            lemma_take_slot(before, len, next, free@, Ok(value));
            state_of(before, free@).lemma_insert(value);
        }
        *self = SlotMap {
            entries,
            len: len + 1,
            next: new_next,
            free: Ghost(state_of(before, free@).take_next().0),
        };
        id
    }

    /// Removes the entry at `id` and returns its value, or `None` if `id` is
    /// not a live entry.
    pub fn remove(&mut self, id: usize) -> (value: Option<T>)
        ensures
            match value {
                Some(value) => old(self)@.contains_key(id) && value == old(self)@[id]
                    && final(self).state() == old(self).state().remove(id) && final(self)@.len()
                    == old(self)@.len() - 1,
                None => !old(self)@.contains_key(id) && final(self).state() == old(self).state(),
            },
    {
        if !self.contains(id) {
            return None;
        }
        Some(self.remove_unchecked(id))
    }

    /// Removes the entry at `id` and returns its value without a liveness
    /// test. The slot becomes the head of the free list.
    pub fn remove_unchecked(&mut self, id: usize) -> (value: T)
        requires
            old(self)@.contains_key(id),
        ensures
            value == old(self)@[id],
            final(self).state() == old(self).state().remove(id),
            final(self)@ == old(self)@.remove(id),
            final(self)@.len() == old(self)@.len() - 1,
            final(self).state().next_id() == id,
    {
        proof {
            use_type_invariant(&*self);
        }
        let mut owned = Self::new();
        core::mem::swap(self, &mut owned);
        let SlotMap { mut entries, len, next, free } = owned;
        proof {
            lemma_vacate_slot(entries@, len, next, free@, id);
            state_of(entries@, free@).lemma_remove(id);
        }
        let mut slot = Err(next);
        core::mem::swap(&mut entries[id], &mut slot);
        *self = SlotMap { entries, len: len - 1, next: id, free: Ghost(seq![id] + free@) };
        slot.okok_unchecked()
    }

    /// Swaps the values at `id0` and `id1`. Returns `None`, and changes
    /// nothing, if either is not a live entry.
    pub fn swap(&mut self, id0: usize, id1: usize) -> (done: Option<()>)
        ensures
            done is Some <==> old(self)@.contains_key(id0) && old(self)@.contains_key(id1),
            done is Some ==> final(self).state() == old(self).state().swap(id0, id1),
            done is None ==> final(self).state() == old(self).state(),
    {
        if !(self.contains(id0) && self.contains(id1)) {
            return None;
        }
        if id0 != id1 {
            self.swap_unchecked(id0, id1);
        } else {
            proof {
                use_type_invariant(&*self);
                self.state().lemma_swap(id0, id1);
            }
        }
        Some(())
    }

    /// Swaps the values at `id0` and `id1` without a liveness test.
    pub fn swap_unchecked(&mut self, id0: usize, id1: usize)
        requires
            old(self)@.contains_key(id0),
            old(self)@.contains_key(id1),
            id0 != id1,
        ensures
            final(self).state() == old(self).state().swap(id0, id1),
    {
        proof {
            use_type_invariant(&*self);
        }
        let mut owned = Self::new();
        core::mem::swap(self, &mut owned);
        let SlotMap { mut entries, len, next, free } = owned;
        proof {
            lemma_swap_slots(entries@, len, next, free@, id0, id1);
        }
        crate::util::swap::swap_unchecked(&mut entries, id0, id1);
        *self = SlotMap { entries, len, next, free };
    }

    /// Removes all entries and resets the free list.
    pub fn clear(&mut self)
        ensures
            final(self).state() == SlotState::<T>::empty(),
    {
        *self = Self::new();
    }

    /// Reserves the slot that an insert would take, without making it live,
    /// and returns its identifier.
    pub fn prepare_lazy_insert(&mut self) -> (id: usize)
        ensures
            id == old(self).state().next_id(),
            final(self).state() == old(self).state().reserve(),
            final(self).state().reserved.contains(id),
    {
        proof {
            use_type_invariant(&*self);
        }
        let mut owned = Self::new();
        core::mem::swap(self, &mut owned);
        let SlotMap { mut entries, len, next, free } = owned;
        let ghost before = entries@;
        let id = next;
        let mut slot = Err(id);
        let new_next = if entries.len() == id {
            entries.push(slot);
            entries.len()
        } else {
            proof {
                lemma_take_slot(before, len, next, free@, slot);
            }
            core::mem::swap(&mut entries[id], &mut slot);
            link_of(slot)
        };
        proof {
            lemma_take_slot(before, len, next, free@, Err(id));
            state_of(before, free@).lemma_reserve();
        }
        *self = SlotMap {
            entries,
            len,
            next: new_next,
            free: Ghost(state_of(before, free@).take_next().0),
        };
        id
    }

    /// Returns `true` if `id` is reserved by a lazy insert that was neither
    /// committed nor dropped.
    pub fn is_reserved(&self, id: usize) -> (b: bool)
        ensures
            b == self.state().reserved.contains(id),
    {
        if id < self.entries.len() {
            match &self.entries[id] {
                Ok(_) => false,
                Err(link) => *link == id,
            }
        } else {
            false
        }
    }

    /// Stores `value` in the slot reserved under `id` and makes it live.
    pub fn commit_lazy_insert(&mut self, id: usize, value: T)
        requires
            old(self).state().reserved.contains(id),
        ensures
            final(self).state() == old(self).state().commit(id, value),
            final(self)@ == old(self)@.insert(id, value),
    {
        proof {
            use_type_invariant(&*self);
        }
        let mut owned = Self::new();
        core::mem::swap(self, &mut owned);
        let SlotMap { mut entries, len, next, free } = owned;
        proof {
            lemma_fill_slot(entries@, len, next, free@, id, value);
        }
        let mut slot = Ok(value);
        core::mem::swap(&mut entries[id], &mut slot);
        *self = SlotMap { entries, len: len + 1, next, free };
    }

    /// Gives the reservation of `id` up: the slot becomes the head of the
    /// free list.
    pub fn drop_lazy_insert(&mut self, id: usize)
        requires
            old(self).state().reserved.contains(id),
        ensures
            final(self).state() == old(self).state().release(id),
            final(self)@ == old(self)@,
    {
        proof {
            use_type_invariant(&*self);
        }
        let mut owned = Self::new();
        core::mem::swap(self, &mut owned);
        let SlotMap { mut entries, len, next, free } = owned;
        proof {
            lemma_vacate_slot(entries@, len, next, free@, id);
            state_of(entries@, free@).lemma_release(id);
        }
        let mut slot = Err(next);
        core::mem::swap(&mut entries[id], &mut slot);
        *self = SlotMap { entries, len, next: id, free: Ghost(seq![id] + free@) };
    }
}

impl<T> Default for SlotMap<T> {
    /// Creates an empty map.
    fn default() -> (map: Self)
        ensures
            map.state() == SlotState::<T>::empty(),
    {
        Self::new()
    }
}

/// The link that a vacant slot holds.
fn link_of<T>(slot: Result<T, usize>) -> (link: usize)
    requires
        slot is Err,
    ensures
        slot == Err::<T, usize>(link),
{
    match slot {
        Ok(_) => unreached(),
        Err(link) => link,
    }
}

/// An exclusive reference to the value in slot `id`, if the slot is live.
fn live_slot_mut<T>(entries: &mut Vec<Result<T, usize>>, id: usize) -> (value: Option<&mut T>)
    ensures
        match value {
            Some(value) => id < old(entries).len() && old(entries)[id as int] == Ok::<T, usize>(
                *value,
            ) && final(entries)@ == old(entries)@.update(id as int, Ok(*final(value))),
            None => !(id < old(entries).len() && old(entries)[id as int] is Ok) && final(entries)@
                == old(entries)@,
        },
    no_unwind
{
    if id < entries.len() {
        match &mut entries[id] {
            Ok(value) => Some(value),
            Err(_) => None,
        }
    } else {
        None
    }
}

} // verus!

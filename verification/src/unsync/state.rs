use vstd::prelude::*;

verus! {

/// The mathematical state of a slot map: which identifiers hold a value,
/// which are waiting on the free list (head first), which are reserved by a
/// lazy insert, and how many slots have ever been allocated.
#[verifier::ext_equal]
pub struct SlotState<T> {
    pub live: Map<usize, T>,
    pub free: Seq<usize>,
    pub reserved: Set<usize>,
    pub slots: nat,
}

impl<T> SlotState<T> {
    /// The state of a map that has never held anything.
    pub open spec fn empty() -> Self {
        SlotState { live: Map::empty(), free: Seq::empty(), reserved: Set::empty(), slots: 0 }
    }

    /// In how many of the three groups (live, free, reserved) slot `i` is.
    pub open spec fn groups(self, i: usize) -> int {
        (if self.live.contains_key(i) {
            1int
        } else {
            0
        }) + (if self.free.contains(i) {
            1int
        } else {
            0
        }) + (if self.reserved.contains(i) {
            1int
        } else {
            0
        })
    }

    /// Every slot below `slots` is in exactly one of the three groups, and
    /// nothing above it is in any.
    pub open spec fn wf(self) -> bool {
        &&& self.live.dom().finite()
        &&& self.reserved.finite()
        &&& self.free.no_duplicates()
        &&& self.slots <= usize::MAX
        &&& self.live.dom().len() + self.free.len() + self.reserved.len() == self.slots
        &&& forall|i: usize| #[trigger] self.groups(i) == (if i < self.slots { 1int } else { 0 })
    }

    /// The identifier that the next insert or reservation hands out: the head
    /// of the free list, or a fresh slot when the list is empty.
    pub open spec fn next_id(self) -> usize {
        if self.free.len() > 0 {
            self.free[0]
        } else {
            self.slots as usize
        }
    }

    /// The free list and slot count once `next_id` has been handed out.
    pub open spec fn take_next(self) -> (Seq<usize>, nat) {
        if self.free.len() > 0 {
            (self.free.drop_first(), self.slots)
        } else {
            (self.free, self.slots + 1)
        }
    }

    /// The state after an insert of `value`, which takes `next_id`.
    pub open spec fn insert(self, value: T) -> Self {
        SlotState {
            live: self.live.insert(self.next_id(), value),
            free: self.take_next().0,
            reserved: self.reserved,
            slots: self.take_next().1,
        }
    }

    /// The state after the removal of the live entry `id`, which becomes
    /// the head of the free list.
    pub open spec fn remove(self, id: usize) -> Self {
        SlotState {
            live: self.live.remove(id),
            free: seq![id] + self.free,
            reserved: self.reserved,
            slots: self.slots,
        }
    }

    /// The value at `id` replaced by `value`; nothing else changes.
    pub open spec fn set(self, id: usize, value: T) -> Self {
        SlotState { live: self.live.insert(id, value), ..self }
    }

    /// The state after the values of the live entries `id0` and `id1` have
    /// changed places.
    pub open spec fn swap(self, id0: usize, id1: usize) -> Self {
        SlotState {
            live: self.live.insert(id0, self.live[id1]).insert(id1, self.live[id0]),
            ..self
        }
    }

    /// The state after a reservation, which takes `next_id` without making
    /// it live.
    pub open spec fn reserve(self) -> Self {
        SlotState {
            live: self.live,
            free: self.take_next().0,
            reserved: self.reserved.insert(self.next_id()),
            slots: self.take_next().1,
        }
    }

    /// The state after the reserved identifier `id` has become live with
    /// `value`.
    pub open spec fn commit(self, id: usize, value: T) -> Self {
        SlotState {
            live: self.live.insert(id, value),
            free: self.free,
            reserved: self.reserved.remove(id),
            slots: self.slots,
        }
    }

    /// The state after the reservation of `id` has been given up: `id`
    /// becomes the head of the free list.
    pub open spec fn release(self, id: usize) -> Self {
        SlotState {
            live: self.live,
            free: seq![id] + self.free,
            reserved: self.reserved.remove(id),
            slots: self.slots,
        }
    }
}

/// What a sequence without duplicates holds beside its first element.
proof fn lemma_drop_first_contains(s: Seq<usize>)
    requires
        s.len() > 0,
        s.no_duplicates(),
    ensures
        s.drop_first().no_duplicates(),
        !s.drop_first().contains(s[0]),
        forall|x: usize| s.contains(x) <==> (x == s[0] || s.drop_first().contains(x)),
{
    let t = s.drop_first();
    assert forall|i: int, j: int| 0 <= i < t.len() && 0 <= j < t.len() && i != j implies t[i]
        != t[j] by {
        assert(t[i] == s[i + 1] && t[j] == s[j + 1]);
    }
    assert forall|x: usize| s.contains(x) <==> (x == s[0] || t.contains(x)) by {
        if s.contains(x) {
            let k = choose|k: int| 0 <= k < s.len() && s[k] == x;
            if k > 0 {
                assert(t[k - 1] == x);
            }
        }
        if t.contains(x) {
            let k = choose|k: int| 0 <= k < t.len() && t[k] == x;
            assert(s[k + 1] == x);
        }
    }
    if t.contains(s[0]) {
        let k = choose|k: int| 0 <= k < t.len() && t[k] == s[0];
        assert(s[k + 1] == s[0]);
    }
}

/// What a sequence without duplicates holds once a new element is put in
/// front.
pub(crate) proof fn lemma_cons_contains(id: usize, s: Seq<usize>)
    requires
        s.no_duplicates(),
        !s.contains(id),
    ensures
        (seq![id] + s).no_duplicates(),
        forall|x: usize| (seq![id] + s).contains(x) <==> (x == id || s.contains(x)),
{
    let t = seq![id] + s;
    assert forall|i: int, j: int| 0 <= i < t.len() && 0 <= j < t.len() && i != j implies t[i]
        != t[j] by {
        if i > 0 {
            assert(t[i] == s[i - 1]);
            assert(s.contains(s[i - 1]));
        }
        if j > 0 {
            assert(t[j] == s[j - 1]);
            assert(s.contains(s[j - 1]));
        }
    }
    assert forall|x: usize| t.contains(x) <==> (x == id || s.contains(x)) by {
        if t.contains(x) {
            let k = choose|k: int| 0 <= k < t.len() && t[k] == x;
            if k > 0 {
                assert(s[k - 1] == x);
            }
        }
        if s.contains(x) {
            let k = choose|k: int| 0 <= k < s.len() && s[k] == x;
            assert(t[k + 1] == x);
        }
        assert(t[0] == id);
    }
}

impl<T> SlotState<T> {
    /// Handing out the next identifier keeps the state well formed, and the
    /// identifier was in use by nothing live.
    pub proof fn lemma_take_next(self)
        requires
            self.wf(),
        ensures
            !self.live.contains_key(self.next_id()),
            !self.reserved.contains(self.next_id()),
            self.free.len() > 0 ==> self.next_id() < self.slots,
            self.free.len() == 0 ==> self.next_id() == self.slots,
            self.take_next().0.no_duplicates(),
            !self.take_next().0.contains(self.next_id()),
            forall|x: usize|
                self.free.contains(x) <==> ((self.free.len() > 0 && x == self.next_id())
                    || self.take_next().0.contains(x)),
    {
        let id = self.next_id();
        assert(self.groups(id) == (if id < self.slots { 1int } else { 0 }));
        if self.free.len() > 0 {
            lemma_drop_first_contains(self.free);
            assert(self.free.contains(self.free[0]));
        }
    }

    /// An insert keeps the state well formed, uses an identifier that
    /// was not live, and makes the map one entry larger.
    pub proof fn lemma_insert(self, value: T)
        requires
            self.wf(),
            self.free.len() == 0 ==> self.slots < usize::MAX,
        ensures
            self.insert(value).wf(),
            !self.live.contains_key(self.next_id()),
            self.insert(value).live.contains_key(self.next_id()),
            self.insert(value).live[self.next_id()] == value,
            self.insert(value).live.len() == self.live.len() + 1,
    {
        self.lemma_take_next();
        let after = self.insert(value);
        let id = self.next_id();
        assert(after.live.dom() =~= self.live.dom().insert(id));
        assert forall|i: usize|
            #[trigger] after.groups(i) == (if i < after.slots { 1int } else { 0 }) by {
            assert(self.groups(i) == (if i < self.slots { 1int } else { 0 }));
        }
    }

    /// Removing a live entry keeps the state well formed, makes the map
    /// one entry smaller, and puts the identifier at the head of the free
    /// list, so that the next insert hands it out again.
    pub proof fn lemma_remove(self, id: usize)
        requires
            self.wf(),
            self.live.contains_key(id),
        ensures
            self.remove(id).wf(),
            !self.remove(id).live.contains_key(id),
            self.remove(id).live.len() == self.live.len() - 1,
            self.remove(id).next_id() == id,
    {
        assert(self.groups(id) == 1);
        lemma_cons_contains(id, self.free);
        let after = self.remove(id);
        assert(after.live.dom() =~= self.live.dom().remove(id));
        assert(after.free[0] == id);
        assert forall|i: usize|
            #[trigger] after.groups(i) == (if i < after.slots { 1int } else { 0 }) by {
            assert(self.groups(i) == (if i < self.slots { 1int } else { 0 }));
        }
    }

    /// Replacing the value of a live entry changes nothing else.
    pub proof fn lemma_set(self, id: usize, value: T)
        requires
            self.wf(),
            self.live.contains_key(id),
        ensures
            self.set(id, value).wf(),
            self.set(id, value).live.dom() == self.live.dom(),
    {
        let after = self.set(id, value);
        assert(after.live.dom() =~= self.live.dom());
        assert forall|i: usize|
            #[trigger] after.groups(i) == (if i < after.slots { 1int } else { 0 }) by {
            assert(self.groups(i) == (if i < self.slots { 1int } else { 0 }));
        }
    }

    /// Swapping two live entries exchanges their values and changes
    /// nothing else.
    pub proof fn lemma_swap(self, id0: usize, id1: usize)
        requires
            self.wf(),
            self.live.contains_key(id0),
            self.live.contains_key(id1),
        ensures
            self.swap(id0, id1).wf(),
            self.swap(id0, id1).live.dom() == self.live.dom(),
            self.swap(id0, id1).live[id0] == self.live[id1],
            self.swap(id0, id1).live[id1] == self.live[id0],
            id0 == id1 ==> self.swap(id0, id1) == self,
    {
        let after = self.swap(id0, id1);
        assert(after.live.dom() =~= self.live.dom());
        assert forall|i: usize|
            #[trigger] after.groups(i) == (if i < after.slots { 1int } else { 0 }) by {
            assert(self.groups(i) == (if i < self.slots { 1int } else { 0 }));
        }
        if id0 == id1 {
            assert(after.live =~= self.live);
            assert(after =~= self);
        }
    }

    /// A reservation keeps the state well formed and takes the
    /// identifier that an insert would have taken, without making it live.
    pub proof fn lemma_reserve(self)
        requires
            self.wf(),
            self.free.len() == 0 ==> self.slots < usize::MAX,
        ensures
            self.reserve().wf(),
            self.reserve().reserved.contains(self.next_id()),
            self.reserve().live == self.live,
    {
        self.lemma_take_next();
        let after = self.reserve();
        assert forall|i: usize|
            #[trigger] after.groups(i) == (if i < after.slots { 1int } else { 0 }) by {
            assert(self.groups(i) == (if i < self.slots { 1int } else { 0 }));
        }
    }

    /// Committing a reservation makes the identifier live with the
    /// value given.
    pub proof fn lemma_commit(self, id: usize, value: T)
        requires
            self.wf(),
            self.reserved.contains(id),
        ensures
            self.commit(id, value).wf(),
            self.commit(id, value).live == self.live.insert(id, value),
            self.commit(id, value).live.len() == self.live.len() + 1,
            self.live.len() < self.slots,
    {
        let after = self.commit(id, value);
        assert(self.groups(id) == 1);
        assert(after.live.dom() =~= self.live.dom().insert(id));
        assert forall|i: usize|
            #[trigger] after.groups(i) == (if i < after.slots { 1int } else { 0 }) by {
            assert(self.groups(i) == (if i < self.slots { 1int } else { 0 }));
        }
    }

    /// Giving a reservation up puts the identifier at the head of the
    /// free list and leaves the live entries alone.
    pub proof fn lemma_release(self, id: usize)
        requires
            self.wf(),
            self.reserved.contains(id),
        ensures
            self.release(id).wf(),
            self.release(id).live == self.live,
            self.release(id).next_id() == id,
    {
        assert(self.groups(id) == 1);
        lemma_cons_contains(id, self.free);
        let after = self.release(id);
        assert(after.free[0] == id);
        assert forall|i: usize|
            #[trigger] after.groups(i) == (if i < after.slots { 1int } else { 0 }) by {
            assert(self.groups(i) == (if i < self.slots { 1int } else { 0 }));
        }
    }

    /// A live entry keeps its value through every operation on other
    /// identifiers: an insert, a reservation, and the removal, replacement,
    /// commit or release of another identifier, and a swap of two others.
    pub proof fn lemma_entry_persists(
        self,
        id: usize,
        other: usize,
        another: usize,
        value: T,
    )
        requires
            self.wf(),
            self.live.contains_key(id),
            other != id,
            another != id,
        ensures
            self.insert(value).live.contains_key(id) && self.insert(value).live[id]
                == self.live[id],
            self.reserve().live.contains_key(id) && self.reserve().live[id] == self.live[id],
            self.remove(other).live.contains_key(id) && self.remove(other).live[id]
                == self.live[id],
            self.set(other, value).live.contains_key(id) && self.set(other, value).live[id]
                == self.live[id],
            self.commit(other, value).live.contains_key(id) && self.commit(other, value).live[id]
                == self.live[id],
            self.release(other).live.contains_key(id) && self.release(other).live[id]
                == self.live[id],
            self.swap(other, another).live.contains_key(id) && self.swap(other, another).live[id]
                == self.live[id],
    {
        self.lemma_take_next();
    }

    /// An identifier that is not live stays so until an insert or a commit
    /// takes it: through the removal, replacement or release of any live
    /// identifier, a swap, a reservation, and an insert or a commit that
    /// takes another identifier.
    pub proof fn lemma_absent_stays_absent(
        self,
        id: usize,
        other: usize,
        another: usize,
        value: T,
    )
        requires
            self.wf(),
            !self.live.contains_key(id),
            self.live.contains_key(other),
            self.live.contains_key(another),
        ensures
            !self.remove(other).live.contains_key(id),
            !self.set(other, value).live.contains_key(id),
            !self.swap(other, another).live.contains_key(id),
            !self.reserve().live.contains_key(id),
            !self.release(id).live.contains_key(id),
            self.next_id() != id ==> !self.insert(value).live.contains_key(id),
            forall|reserved: usize|
                reserved != id ==> !self.commit(reserved, value).live.contains_key(id),
    {
    }

    /// The number of live entries goes up by one with an insert or a commit,
    /// down by one with a removal, and is left alone by everything else.
    pub proof fn lemma_len(self, id: usize, other: usize, reserved: usize, value: T)
        requires
            self.wf(),
            self.live.contains_key(id),
            self.live.contains_key(other),
            self.reserved.contains(reserved),
        ensures
            self.insert(value).live.len() == self.live.len() + 1,
            self.commit(reserved, value).live.len() == self.live.len() + 1,
            self.remove(id).live.len() == self.live.len() - 1,
            self.set(id, value).live.len() == self.live.len(),
            self.swap(id, other).live.len() == self.live.len(),
            self.reserve().live.len() == self.live.len(),
            self.release(reserved).live.len() == self.live.len(),
            Self::empty().live.len() == 0,
    {
        self.lemma_take_next();
        let id_next = self.next_id();
        assert(self.insert(value).live.dom() =~= self.live.dom().insert(id_next));
        self.lemma_commit(reserved, value);
        self.lemma_remove(id);
        self.lemma_set(id, value);
        self.lemma_swap(id, other);
    }

    /// An identifier freed by a removal is the one that the next insert
    /// returns, and the map is then as large as before the removal.
    pub proof fn lemma_remove_then_insert_reuses(self, id: usize, value: T)
        requires
            self.wf(),
            self.live.contains_key(id),
        ensures
            self.remove(id).next_id() == id,
            self.remove(id).insert(value).live == self.live.insert(id, value),
            self.remove(id).insert(value).free == self.free,
            self.remove(id).insert(value).live.len() == self.live.len(),
    {
        self.lemma_remove(id);
        let mid = self.remove(id);
        mid.lemma_insert(value);
        assert(mid.free.drop_first() =~= self.free);
        assert(mid.insert(value).live =~= self.live.insert(id, value));
        assert(self.live.insert(id, value).dom() =~= self.live.dom());
    }
}

} // verus!

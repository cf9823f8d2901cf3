use crate::unsync::slotmap::SlotMap;
use crate::unsync::state::SlotState;
use core::marker::PhantomData;
use vstd::prelude::*;

verus! {

/// The entries of `live` with identifiers from `low` up to, not including,
/// `high`, in ascending order of their identifiers.
pub open spec fn pairs_between<T>(live: Map<usize, T>, low: int, high: int) -> Seq<(usize, T)>
    decreases high - low,
{
    if low >= high {
        Seq::empty()
    } else if live.contains_key(low as usize) {
        seq![(low as usize, live[low as usize])] + pairs_between(live, low + 1, high)
    } else {
        pairs_between(live, low + 1, high)
    }
}

/// The last entry of a range of identifiers can be split off as the first
/// can.
pub proof fn lemma_pairs_split_last<T>(live: Map<usize, T>, low: int, high: int)
    requires
        low < high,
    ensures
        pairs_between(live, low, high) == (if live.contains_key((high - 1) as usize) {
            pairs_between(live, low, high - 1).push(
                ((high - 1) as usize, live[(high - 1) as usize]),
            )
        } else {
            pairs_between(live, low, high - 1)
        }),
    decreases high - low,
{
    if low + 1 < high {
        lemma_pairs_split_last(live, low + 1, high);
        let rest = pairs_between(live, low + 1, high - 1);
        if live.contains_key(low as usize) {
            let first = seq![(low as usize, live[low as usize])];
            if live.contains_key((high - 1) as usize) {
                let last = ((high - 1) as usize, live[(high - 1) as usize]);
                assert(first + rest.push(last) =~= (first + rest).push(last));
            }
        }
    } else {
        assert(pairs_between(live, low + 1, high) =~= Seq::<(usize, T)>::empty());
        assert(pairs_between(live, low, high - 1) =~= Seq::<(usize, T)>::empty());
        if live.contains_key(low as usize) {
            assert(seq![(low as usize, live[low as usize])] + Seq::<(usize, T)>::empty()
                =~= Seq::<(usize, T)>::empty().push((low as usize, live[low as usize])));
        }
    }
}

/// The entries of a range depend on that range of the map only.
pub proof fn lemma_pairs_agree<T>(before: Map<usize, T>, after: Map<usize, T>, low: int, high: int)
    requires
        0 <= low,
        high <= usize::MAX + 1,
        forall|id: usize|
            low <= id < high ==> (#[trigger] before.contains_key(id) == after.contains_key(id)) && (
            before.contains_key(id) ==> before[id] == after[id]),
    ensures
        pairs_between(before, low, high) == pairs_between(after, low, high),
    decreases high - low,
{
    if low < high {
        lemma_pairs_agree(before, after, low + 1, high);
        assert(before.contains_key(low as usize) == after.contains_key(low as usize));
    }
}

/// A range holds as many entries as it has live identifiers; none, if it has
/// none; and every entry in it is in the map.
pub proof fn lemma_pairs_in_map<T>(live: Map<usize, T>, low: int, high: int)
    requires
        0 <= low,
        high <= usize::MAX + 1,
    ensures
        forall|k: int|
            0 <= k < pairs_between(live, low, high).len() ==> {
                let pair = #[trigger] pairs_between(live, low, high)[k];
                low <= pair.0 < high && live.contains_key(pair.0) && live[pair.0] == pair.1
            },
        forall|k: int, l: int|
            0 <= k < l < pairs_between(live, low, high).len() ==> pairs_between(
                live,
                low,
                high,
            )[k].0 < pairs_between(live, low, high)[l].0,
        forall|id: usize|
            low <= id < high && live.contains_key(id) ==> exists|k: int|
                0 <= k < pairs_between(live, low, high).len() && #[trigger] pairs_between(
                    live,
                    low,
                    high,
                )[k] == (id, live[id]),
    decreases high - low,
{
    if low < high {
        lemma_pairs_in_map(live, low + 1, high);
        let rest = pairs_between(live, low + 1, high);
        let all = pairs_between(live, low, high);
        if live.contains_key(low as usize) {
            assert forall|k: int| 0 <= k < all.len() implies {
                let pair = #[trigger] all[k];
                low <= pair.0 < high && live.contains_key(pair.0) && live[pair.0] == pair.1
            } by {
                if k > 0 {
                    assert(all[k] == rest[k - 1]);
                }
            }
            assert forall|k: int, l: int| 0 <= k < l < all.len() implies all[k].0 < all[l].0 by {
                assert(all[l] == rest[l - 1]);
                if k > 0 {
                    assert(all[k] == rest[k - 1]);
                }
            }
            assert forall|id: usize| low <= id < high && live.contains_key(id) implies exists|
                k: int,
            |
                0 <= k < all.len() && #[trigger] all[k] == (id, live[id]) by {
                if id == low {
                    assert(all[0] == (id, live[id]));
                } else {
                    let k = choose|k: int|
                        0 <= k < rest.len() && #[trigger] rest[k] == (id, live[id]);
                    assert(all[k + 1] == (id, live[id]));
                }
            }
        }
    }
}

impl<T> SlotState<T> {
    /// The live entries in ascending order of their identifiers.
    pub open spec fn pairs(self) -> Seq<(usize, T)> {
        pairs_between(self.live, 0, self.slots as int)
    }
}

/// The first live identifier from `front` up to, not including, `back`; or
/// `back`, if there is none.
fn first_live<T>(map: &SlotMap<T>, front: usize, back: usize) -> (at: usize)
    requires
        front <= back <= map.state().slots,
    ensures
        front <= at <= back,
        at < back ==> map@.contains_key(at),
        pairs_between(map@, front as int, back as int) == pairs_between(
            map@,
            at as int,
            back as int,
        ),
        at == back ==> pairs_between(map@, front as int, back as int).len() == 0,
{
    let mut at = front;
    while at < back && !map.contains(at)
        invariant
            front <= at <= back,
            pairs_between(map@, front as int, back as int) == pairs_between(
                map@,
                at as int,
                back as int,
            ),
        decreases back - at,
    {
        at += 1;
    }
    at
}

/// One more than the last live identifier from `front` up to, not including,
/// `back`; or `front`, if there is none.
fn last_live<T>(map: &SlotMap<T>, front: usize, back: usize) -> (at: usize)
    requires
        front <= back <= map.state().slots,
    ensures
        front <= at <= back,
        at > front ==> map@.contains_key((at - 1) as usize),
        pairs_between(map@, front as int, back as int) == pairs_between(
            map@,
            front as int,
            at as int,
        ),
        at == front ==> pairs_between(map@, front as int, back as int).len() == 0,
{
    let mut at = back;
    while at > front && !map.contains(at - 1)
        invariant
            front <= at <= back,
            pairs_between(map@, front as int, back as int) == pairs_between(
                map@,
                front as int,
                at as int,
            ),
        decreases at - front,
    {
        proof {
            lemma_pairs_split_last(map@, front as int, at as int);
        }
        at -= 1;
    }
    at
}

/// What is left of a range once its first live identifier, `at`, is taken.
proof fn lemma_take_first<T>(live: Map<usize, T>, at: int, back: int)
    requires
        0 <= at < back,
        live.contains_key(at as usize),
    ensures
        pairs_between(live, at, back).len() > 0,
        pairs_between(live, at, back)[0] == (at as usize, live[at as usize]),
        pairs_between(live, at + 1, back) == pairs_between(live, at, back).drop_first(),
{
    let first = seq![(at as usize, live[at as usize])];
    let rest = pairs_between(live, at + 1, back);
    assert((first + rest).drop_first() =~= rest);
}

/// What is left of a range once its last live identifier, `at - 1`, is
/// taken.
proof fn lemma_take_last<T>(live: Map<usize, T>, front: int, at: int)
    requires
        0 <= front < at,
        live.contains_key((at - 1) as usize),
    ensures
        pairs_between(live, front, at).len() > 0,
        pairs_between(live, front, at).last() == ((at - 1) as usize, live[(at - 1) as usize]),
        pairs_between(live, front, at - 1) == pairs_between(live, front, at).drop_last(),
{
    lemma_pairs_split_last(live, front, at);
    let rest = pairs_between(live, front, at - 1);
    let last = ((at - 1) as usize, live[(at - 1) as usize]);
    assert(rest.push(last).drop_last() =~= rest);
}

/// A well-formed state has as many pairs as live entries.
pub proof fn lemma_pairs_count<T>(state: SlotState<T>)
    requires
        state.wf(),
    ensures
        state.pairs().len() == state.live.len(),
{
    lemma_count_between(state, state.slots as int);
}

/// The live entries below a bound are as many as the pairs below it.
proof fn lemma_count_between<T>(state: SlotState<T>, high: int)
    requires
        state.wf(),
        0 <= high <= state.slots,
    ensures
        pairs_between(state.live, 0, high).len() == state.live.dom().filter(
            |id: usize| id < high,
        ).len(),
        high == state.slots ==> state.live.dom().filter(|id: usize| id < high) == state.live.dom(),
    decreases high,
{
    let below = state.live.dom().filter(|id: usize| id < high);
    if high == 0 {
        assert(below =~= Set::<usize>::empty());
    } else {
        lemma_count_between(state, high - 1);
        lemma_pairs_split_last(state.live, 0, high);
        let before = state.live.dom().filter(|id: usize| id < high - 1);
        let top = (high - 1) as usize;
        state.live.dom().lemma_len_filter(|id: usize| id < high - 1);
        if state.live.contains_key(top) {
            assert(below =~= before.insert(top));
        } else {
            assert(below =~= before);
        }
    }
    if high == state.slots {
        assert forall|id: usize| state.live.contains_key(id) implies id < high by {
            assert(state.groups(id) == (if id < state.slots { 1int } else { 0 }));
        }
        assert(below =~= state.live.dom());
    }
}

/// Iterator over the `(id, value)` pairs of a slot map by shared reference.
pub struct Iter<'a, T> {
    map: &'a SlotMap<T>,
    front: usize,
    back: usize,
    len: usize,
}

impl<'a, T> Iter<'a, T> {
    /// The cursors are within the map, and the count is the number of
    /// entries that are still to come.
    #[verifier::type_invariant]
    spec fn well_formed(&self) -> bool {
        &&& self.front <= self.back <= self.map.state().slots
        &&& self.len == pairs_between(self.map@, self.front as int, self.back as int).len()
    }

    /// The entries that are still to come, in ascending order of their
    /// identifiers.
    pub closed spec fn remaining(&self) -> Seq<(usize, T)> {
        pairs_between(self.map@, self.front as int, self.back as int)
    }

    /// Returns the number of entries that are still to come.
    pub fn len(&self) -> (n: usize)
        ensures
            n == self.remaining().len(),
    {
        proof {
            use_type_invariant(self);
        }
        self.len
    }

    /// Returns the number of entries that are still to come, as a lower and
    /// an upper bound.
    pub fn size_hint(&self) -> (bounds: (usize, Option<usize>))
        ensures
            bounds.0 == self.remaining().len(),
            bounds.1 == Some(bounds.0),
    {
        proof {
            use_type_invariant(self);
        }
        (self.len, Some(self.len))
    }

    /// Takes the entry with the lowest identifier of those still to come.
    pub fn next(&mut self) -> (item: Option<(usize, &'a T)>)
        ensures
            match item {
                Some(item) => old(self).remaining().len() > 0 && (item.0, *item.1) == old(
                    self,
                ).remaining()[0]
                    && final(self).remaining() == old(self).remaining().drop_first(),
                None => old(self).remaining().len() == 0 && final(self).remaining() == old(
                    self,
                ).remaining(),
            },
    {
        proof {
            use_type_invariant(&*self);
        }
        let at = first_live(self.map, self.front, self.back);
        if at < self.back {
            proof {
                lemma_take_first(self.map@, at as int, self.back as int);
            }
            let value = self.map.get_unchecked(at);
            *self = Iter { map: self.map, front: at + 1, back: self.back, len: self.len - 1 };
            Some((at, value))
        } else {
            None
        }
    }

    /// Takes the entry with the highest identifier of those still to come.
    pub fn next_back(&mut self) -> (item: Option<(usize, &'a T)>)
        ensures
            match item {
                Some(item) => old(self).remaining().len() > 0 && (item.0, *item.1) == old(
                    self,
                ).remaining().last()
                    && final(self).remaining() == old(self).remaining().drop_last(),
                None => old(self).remaining().len() == 0 && final(self).remaining() == old(
                    self,
                ).remaining(),
            },
    {
        proof {
            use_type_invariant(&*self);
        }
        let at = last_live(self.map, self.front, self.back);
        if at > self.front {
            proof {
                lemma_take_last(self.map@, self.front as int, at as int);
            }
            let value = self.map.get_unchecked(at - 1);
            *self = Iter { map: self.map, front: self.front, back: at - 1, len: self.len - 1 };
            Some((at - 1, value))
        } else {
            None
        }
    }
}

impl<T> SlotMap<T> {
    /// Returns an iterator over the `(id, &value)` pairs of all live entries.
    pub fn iter(&self) -> (iter: Iter<'_, T>)
        ensures
            iter.remaining() == self.state().pairs(),
    {
        proof {
            use_type_invariant(self);
            self.lemma_well_formed();
            lemma_pairs_count(self.state());
        }
        Iter { map: self, front: 0, back: self.slots(), len: self.len() }
    }
}

/// Iterator over the identifiers of the live entries of a slot map.
pub struct Ids<'a, T> {
    map: &'a SlotMap<T>,
    front: usize,
    back: usize,
    len: usize,
}

impl<'a, T> Ids<'a, T> {
    /// The cursors are within the map, and the count is the number of
    /// entries that are still to come.
    #[verifier::type_invariant]
    spec fn well_formed(&self) -> bool {
        &&& self.front <= self.back <= self.map.state().slots
        &&& self.len == pairs_between(self.map@, self.front as int, self.back as int).len()
    }

    /// The entries that are still to come, in ascending order of their
    /// identifiers.
    pub closed spec fn remaining(&self) -> Seq<(usize, T)> {
        pairs_between(self.map@, self.front as int, self.back as int)
    }

    /// Returns the number of entries that are still to come.
    pub fn len(&self) -> (n: usize)
        ensures
            n == self.remaining().len(),
    {
        proof {
            use_type_invariant(self);
        }
        self.len
    }

    /// Returns the number of entries that are still to come, as a lower and
    /// an upper bound.
    pub fn size_hint(&self) -> (bounds: (usize, Option<usize>))
        ensures
            bounds.0 == self.remaining().len(),
            bounds.1 == Some(bounds.0),
    {
        proof {
            use_type_invariant(self);
        }
        (self.len, Some(self.len))
    }

    /// Takes the entry with the lowest identifier of those still to come.
    pub fn next(&mut self) -> (item: Option<usize>)
        ensures
            match item {
                Some(item) => old(self).remaining().len() > 0 && item == old(self).remaining()[0].0
                    && final(self).remaining() == old(self).remaining().drop_first(),
                None => old(self).remaining().len() == 0 && final(self).remaining() == old(
                    self,
                ).remaining(),
            },
    {
        proof {
            use_type_invariant(&*self);
        }
        let at = first_live(self.map, self.front, self.back);
        if at < self.back {
            proof {
                lemma_take_first(self.map@, at as int, self.back as int);
            }
            *self = Ids { map: self.map, front: at + 1, back: self.back, len: self.len - 1 };
            Some(at)
        } else {
            None
        }
    }

    /// Takes the entry with the highest identifier of those still to come.
    pub fn next_back(&mut self) -> (item: Option<usize>)
        ensures
            match item {
                Some(item) => old(self).remaining().len() > 0 && item == old(
                    self,
                ).remaining().last().0
                    && final(self).remaining() == old(self).remaining().drop_last(),
                None => old(self).remaining().len() == 0 && final(self).remaining() == old(
                    self,
                ).remaining(),
            },
    {
        proof {
            use_type_invariant(&*self);
        }
        let at = last_live(self.map, self.front, self.back);
        if at > self.front {
            proof {
                lemma_take_last(self.map@, self.front as int, at as int);
            }
            *self = Ids { map: self.map, front: self.front, back: at - 1, len: self.len - 1 };
            Some(at - 1)
        } else {
            None
        }
    }
}

impl<T> SlotMap<T> {
    /// Returns an iterator over the identifiers of all live entries.
    pub fn ids(&self) -> (iter: Ids<'_, T>)
        ensures
            iter.remaining() == self.state().pairs(),
    {
        proof {
            use_type_invariant(self);
            self.lemma_well_formed();
            lemma_pairs_count(self.state());
        }
        Ids { map: self, front: 0, back: self.slots(), len: self.len() }
    }
}

/// Iterator over the values of a slot map by shared reference.
pub struct Values<'a, T> {
    map: &'a SlotMap<T>,
    front: usize,
    back: usize,
    len: usize,
}

impl<'a, T> Values<'a, T> {
    /// The cursors are within the map, and the count is the number of
    /// entries that are still to come.
    #[verifier::type_invariant]
    spec fn well_formed(&self) -> bool {
        &&& self.front <= self.back <= self.map.state().slots
        &&& self.len == pairs_between(self.map@, self.front as int, self.back as int).len()
    }

    /// The entries that are still to come, in ascending order of their
    /// identifiers.
    pub closed spec fn remaining(&self) -> Seq<(usize, T)> {
        pairs_between(self.map@, self.front as int, self.back as int)
    }

    /// Returns the number of entries that are still to come.
    pub fn len(&self) -> (n: usize)
        ensures
            n == self.remaining().len(),
    {
        proof {
            use_type_invariant(self);
        }
        self.len
    }

    /// Returns the number of entries that are still to come, as a lower and
    /// an upper bound.
    pub fn size_hint(&self) -> (bounds: (usize, Option<usize>))
        ensures
            bounds.0 == self.remaining().len(),
            bounds.1 == Some(bounds.0),
    {
        proof {
            use_type_invariant(self);
        }
        (self.len, Some(self.len))
    }

    /// Takes the entry with the lowest identifier of those still to come.
    pub fn next(&mut self) -> (item: Option<&'a T>)
        ensures
            match item {
                Some(item) => old(self).remaining().len() > 0 && *item == old(self).remaining()[0].1
                    && final(self).remaining() == old(self).remaining().drop_first(),
                None => old(self).remaining().len() == 0 && final(self).remaining() == old(
                    self,
                ).remaining(),
            },
    {
        proof {
            use_type_invariant(&*self);
        }
        let at = first_live(self.map, self.front, self.back);
        if at < self.back {
            proof {
                lemma_take_first(self.map@, at as int, self.back as int);
            }
            let value = self.map.get_unchecked(at);
            *self = Values { map: self.map, front: at + 1, back: self.back, len: self.len - 1 };
            Some(value)
        } else {
            None
        }
    }

    /// Takes the entry with the highest identifier of those still to come.
    pub fn next_back(&mut self) -> (item: Option<&'a T>)
        ensures
            match item {
                Some(item) => old(self).remaining().len() > 0 && *item == old(
                    self,
                ).remaining().last().1
                    && final(self).remaining() == old(self).remaining().drop_last(),
                None => old(self).remaining().len() == 0 && final(self).remaining() == old(
                    self,
                ).remaining(),
            },
    {
        proof {
            use_type_invariant(&*self);
        }
        let at = last_live(self.map, self.front, self.back);
        if at > self.front {
            proof {
                lemma_take_last(self.map@, self.front as int, at as int);
            }
            let value = self.map.get_unchecked(at - 1);
            *self = Values { map: self.map, front: self.front, back: at - 1, len: self.len - 1 };
            Some(value)
        } else {
            None
        }
    }
}

impl<T> SlotMap<T> {
    /// Returns an iterator over shared references to the values of all live
    /// entries.
    pub fn values(&self) -> (iter: Values<'_, T>)
        ensures
            iter.remaining() == self.state().pairs(),
    {
        proof {
            use_type_invariant(self);
            self.lemma_well_formed();
            lemma_pairs_count(self.state());
        }
        Values { map: self, front: 0, back: self.slots(), len: self.len() }
    }
}

/// Iterator that yields the `(id, value)` pairs of a slot map that it has
/// consumed.
pub struct IntoIter<T> {
    map: SlotMap<T>,
    front: usize,
    back: usize,
    len: usize,
}

impl<T> IntoIter<T> {
    /// The cursors are within the map, and the count is the number of
    /// entries that are still to come.
    #[verifier::type_invariant]
    spec fn well_formed(&self) -> bool {
        &&& self.front <= self.back <= self.map.state().slots
        &&& self.len == pairs_between(self.map@, self.front as int, self.back as int).len()
    }

    /// The entries that are still to come, in ascending order of their
    /// identifiers.
    pub closed spec fn remaining(&self) -> Seq<(usize, T)> {
        pairs_between(self.map@, self.front as int, self.back as int)
    }

    /// An iterator over nothing.
    fn empty() -> (iter: Self)
        ensures
            iter.remaining() == Seq::<(usize, T)>::empty(),
    {
        IntoIter { map: SlotMap::new(), front: 0, back: 0, len: 0 }
    }

    /// Returns the number of entries that are still to come.
    pub fn len(&self) -> (n: usize)
        ensures
            n == self.remaining().len(),
    {
        proof {
            use_type_invariant(self);
        }
        self.len
    }

    /// Returns the number of entries that are still to come, as a lower and
    /// an upper bound.
    pub fn size_hint(&self) -> (bounds: (usize, Option<usize>))
        ensures
            bounds.0 == self.remaining().len(),
            bounds.1 == Some(bounds.0),
    {
        proof {
            use_type_invariant(self);
        }
        (self.len, Some(self.len))
    }

    /// Takes the entry with the lowest identifier of those still to come.
    pub fn next(&mut self) -> (item: Option<(usize, T)>)
        ensures
            match item {
                Some(item) => old(self).remaining().len() > 0 && item == old(self).remaining()[0]
                    && final(self).remaining() == old(self).remaining().drop_first(),
                None => old(self).remaining().len() == 0 && final(self).remaining() == old(
                    self,
                ).remaining(),
            },
    {
        proof {
            use_type_invariant(&*self);
        }
        let at = first_live(&self.map, self.front, self.back);
        if at < self.back {
            proof {
                lemma_take_first(self.map@, at as int, self.back as int);
            }
            let mut owned = Self::empty();
            core::mem::swap(self, &mut owned);
            let IntoIter { mut map, front: _, back, len } = owned;
            let ghost before = map@;
            let value = map.remove_unchecked(at);
            proof {
                lemma_pairs_agree(before, map@, at + 1, back as int);
            }
            *self = IntoIter { map, front: at + 1, back, len: len - 1 };
            Some((at, value))
        } else {
            None
        }
    }

    /// Takes the entry with the highest identifier of those still to come.
    pub fn next_back(&mut self) -> (item: Option<(usize, T)>)
        ensures
            match item {
                Some(item) => old(self).remaining().len() > 0 && item == old(
                    self,
                ).remaining().last()
                    && final(self).remaining() == old(self).remaining().drop_last(),
                None => old(self).remaining().len() == 0 && final(self).remaining() == old(
                    self,
                ).remaining(),
            },
    {
        proof {
            use_type_invariant(&*self);
        }
        let at = last_live(&self.map, self.front, self.back);
        if at > self.front {
            proof {
                lemma_take_last(self.map@, self.front as int, at as int);
            }
            let mut owned = Self::empty();
            core::mem::swap(self, &mut owned);
            let IntoIter { mut map, front, back: _, len } = owned;
            let ghost before = map@;
            let value = map.remove_unchecked(at - 1);
            proof {
                lemma_pairs_agree(before, map@, front as int, at - 1);
            }
            *self = IntoIter { map, front, back: at - 1, len: len - 1 };
            Some((at - 1, value))
        } else {
            None
        }
    }
}

impl<T> SlotMap<T> {
    /// Consumes the map and returns an iterator over the `(id, value)` pairs
    /// of all live entries.
    pub fn into_iter(self) -> (iter: IntoIter<T>)
        ensures
            iter.remaining() == self.state().pairs(),
    {
        proof {
            use_type_invariant(&self);
            self.lemma_well_formed();
            lemma_pairs_count(self.state());
        }
        let back = self.slots();
        let len = self.len();
        IntoIter { map: self, front: 0, back, len }
    }
}

/// Iterator that yields the identifiers of the live entries of a slot map that
/// it has consumed.
pub struct IntoIds<T> {
    map: SlotMap<T>,
    front: usize,
    back: usize,
    len: usize,
}

impl<T> IntoIds<T> {
    /// The cursors are within the map, and the count is the number of
    /// entries that are still to come.
    #[verifier::type_invariant]
    spec fn well_formed(&self) -> bool {
        &&& self.front <= self.back <= self.map.state().slots
        &&& self.len == pairs_between(self.map@, self.front as int, self.back as int).len()
    }

    /// The entries that are still to come, in ascending order of their
    /// identifiers.
    pub closed spec fn remaining(&self) -> Seq<(usize, T)> {
        pairs_between(self.map@, self.front as int, self.back as int)
    }

    /// An iterator over nothing.
    fn empty() -> (iter: Self)
        ensures
            iter.remaining() == Seq::<(usize, T)>::empty(),
    {
        IntoIds { map: SlotMap::new(), front: 0, back: 0, len: 0 }
    }

    /// Returns the number of entries that are still to come.
    pub fn len(&self) -> (n: usize)
        ensures
            n == self.remaining().len(),
    {
        proof {
            use_type_invariant(self);
        }
        self.len
    }

    /// Returns the number of entries that are still to come, as a lower and
    /// an upper bound.
    pub fn size_hint(&self) -> (bounds: (usize, Option<usize>))
        ensures
            bounds.0 == self.remaining().len(),
            bounds.1 == Some(bounds.0),
    {
        proof {
            use_type_invariant(self);
        }
        (self.len, Some(self.len))
    }

    /// Takes the entry with the lowest identifier of those still to come.
    pub fn next(&mut self) -> (item: Option<usize>)
        ensures
            match item {
                Some(item) => old(self).remaining().len() > 0 && item == old(self).remaining()[0].0
                    && final(self).remaining() == old(self).remaining().drop_first(),
                None => old(self).remaining().len() == 0 && final(self).remaining() == old(
                    self,
                ).remaining(),
            },
    {
        proof {
            use_type_invariant(&*self);
        }
        let at = first_live(&self.map, self.front, self.back);
        if at < self.back {
            proof {
                lemma_take_first(self.map@, at as int, self.back as int);
            }
            let mut owned = Self::empty();
            core::mem::swap(self, &mut owned);
            let IntoIds { map, front: _, back, len } = owned;
            *self = IntoIds { map, front: at + 1, back, len: len - 1 };
            Some(at)
        } else {
            None
        }
    }

    /// Takes the entry with the highest identifier of those still to come.
    pub fn next_back(&mut self) -> (item: Option<usize>)
        ensures
            match item {
                Some(item) => old(self).remaining().len() > 0 && item == old(
                    self,
                ).remaining().last().0
                    && final(self).remaining() == old(self).remaining().drop_last(),
                None => old(self).remaining().len() == 0 && final(self).remaining() == old(
                    self,
                ).remaining(),
            },
    {
        proof {
            use_type_invariant(&*self);
        }
        let at = last_live(&self.map, self.front, self.back);
        if at > self.front {
            proof {
                lemma_take_last(self.map@, self.front as int, at as int);
            }
            let mut owned = Self::empty();
            core::mem::swap(self, &mut owned);
            let IntoIds { map, front, back: _, len } = owned;
            *self = IntoIds { map, front, back: at - 1, len: len - 1 };
            Some(at - 1)
        } else {
            None
        }
    }
}

impl<T> SlotMap<T> {
    /// Consumes the map and returns an iterator over the identifiers of all
    /// live entries.
    pub fn into_ids(self) -> (iter: IntoIds<T>)
        ensures
            iter.remaining() == self.state().pairs(),
    {
        proof {
            use_type_invariant(&self);
            self.lemma_well_formed();
            lemma_pairs_count(self.state());
        }
        let back = self.slots();
        let len = self.len();
        IntoIds { map: self, front: 0, back, len }
    }
}

/// Iterator that yields the values of a slot map that it has consumed.
pub struct IntoValues<T> {
    map: SlotMap<T>,
    front: usize,
    back: usize,
    len: usize,
}

impl<T> IntoValues<T> {
    /// The cursors are within the map, and the count is the number of
    /// entries that are still to come.
    #[verifier::type_invariant]
    spec fn well_formed(&self) -> bool {
        &&& self.front <= self.back <= self.map.state().slots
        &&& self.len == pairs_between(self.map@, self.front as int, self.back as int).len()
    }

    /// The entries that are still to come, in ascending order of their
    /// identifiers.
    pub closed spec fn remaining(&self) -> Seq<(usize, T)> {
        pairs_between(self.map@, self.front as int, self.back as int)
    }

    /// An iterator over nothing.
    fn empty() -> (iter: Self)
        ensures
            iter.remaining() == Seq::<(usize, T)>::empty(),
    {
        IntoValues { map: SlotMap::new(), front: 0, back: 0, len: 0 }
    }

    /// Returns the number of entries that are still to come.
    pub fn len(&self) -> (n: usize)
        ensures
            n == self.remaining().len(),
    {
        proof {
            use_type_invariant(self);
        }
        self.len
    }

    /// Returns the number of entries that are still to come, as a lower and
    /// an upper bound.
    pub fn size_hint(&self) -> (bounds: (usize, Option<usize>))
        ensures
            bounds.0 == self.remaining().len(),
            bounds.1 == Some(bounds.0),
    {
        proof {
            use_type_invariant(self);
        }
        (self.len, Some(self.len))
    }

    /// Takes the entry with the lowest identifier of those still to come.
    pub fn next(&mut self) -> (item: Option<T>)
        ensures
            match item {
                Some(item) => old(self).remaining().len() > 0 && item == old(self).remaining()[0].1
                    && final(self).remaining() == old(self).remaining().drop_first(),
                None => old(self).remaining().len() == 0 && final(self).remaining() == old(
                    self,
                ).remaining(),
            },
    {
        proof {
            use_type_invariant(&*self);
        }
        let at = first_live(&self.map, self.front, self.back);
        if at < self.back {
            proof {
                lemma_take_first(self.map@, at as int, self.back as int);
            }
            let mut owned = Self::empty();
            core::mem::swap(self, &mut owned);
            let IntoValues { mut map, front: _, back, len } = owned;
            let ghost before = map@;
            let value = map.remove_unchecked(at);
            proof {
                lemma_pairs_agree(before, map@, at + 1, back as int);
            }
            *self = IntoValues { map, front: at + 1, back, len: len - 1 };
            Some(value)
        } else {
            None
        }
    }

    /// Takes the entry with the highest identifier of those still to come.
    pub fn next_back(&mut self) -> (item: Option<T>)
        ensures
            match item {
                Some(item) => old(self).remaining().len() > 0 && item == old(
                    self,
                ).remaining().last().1
                    && final(self).remaining() == old(self).remaining().drop_last(),
                None => old(self).remaining().len() == 0 && final(self).remaining() == old(
                    self,
                ).remaining(),
            },
    {
        proof {
            use_type_invariant(&*self);
        }
        let at = last_live(&self.map, self.front, self.back);
        if at > self.front {
            proof {
                lemma_take_last(self.map@, self.front as int, at as int);
            }
            let mut owned = Self::empty();
            core::mem::swap(self, &mut owned);
            let IntoValues { mut map, front, back: _, len } = owned;
            let ghost before = map@;
            let value = map.remove_unchecked(at - 1);
            proof {
                lemma_pairs_agree(before, map@, front as int, at - 1);
            }
            *self = IntoValues { map, front, back: at - 1, len: len - 1 };
            Some(value)
        } else {
            None
        }
    }
}

impl<T> SlotMap<T> {
    /// Consumes the map and returns an iterator over the values of all live
    /// entries.
    pub fn into_values(self) -> (iter: IntoValues<T>)
        ensures
            iter.remaining() == self.state().pairs(),
    {
        proof {
            use_type_invariant(&self);
            self.lemma_well_formed();
            lemma_pairs_count(self.state());
        }
        let back = self.slots();
        let len = self.len();
        IntoValues { map: self, front: 0, back, len }
    }
}

/// Iterator that yields the `(id, value)` pairs that it has taken out of a
/// slot map. The map is empty from the moment the iterator is made; what
/// the iterator has not yielded is dropped with it.
pub struct Drain<'a, T> {
    map: SlotMap<T>,
    front: usize,
    back: usize,
    len: usize,
    marker: PhantomData<&'a mut SlotMap<T>>,
}

impl<'a, T> Drain<'a, T> {
    /// The cursors are within the map, and the count is the number of
    /// entries that are still to come.
    #[verifier::type_invariant]
    spec fn well_formed(&self) -> bool {
        &&& self.front <= self.back <= self.map.state().slots
        &&& self.len == pairs_between(self.map@, self.front as int, self.back as int).len()
    }

    /// The entries that are still to come, in ascending order of their
    /// identifiers.
    pub closed spec fn remaining(&self) -> Seq<(usize, T)> {
        pairs_between(self.map@, self.front as int, self.back as int)
    }

    /// An iterator over nothing.
    fn empty() -> (iter: Self)
        ensures
            iter.remaining() == Seq::<(usize, T)>::empty(),
    {
        Drain { map: SlotMap::new(), front: 0, back: 0, len: 0, marker: PhantomData }
    }

    /// Returns the number of entries that are still to come.
    pub fn len(&self) -> (n: usize)
        ensures
            n == self.remaining().len(),
    {
        proof {
            use_type_invariant(self);
        }
        self.len
    }

    /// Returns the number of entries that are still to come, as a lower and
    /// an upper bound.
    pub fn size_hint(&self) -> (bounds: (usize, Option<usize>))
        ensures
            bounds.0 == self.remaining().len(),
            bounds.1 == Some(bounds.0),
    {
        proof {
            use_type_invariant(self);
        }
        (self.len, Some(self.len))
    }

    /// Takes the entry with the lowest identifier of those still to come.
    pub fn next(&mut self) -> (item: Option<(usize, T)>)
        ensures
            match item {
                Some(item) => old(self).remaining().len() > 0 && item == old(self).remaining()[0]
                    && final(self).remaining() == old(self).remaining().drop_first(),
                None => old(self).remaining().len() == 0 && final(self).remaining() == old(
                    self,
                ).remaining(),
            },
    {
        proof {
            use_type_invariant(&*self);
        }
        let at = first_live(&self.map, self.front, self.back);
        if at < self.back {
            proof {
                lemma_take_first(self.map@, at as int, self.back as int);
            }
            let mut owned = Self::empty();
            core::mem::swap(self, &mut owned);
            let Drain { mut map, front: _, back, len, marker: _ } = owned;
            let ghost before = map@;
            let value = map.remove_unchecked(at);
            proof {
                lemma_pairs_agree(before, map@, at + 1, back as int);
            }
            *self = Drain { map, front: at + 1, back, len: len - 1, marker: PhantomData };
            Some((at, value))
        } else {
            None
        }
    }

    /// Takes the entry with the highest identifier of those still to come.
    pub fn next_back(&mut self) -> (item: Option<(usize, T)>)
        ensures
            match item {
                Some(item) => old(self).remaining().len() > 0 && item == old(
                    self,
                ).remaining().last()
                    && final(self).remaining() == old(self).remaining().drop_last(),
                None => old(self).remaining().len() == 0 && final(self).remaining() == old(
                    self,
                ).remaining(),
            },
    {
        proof {
            use_type_invariant(&*self);
        }
        let at = last_live(&self.map, self.front, self.back);
        if at > self.front {
            proof {
                lemma_take_last(self.map@, self.front as int, at as int);
            }
            let mut owned = Self::empty();
            core::mem::swap(self, &mut owned);
            let Drain { mut map, front, back: _, len, marker: _ } = owned;
            let ghost before = map@;
            let value = map.remove_unchecked(at - 1);
            proof {
                lemma_pairs_agree(before, map@, front as int, at - 1);
            }
            *self = Drain { map, front, back: at - 1, len: len - 1, marker: PhantomData };
            Some((at - 1, value))
        } else {
            None
        }
    }
}

impl<T> SlotMap<T> {
    /// Removes all entries and returns an iterator that yields them as
    /// `(id, value)` pairs.
    pub fn drain(&mut self) -> (iter: Drain<'_, T>)
        ensures
            iter.remaining() == old(self).state().pairs(),
            final(self).state() == SlotState::<T>::empty(),
    {
        proof {
            use_type_invariant(&*self);
            self.lemma_well_formed();
            lemma_pairs_count(self.state());
        }
        let mut map = Self::new();
        core::mem::swap(self, &mut map);
        let back = map.slots();
        let len = map.len();
        Drain { map, front: 0, back, len, marker: PhantomData }
    }
}

/// Iterator over the `(id, value)` pairs of a slot map by exclusive reference.
///
/// The iterator lends each value out until the next one is asked for. What
/// is written through the reference becomes the value in the map.
pub struct IterMut<'a, T> {
    pub map: &'a mut SlotMap<T>,
    pub front: usize,
    pub back: usize,
    pub len: usize,
}

impl<'a, T> IterMut<'a, T> {
    /// The entries that are still to come, in ascending order of their
    /// identifiers.
    pub open spec fn remaining(&self) -> Seq<(usize, T)> {
        pairs_between(self.map@, self.front as int, self.back as int)
    }

    /// The iterator's cursors are within the map, and its count is the
    /// number of entries that are still to come.
    pub open spec fn wf(&self) -> bool {
        &&& self.front <= self.back <= self.map.state().slots
        &&& self.len == self.remaining().len()
    }

    /// Returns the number of entries that are still to come.
    pub fn len(&self) -> (n: usize)
        ensures
            n == self.len,
    {
        self.len
    }

    /// Returns the number of entries that are still to come, as a lower and
    /// an upper bound.
    pub fn size_hint(&self) -> (bounds: (usize, Option<usize>))
        ensures
            bounds.0 == self.len,
            bounds.1 == Some(self.len),
    {
        (self.len, Some(self.len))
    }

    /// Lends the entry with the lowest identifier of those still to come.
    pub fn next(&mut self) -> (item: Option<(usize, &mut T)>)
        requires
            old(self).wf(),
        ensures
            final(self).wf(),
            match item {
                Some(item) => old(self).remaining().len() > 0 && (item.0, *item.1) == old(
                    self,
                ).remaining()[0] && final(self).remaining() == old(self).remaining().drop_first()
                    && final(self).map.state() == old(self).map.state().set(
                    old(self).remaining()[0].0,
                    *final(item.1),
                ) && *final(final(self).map) == *final(old(self).map),
                None => old(self).remaining().len() == 0 && *final(self) == *old(self),
            },
    {
        let at = first_live(self.map, self.front, self.back);
        if at < self.back {
            proof {
                lemma_take_first(self.map@, at as int, self.back as int);
                let live = self.map@;
                let back = self.back as int;
                assert forall|value: T|
                    pairs_between(#[trigger] live.insert(at, value), at + 1, back)
                        == pairs_between(live, at + 1, back) by {
                    lemma_pairs_agree(live, live.insert(at, value), at + 1, back);
                }
            }
            self.front = at + 1;
            self.len = self.len - 1;
            let value = self.map.get_unchecked_mut(at);
            Some((at, value))
        } else {
            None
        }
    }

    /// Lends the entry with the highest identifier of those still to come.
    pub fn next_back(&mut self) -> (item: Option<(usize, &mut T)>)
        requires
            old(self).wf(),
        ensures
            final(self).wf(),
            match item {
                Some(item) => old(self).remaining().len() > 0 && (item.0, *item.1) == old(
                    self,
                ).remaining().last() && final(self).remaining() == old(self).remaining().drop_last()
                    && final(self).map.state() == old(self).map.state().set(
                    old(self).remaining().last().0,
                    *final(item.1),
                ) && *final(final(self).map) == *final(old(self).map),
                None => old(self).remaining().len() == 0 && *final(self) == *old(self),
            },
    {
        let at = last_live(self.map, self.front, self.back);
        if at > self.front {
            proof {
                lemma_take_last(self.map@, self.front as int, at as int);
                let live = self.map@;
                let front = self.front as int;
                assert forall|value: T|
                    pairs_between(#[trigger] live.insert((at - 1) as usize, value), front, at - 1)
                        == pairs_between(live, front, at - 1) by {
                    lemma_pairs_agree(
                        live,
                        live.insert((at - 1) as usize, value),
                        front,
                        at - 1,
                    );
                }
            }
            self.back = at - 1;
            self.len = self.len - 1;
            let value = self.map.get_unchecked_mut(at - 1);
            Some((at - 1, value))
        } else {
            None
        }
    }
}

impl<T> SlotMap<T> {
    /// Returns an iterator over the `(id, &mut value)` pairs of all live
    /// entries.
    pub fn iter_mut(&mut self) -> (iter: IterMut<'_, T>)
        ensures
            iter.wf(),
            iter.remaining() == old(self).state().pairs(),
            *iter.map == *old(self),
            *final(iter.map) == *final(self),
    {
        proof {
            use_type_invariant(&*self);
            self.lemma_well_formed();
            lemma_pairs_count(self.state());
        }
        let back = self.slots();
        let len = self.len();
        IterMut { map: self, front: 0, back, len }
    }
}

/// Iterator over the values of a slot map by exclusive reference.
///
/// The iterator lends each value out until the next one is asked for. What
/// is written through the reference becomes the value in the map.
pub struct ValuesMut<'a, T> {
    pub map: &'a mut SlotMap<T>,
    pub front: usize,
    pub back: usize,
    pub len: usize,
}

impl<'a, T> ValuesMut<'a, T> {
    /// The entries that are still to come, in ascending order of their
    /// identifiers.
    pub open spec fn remaining(&self) -> Seq<(usize, T)> {
        pairs_between(self.map@, self.front as int, self.back as int)
    }

    /// The iterator's cursors are within the map, and its count is the
    /// number of entries that are still to come.
    pub open spec fn wf(&self) -> bool {
        &&& self.front <= self.back <= self.map.state().slots
        &&& self.len == self.remaining().len()
    }

    /// Returns the number of entries that are still to come.
    pub fn len(&self) -> (n: usize)
        ensures
            n == self.len,
    {
        self.len
    }

    /// Returns the number of entries that are still to come, as a lower and
    /// an upper bound.
    pub fn size_hint(&self) -> (bounds: (usize, Option<usize>))
        ensures
            bounds.0 == self.len,
            bounds.1 == Some(self.len),
    {
        (self.len, Some(self.len))
    }

    /// Lends the entry with the lowest identifier of those still to come.
    pub fn next(&mut self) -> (item: Option<&mut T>)
        requires
            old(self).wf(),
        ensures
            final(self).wf(),
            match item {
                Some(item) => old(self).remaining().len() > 0 && (
                    old(self).remaining()[0].0,
                    *item,
                ) == old(
                    self,
                ).remaining()[0] && final(self).remaining() == old(self).remaining().drop_first()
                    && final(self).map.state() == old(self).map.state().set(
                    old(self).remaining()[0].0,
                    *final(item),
                ) && *final(final(self).map) == *final(old(self).map),
                None => old(self).remaining().len() == 0 && *final(self) == *old(self),
            },
    {
        let at = first_live(self.map, self.front, self.back);
        if at < self.back {
            proof {
                lemma_take_first(self.map@, at as int, self.back as int);
                let live = self.map@;
                let back = self.back as int;
                assert forall|value: T|
                    pairs_between(#[trigger] live.insert(at, value), at + 1, back)
                        == pairs_between(live, at + 1, back) by {
                    lemma_pairs_agree(live, live.insert(at, value), at + 1, back);
                }
            }
            self.front = at + 1;
            self.len = self.len - 1;
            let value = self.map.get_unchecked_mut(at);
            Some(value)
        } else {
            None
        }
    }

    /// Lends the entry with the highest identifier of those still to come.
    pub fn next_back(&mut self) -> (item: Option<&mut T>)
        requires
            old(self).wf(),
        ensures
            final(self).wf(),
            match item {
                Some(item) => old(self).remaining().len() > 0 && (
                    old(self).remaining().last().0,
                    *item,
                ) == old(
                    self,
                ).remaining().last() && final(self).remaining() == old(self).remaining().drop_last()
                    && final(self).map.state() == old(self).map.state().set(
                    old(self).remaining().last().0,
                    *final(item),
                ) && *final(final(self).map) == *final(old(self).map),
                None => old(self).remaining().len() == 0 && *final(self) == *old(self),
            },
    {
        let at = last_live(self.map, self.front, self.back);
        if at > self.front {
            proof {
                lemma_take_last(self.map@, self.front as int, at as int);
                let live = self.map@;
                let front = self.front as int;
                assert forall|value: T|
                    pairs_between(#[trigger] live.insert((at - 1) as usize, value), front, at - 1)
                        == pairs_between(live, front, at - 1) by {
                    lemma_pairs_agree(
                        live,
                        live.insert((at - 1) as usize, value),
                        front,
                        at - 1,
                    );
                }
            }
            self.back = at - 1;
            self.len = self.len - 1;
            let value = self.map.get_unchecked_mut(at - 1);
            Some(value)
        } else {
            None
        }
    }
}

impl<T> SlotMap<T> {
    /// Returns an iterator over exclusive references to the values of all
    /// live entries.
    pub fn values_mut(&mut self) -> (iter: ValuesMut<'_, T>)
        ensures
            iter.wf(),
            iter.remaining() == old(self).state().pairs(),
            *iter.map == *old(self),
            *final(iter.map) == *final(self),
    {
        proof {
            use_type_invariant(&*self);
            self.lemma_well_formed();
            lemma_pairs_count(self.state());
        }
        let back = self.slots();
        let len = self.len();
        ValuesMut { map: self, front: 0, back, len }
    }
}

} // verus!

use vstd::prelude::*;

verus! {

/// Swaps the elements at two distinct positions of a vector.
pub fn swap_unchecked<T>(vec: &mut Vec<T>, index0: usize, index1: usize)
    requires
        index0 < old(vec).len(),
        index1 < old(vec).len(),
        index0 != index1,
    ensures
        final(vec)@ == old(vec)@.update(index0 as int, old(vec)@[index1 as int]).update(
            index1 as int,
            old(vec)@[index0 as int],
        ),
{
    let (low, high) = if index0 < index1 {
        (index0, index1)
    } else {
        (index1, index0)
    };
    let (head, tail) = vec.as_mut_slice().split_at_mut(high);
    core::mem::swap(&mut head[low], &mut tail[0]);
}

/// Removes the element at `index` and returns it; the last element takes its
/// place.
pub fn swap_remove_unchecked<T>(vec: &mut Vec<T>, index: usize) -> (value: T)
    requires
        index < old(vec).len(),
    ensures
        value == old(vec)@[index as int],
        final(vec)@ == old(vec)@.update(index as int, old(vec)@.last()).drop_last(),
{
    vec.swap_remove(index)
}

} // verus!

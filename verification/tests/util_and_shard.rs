use deadlock::sync::shard::all_idle;
use deadlock::sync::shard::candidate;
use deadlock::sync::shard::least_loaded;
use deadlock::sync::shard::locks_first_shard_first;
use deadlock::sync::shard::merge;
use deadlock::sync::shard::num_shift;
use deadlock::sync::shard::rr_interval;
use deadlock::sync::shard::rr_mask;
use deadlock::sync::shard::split;
use deadlock::sync::shard::total_load;
use deadlock::sync::slotmap::cancel_reserved;
use deadlock::sync::slotmap::commit_reserved;
use deadlock::sync::slotmap::insert_into;
use deadlock::sync::slotmap::reserve_in;
use deadlock::sync::slotmap::select;
use deadlock::sync::slotmap::swap_between;
use deadlock::sync::SlotHeap;
use deadlock::sync::SlotMap;
use deadlock::util::default_num_shards;
use deadlock::util::swap_remove_unchecked;
use deadlock::util::swap_unchecked;
use deadlock::util::Okok;

#[test]
fn shard_ids_are_packed_as_described() {
    assert_eq!(num_shift(4), 2);
    assert_eq!(num_shift(64), 6);
    assert_eq!(rr_mask(16), 15);
    assert_eq!(rr_interval(16), 4);
    assert_eq!(merge(4, 3, 5), 23);
    assert_eq!(merge(16, 0, 1), 16);
    assert_eq!(split(4, 23), (3, 5));
    assert_eq!(split(16, 16), (0, 1));
    assert_eq!(split(8, usize::MAX), (7, usize::MAX >> 3));
    for shard in 0..8 {
        for inner in [0, 1, 2, 1000, usize::MAX >> 3] {
            assert_eq!(split(8, merge(8, shard, inner)), (shard, inner));
        }
    }
    assert_eq!(merge(4, 1, usize::MAX), usize::MAX - 2);
}

#[test]
fn shard_candidates_are_a_quarter_apart() {
    assert_eq!(candidate(16, 0, 0), 0);
    assert_eq!(candidate(16, 0, 1), 4);
    assert_eq!(candidate(16, 0, 2), 8);
    assert_eq!(candidate(16, 0, 3), 12);
    assert_eq!(candidate(16, 13, 1), 1);
    assert_eq!(candidate(4, 7, 3), 2);
    assert_eq!(candidate(8, usize::MAX, 0), 7);
    assert_eq!(candidate(8, usize::MAX, 1), 1);
    assert_eq!(candidate(8, usize::MAX, 3), 5);
}

#[test]
fn shard_least_loaded_takes_the_first_of_the_least() {
    assert_eq!(least_loaded(&[0, 0, 0, 0]), 0);
    assert_eq!(least_loaded(&[3, 1, 2, 1]), 1);
    assert_eq!(least_loaded(&[3, 2, 2, 1]), 3);
    assert_eq!(least_loaded(&[5, 5, 4, 4]), 2);
    assert_eq!(least_loaded(&[usize::MAX, usize::MAX, usize::MAX, usize::MAX]), 0);
}

#[test]
fn shard_lock_order_follows_the_index_unless_reversed() {
    assert!(locks_first_shard_first(1, 2, false));
    assert!(!locks_first_shard_first(2, 1, false));
    assert!(!locks_first_shard_first(1, 2, true));
    assert!(locks_first_shard_first(2, 1, true));
}

#[test]
fn default_num_shards_is_four_times_a_power_of_two() {
    assert_eq!(default_num_shards(0), 4);
    assert_eq!(default_num_shards(1), 4);
    assert_eq!(default_num_shards(2), 8);
    assert_eq!(default_num_shards(3), 16);
    assert_eq!(default_num_shards(8), 32);
    assert_eq!(default_num_shards(9), 64);
    assert_eq!(default_num_shards(usize::MAX / 8), (usize::MAX / 8 + 1) * 4);
    assert_eq!(SlotMap::<u8>::new(3).num_shards(), 16);
}

#[test]
fn with_num_shards_takes_powers_of_two_from_four() {
    for n in [4usize, 8, 16, 1024] {
        assert_eq!(SlotMap::<u8>::with_num_shards(n).unwrap().num_shards(), n);
        assert_eq!(SlotMap::<u8>::with_num_shards_unchecked(n).num_shards(), n);
    }
    for n in [0usize, 1, 2, 3, 5, 12, 1000, usize::MAX] {
        assert!(SlotMap::<u8>::with_num_shards(n).is_none());
    }
}

#[test]
fn util_swaps() {
    let mut v = vec!['a', 'b', 'c', 'd'];
    swap_unchecked(&mut v, 0, 3);
    assert_eq!(v, vec!['d', 'b', 'c', 'a']);
    swap_unchecked(&mut v, 2, 1);
    assert_eq!(v, vec!['d', 'c', 'b', 'a']);
    assert_eq!(swap_remove_unchecked(&mut v, 1), 'c');
    assert_eq!(v, vec!['d', 'a', 'b']);
    assert_eq!(swap_remove_unchecked(&mut v, 2), 'b');
    assert_eq!(v, vec!['d', 'a']);
}

#[test]
fn util_okok() {
    let ok: Result<u8, char> = Ok(3);
    let err: Result<u8, char> = Err('x');
    assert_eq!((&ok).okok(), Some(&3));
    assert_eq!((&err).okok(), None);
    assert_eq!(*(&ok).okok_unchecked(), 3);
    assert_eq!(ok.okok(), Some(3));
    assert_eq!(err.okok(), None);
    assert_eq!(Ok::<u8, char>(4).okok_unchecked(), 4);
}

#[test]
fn sync_slotmap_first_inserts_go_round_the_shards() {
    let map = SlotMap::with_num_shards(4).unwrap();
    let ids = (0..8).map(|i| map.insert(i)).collect::<Vec<usize>>();
    assert_eq!(ids, vec![1, 2, 3, 0, 5, 6, 7, 4]);
    for (i, &id) in ids.iter().enumerate() {
        assert_eq!(*map.get(id).unwrap().guard, i);
    }
}

#[test]
fn sync_slotmap_insert_prefers_the_least_loaded_shard() {
    let map = SlotMap::with_num_shards(4).unwrap();
    let ids = (0..4).map(|i| map.insert(i)).collect::<Vec<usize>>();
    assert_eq!(map.remove(ids[2]), Some(2));
    assert_eq!(map.insert(9), ids[2]);
    assert_eq!(map.len(), 4);
}

#[test]
fn sync_slotmap_round_trip() {
    assert!(SlotMap::<i32>::with_num_shards(3).is_none());
    let map = SlotMap::with_num_shards(4).unwrap();
    assert_eq!(map.num_shards(), 4);
    let id = map.insert(42);
    assert_eq!(*map.get(id).unwrap().guard, 42);
    assert_eq!(map.remove(id), Some(42));
    assert!(map.get(id).is_none());
    assert!(map.is_empty());
}

#[test]
fn sync_slotmap_swap_within_and_across_shards() {
    let map = SlotMap::with_num_shards(4).unwrap();
    let ids = (0..8).map(|i| map.insert(i * 10)).collect::<Vec<usize>>();
    assert_eq!(split(4, ids[0]).0, split(4, ids[4]).0);
    assert_eq!(map.swap(ids[0], ids[4], false), Some(()));
    assert_eq!(*map.get(ids[0]).unwrap().guard, 40);
    assert_eq!(*map.get(ids[4]).unwrap().guard, 0);
    assert_eq!(map.swap(ids[1], ids[2], false), Some(()));
    assert_eq!(map.swap(ids[3], ids[2], true), Some(()));
    assert_eq!(*map.get(ids[1]).unwrap().guard, 20);
    assert_eq!(*map.get(ids[2]).unwrap().guard, 30);
    assert_eq!(*map.get(ids[3]).unwrap().guard, 10);
    assert_eq!(map.swap(ids[5], ids[5], false), Some(()));
    assert_eq!(*map.get(ids[5]).unwrap().guard, 50);
    assert_eq!(map.swap(ids[5], 4000, false), None);
    assert_eq!(map.swap(4001, ids[5], true), None);
    assert_eq!(map.swap(4000, 4004, false), None);
    assert_eq!(*map.get(ids[5]).unwrap().guard, 50);
    assert_eq!(map.len(), 8);
}

#[test]
fn sync_slotmap_lazy_insert_cancel() {
    let map = SlotMap::with_num_shards(4).unwrap();
    let (id, guard) = map.lazy_insert();
    guard.cancel();
    assert!(!map.contains(id));
    assert_eq!(map.len(), 0);
    let (again, guard) = map.lazy_insert();
    assert_ne!(again, id);
    guard.commit('x');
    assert_eq!(*map.get(again).unwrap().guard, 'x');
    assert_eq!(map.len(), 1);
}

#[test]
fn sync_slotmap_many_inserts_then_removes_by_id() {
    let map = SlotMap::new(32);
    let ids = (0..16_000usize).map(|i| map.insert(i)).collect::<Vec<usize>>();
    assert_eq!(map.len(), 16_000);
    let removed = ids.iter().filter(|&&id| map.remove(id).is_some()).count();
    assert_eq!(removed, 16_000);
    assert!(map.is_empty());
    assert_eq!(ids.iter().filter(|&&id| map.remove(id).is_some()).count(), 0);
}

#[test]
fn sync_slotheap_guards_read_and_default() {
    let heap = SlotHeap::<i32, char>::default();
    assert!(heap.peek().is_none());
    assert!(heap.peek_mut().is_none());
    assert!(heap.peek_key_mut().is_none());
    assert!(heap.peek_value_mut().is_none());
    let a = heap.insert(3, 'a');
    let b = heap.insert(1, 'b');
    assert_eq!(*heap.peek().unwrap().guard, (1, 'b'));
    assert_eq!(*heap.peek_value().unwrap().guard, 'b');
    assert_eq!(*heap.get_value(a).unwrap().guard, 'a');
    assert!(heap.get_value(77).is_none());
    assert!(heap.get_mut(77).is_none());
    assert!(heap.get_key_mut(77).is_none());
    assert!(heap.get_value_mut(77).is_none());

    let mut guard = heap.peek_mut().unwrap();
    assert_eq!(guard.deref(), Some(&(1, 'b')));
    *guard.deref_mut().unwrap() = (9, 'z');
    guard.release();
    let guard = heap.peek_key_mut().unwrap();
    assert_eq!(guard.deref(), Some(&3));
    guard.release();
    let mut guard = heap.get_mut(b).unwrap();
    assert_eq!(guard.deref(), Some(&(9, 'z')));
    guard.deref_mut().unwrap().0 = 0;
    guard.release();
    let guard = heap.get_key_mut(a).unwrap();
    assert_eq!(guard.deref(), Some(&3));
    guard.release();
    assert_eq!(heap.pop(), Some((0, 'z')));
    assert_eq!(heap.pop(), Some((3, 'a')));
    assert_eq!(heap.pop(), None);
}

#[test]
fn sync_slotmap_swap_unchecked() {
    let map = SlotMap::with_num_shards(4).unwrap();
    let a = map.insert(1i32);
    let b = map.insert(2);
    map.swap_unchecked(a, b, false);
    assert_eq!(*map.get(a).unwrap().guard, 2);
    assert_eq!(*map.get(b).unwrap().guard, 1);
    map.swap_unchecked(a, 4000, true);
    assert_eq!(*map.get(a).unwrap().guard, 2);
}

#[test]
fn shard_level_insert_and_reservation() {
    let mut map = deadlock::unsync::SlotMap::new();
    assert_eq!(insert_into(&mut map, 8, 3, 'a'), 3);
    assert_eq!(insert_into(&mut map, 8, 3, 'b'), 11);
    assert_eq!(map.get(0), Some(&'a'));
    assert_eq!(map.get(1), Some(&'b'));
    assert_eq!(reserve_in(&mut map, 8, 5), (21, 2));
    assert!(map.is_reserved(2));
    assert_eq!(commit_reserved(&mut map, 1, 'x'), Some('x'));
    assert_eq!(commit_reserved(&mut map, 7, 'x'), Some('x'));
    assert_eq!(commit_reserved(&mut map, 2, 'c'), None);
    assert_eq!(map.get(2), Some(&'c'));
    assert_eq!(map.len(), 3);
    assert_eq!(reserve_in(&mut map, 8, 0), (24, 3));
    assert!(!cancel_reserved(&mut map, 2));
    assert!(cancel_reserved(&mut map, 3));
    assert!(!cancel_reserved(&mut map, 3));
    assert_eq!(insert_into(&mut map, 8, 0, 'd'), 24);
}

#[test]
fn shard_level_swap_between_two_maps() {
    let mut left = deadlock::unsync::SlotMap::new();
    let mut right = deadlock::unsync::SlotMap::new();
    let a = left.insert(1);
    let b = right.insert(2);
    right.insert(3);
    assert_eq!(swap_between(&mut left, a, &mut right, b), Some(()));
    assert_eq!(left.get(a), Some(&2));
    assert_eq!(right.get(b), Some(&1));
    assert_eq!(swap_between(&mut left, 9, &mut right, b), None);
    assert_eq!(swap_between(&mut left, a, &mut right, 9), None);
    assert_eq!(left.get(a), Some(&2));
    assert_eq!(right.get(b), Some(&1));
    assert_eq!(right.get(1), Some(&3));
}

#[test]
fn shard_selection_takes_the_least_loaded_candidate() {
    assert_eq!(select(16, 5, &[0, 0, 0, 0]), 5);
    assert_eq!(select(16, 5, &[2, 1, 1, 3]), 9);
    assert_eq!(select(16, 5, &[2, 2, 2, 1]), 1);
    assert_eq!(select(4, 3, &[7, 7, 6, 7]), 1);
}

#[test]
fn shard_loads_are_added_up() {
    assert_eq!(total_load(&vec![]), 0);
    assert_eq!(total_load(&vec![3, 0, 4, 1]), 8);
    assert_eq!(total_load(&vec![usize::MAX, 2]), 1);
    assert!(all_idle(&vec![]));
    assert!(all_idle(&vec![0, 0, 0, 0]));
    assert!(!all_idle(&vec![0, 0, 1, 0]));
    assert!(!all_idle(&vec![usize::MAX]));
}

#[test]
fn sync_slotmap_len_is_the_sum_over_the_shards() {
    let map = SlotMap::with_num_shards(8).unwrap();
    assert!(map.is_empty());
    let ids = (0..100).map(|i| map.insert(i)).collect::<Vec<usize>>();
    assert_eq!(map.len(), 100);
    assert!(!map.is_empty());
    for &id in &ids[..99] {
        assert!(map.remove(id).is_some());
    }
    assert_eq!(map.len(), 1);
    assert!(!map.is_empty());
    assert!(map.remove(ids[99]).is_some());
    assert_eq!(map.len(), 0);
    assert!(map.is_empty());
}

#[test]
fn sync_slotheap_guard_puts_the_heap_back() {
    let heap = SlotHeap::new();
    let ids = (0..10i32).map(|k| heap.insert(k, k as u64)).collect::<Vec<usize>>();
    assert!(heap.get_mut(999).is_none());
    assert!(heap.get_key_mut(999).is_none());
    assert_eq!(heap.len(), 10);
    {
        let guard = heap.peek_mut().unwrap();
        assert_eq!(guard.deref(), Some(&(0, 0)));
    }
    assert_eq!(heap.len(), 10);
    {
        let mut guard = heap.get_mut(ids[4]).unwrap();
        assert_eq!(guard.deref(), Some(&(4, 4)));
        guard.deref_mut().unwrap().1 = 44;
        assert_eq!(guard.deref(), Some(&(4, 44)));
    }
    assert_eq!(heap.len(), 10);
    assert_eq!(*heap.get_value(ids[4]).unwrap().guard, 44);
    let mut guard = heap.get_key_mut(ids[9]).unwrap();
    assert_eq!(guard.deref(), Some(&9));
    *guard.deref_mut().unwrap() = -1;
    assert_eq!(guard.deref(), Some(&-1));
    guard.release();
    assert_eq!(*heap.peek().unwrap().guard, (-1, 9));
    let mut keys = Vec::new();
    while let Some((key, _)) = heap.pop() {
        keys.push(key);
    }
    assert_eq!(keys, vec![-1, 0, 1, 2, 3, 4, 5, 6, 7, 8]);
    assert!(heap.peek_mut().is_none());
    assert!(heap.peek_key_mut().is_none());
    assert_eq!(heap.insert(3, 3), 0);
}

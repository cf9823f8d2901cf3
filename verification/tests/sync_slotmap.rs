use deadlock::sync::SlotMap;

const NUM_THREADS: usize = 2;

#[test]
fn sync_slotmap_insert_and_get() {
    let map = SlotMap::new(NUM_THREADS);
    let a = map.insert(10i32);
    let b = map.insert(20);
    let c = map.insert(30);

    assert_eq!(*map.get(a).unwrap().guard, 10);
    assert_eq!(*map.get(b).unwrap().guard, 20);
    assert_eq!(*map.get(c).unwrap().guard, 30);
}

#[test]
fn sync_slotmap_contains() {
    let map = SlotMap::new(NUM_THREADS);
    let a = map.insert(1i32);
    assert!(map.contains(a));
    assert!(!map.contains(a.wrapping_add(0xffff)));
}

#[test]
fn sync_slotmap_len_and_is_empty() {
    let map = SlotMap::new(NUM_THREADS);
    assert_eq!(map.len(), 0);
    assert!(map.is_empty());

    let a = map.insert(1i32);
    assert_eq!(map.len(), 1);
    assert!(!map.is_empty());

    map.insert(2);
    assert_eq!(map.len(), 2);
    map.remove(a);
    assert_eq!(map.len(), 1);
}

#[test]
fn sync_slotmap_remove_returns_value() {
    let map = SlotMap::new(NUM_THREADS);
    let a = map.insert(42i32);
    assert_eq!(map.remove(a), Some(42));
    assert_eq!(map.remove(a), None);
    assert!(!map.contains(a));
}

#[test]
fn remove_invalid_id() {
    let map = SlotMap::<i32>::new(NUM_THREADS);
    assert_eq!(map.remove(0), None);
}

#[test]
fn sync_slotmap_stable_ids_after_remove() {
    let map = SlotMap::new(NUM_THREADS);
    let a = map.insert(1i32);
    let b = map.insert(2);
    let c = map.insert(3);
    map.remove(b);

    assert_eq!(*map.get(a).unwrap().guard, 1);
    assert!(map.get(b).is_none());
    assert_eq!(*map.get(c).unwrap().guard, 3);
}

#[test]
fn sync_slotmap_get_mut() {
    let map = SlotMap::new(NUM_THREADS);
    let a = map.insert(10i32);
    *map.get_mut(a).unwrap().guard = 99;
    assert_eq!(*map.get(a).unwrap().guard, 99);
    assert!(map.get_mut(999).is_none());
}

#[test]
fn sync_slotmap_clear() {
    let map = SlotMap::new(NUM_THREADS);
    let a = map.insert(1i32);
    map.insert(2);
    map.clear();

    assert_eq!(map.len(), 0);
    assert!(map.is_empty());
    assert!(map.get(a).is_none());
}

#[test]
fn with_num_shards_valid() {
    let m = SlotMap::<i32>::with_num_shards(4).unwrap();
    assert_eq!(m.num_shards(), 4);
    let m = SlotMap::<i32>::with_num_shards(8).unwrap();
    assert_eq!(m.num_shards(), 8);
}

#[test]
fn with_num_shards_invalid() {
    for n in [0, 1, 2, 3, 5, 6, 7] {
        assert!(
            SlotMap::<i32>::with_num_shards(n).is_none(),
            "should reject {}",
            n
        );
    }
}

#[test]
fn many_insertions_maintain_correctness() {
    let map = SlotMap::new(NUM_THREADS);
    let n = 500i32;
    let ids = (0..n).map(|i| map.insert(i)).collect::<Vec<usize>>();
    assert_eq!(map.len(), n as usize);
    for (i, &id) in ids.iter().enumerate() {
        assert_eq!(*map.get(id).unwrap().guard, i as i32);
    }
    for &id in ids.iter().step_by(2) {
        map.remove(id);
    }
    assert_eq!(map.len(), (n / 2) as usize);
}

#[test]
fn edge_with_num_shards_min_and_max() {
    let m4 = SlotMap::<i32>::with_num_shards(4).unwrap();
    let m8 = SlotMap::<i32>::with_num_shards(8).unwrap();
    assert_eq!(m4.num_shards(), 4);
    assert_eq!(m8.num_shards(), 8);
    let a = m4.insert(1);
    let b = m8.insert(2);
    assert_eq!(*m4.get(a).unwrap().guard, 1);
    assert_eq!(*m8.get(b).unwrap().guard, 2);
    assert_eq!(m4.remove(a), Some(1));
    assert_eq!(m8.remove(b), Some(2));
}

#[test]
fn edge_clear_then_insert_again() {
    let map = SlotMap::new(NUM_THREADS);
    map.insert(1i32);
    map.insert(2);
    map.clear();
    assert!(map.is_empty());
    let a = map.insert(10);
    let b = map.insert(20);
    assert_eq!(*map.get(a).unwrap().guard, 10);
    assert_eq!(*map.get(b).unwrap().guard, 20);
    assert_eq!(map.len(), 2);
}

#[test]
fn edge_remove_invalid_id_returns_none() {
    let map = SlotMap::new(NUM_THREADS);
    let a = map.insert(42i32);
    map.remove(a);
    assert!(map.remove(a).is_none());
    assert!(map.get(a).is_none());
}

#[test]
fn lazy_insert_commit() {
    let map = SlotMap::new(NUM_THREADS);
    let (id, guard) = map.lazy_insert();
    assert_eq!(map.len(), 0);
    guard.commit(42i32);
    assert!(map.get(id).is_some_and(|v| *v.guard == 42));
    assert_eq!(map.len(), 1);
}

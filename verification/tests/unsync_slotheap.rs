use deadlock::unsync::SlotHeap;

const N: usize = 40;

fn lcg_next(state: &mut u32) -> u32 {
    *state = state.wrapping_mul(1103515245).wrapping_add(12345);
    *state & 0x7fff_ffff
}

fn shuffle_slice(rng: &mut u32, keys: &mut [i32]) {
    for i in 0..keys.len().saturating_sub(1) {
        let rem = (keys.len() - i) as u32;
        let j = i + (lcg_next(rng) % rem) as usize;
        keys.swap(i, j);
    }
}

fn pop_all<K: PartialOrd, V>(heap: &mut SlotHeap<K, V>) -> Vec<(K, V)> {
    let mut result = Vec::new();
    while let Some(item) = heap.pop() {
        result.push(item);
    }
    result
}

fn is_non_decreasing<K: PartialOrd, V>(items: &[(K, V)]) -> bool {
    items.windows(2).all(|w| w[0].0 <= w[1].0)
}

#[test]
fn unsync_heap_three_elements() {
    let mut heap = SlotHeap::new();
    let a = heap.insert(3, "three");
    let b = heap.insert(1, "one");
    let c = heap.insert(2, "two");
    assert_eq!((a, b, c), (0, 1, 2));

    assert_eq!(heap.pop(), Some((1, "one")));
    assert_eq!(heap.pop(), Some((2, "two")));
    assert_eq!(heap.remove(a), Some((3, "three")));
    assert_eq!(heap.len(), 0);
    assert!(heap.is_empty());
}

#[test]
fn unsync_heap_duplicate_keys_leave_by_id() {
    let mut heap = SlotHeap::new();
    heap.insert(5, 'a');
    heap.insert(5, 'b');
    heap.insert(5, 'c');
    heap.insert(1, 'd');

    assert_eq!(heap.pop(), Some((1, 'd')));
    assert_eq!(heap.pop(), Some((5, 'a')));
    assert_eq!(heap.pop(), Some((5, 'b')));
    assert_eq!(heap.pop(), Some((5, 'c')));
    assert_eq!(heap.pop(), None);
}

#[test]
fn unsync_heap_key_guard_moves_element_to_root() {
    let mut heap = SlotHeap::new();
    let ids = (0..N as i32).map(|k| heap.insert(k, ())).collect::<Vec<usize>>();
    let middle = ids[N / 2];

    let mut guard = heap.get_key_mut(middle).unwrap();
    assert_eq!(*guard.deref(), (N / 2) as i32);
    *guard.deref_mut() = -1;
    guard.release();

    assert_eq!(heap.peek_key(), Some(&-1));
    assert_eq!(heap.get_key(middle), Some(&-1));
    let result = pop_all(&mut heap);
    assert!(is_non_decreasing(&result));
    assert_eq!(result.len(), N);
    assert_eq!(result[0].0, -1);
}

#[test]
fn unsync_heap_insert_and_pop_order() {
    let mut heap = SlotHeap::new();
    let mut keys = (0..N as i32).map(|i| (i * 7 + 3) % (N as i32)).collect::<Vec<i32>>();
    let mut rng = 1u32;
    shuffle_slice(&mut rng, &mut keys);
    for k in &keys {
        heap.insert(*k, ());
    }
    let result = pop_all(&mut heap);
    assert!(is_non_decreasing(&result));
    assert_eq!(result.len(), N);
}

#[test]
fn unsync_heap_random_ops_keep_every_key() {
    let mut heap = SlotHeap::new();
    let mut rng = 123u32;
    let mut keys = (0..3000i32).collect::<Vec<i32>>();
    shuffle_slice(&mut rng, &mut keys);
    let mut key_index = 0usize;
    let mut live_ids: Vec<usize> = Vec::new();
    let mut out: Vec<i32> = Vec::new();
    for _ in 0..15_000usize {
        let op = lcg_next(&mut rng) % 3;
        if op == 0 && key_index < keys.len() {
            live_ids.push(heap.insert(keys[key_index], ()));
            key_index += 1;
        } else if op == 1 {
            if let Some((k, _)) = heap.pop() {
                out.push(k);
            }
        } else if op == 2 && !live_ids.is_empty() {
            let idx = (lcg_next(&mut rng) as usize) % live_ids.len();
            let id = live_ids.swap_remove(idx);
            if let Some((k, _)) = heap.remove(id) {
                out.push(k);
            }
        }
    }
    let rest = pop_all(&mut heap);
    assert!(is_non_decreasing(&rest));
    out.extend(rest.into_iter().map(|r| r.0));
    out.sort();
    let mut inserted = keys[..key_index].to_vec();
    inserted.sort();
    assert_eq!(out, inserted);
}

#[test]
fn unsync_heap_remove_by_id() {
    let mut heap = SlotHeap::new();
    let ids = (0..N as i32).map(|i| heap.insert(i, ())).collect::<Vec<usize>>();
    for &i in &[0, 5, 10, N / 2, N - 1] {
        assert_eq!(heap.remove(ids[i]), Some((i as i32, ())));
        assert!(!heap.contains(ids[i]));
        assert_eq!(heap.remove(ids[i]), None);
    }
    assert_eq!(heap.len(), N - 5);
    let result = pop_all(&mut heap);
    assert!(is_non_decreasing(&result));
    assert_eq!(result.len(), N - 5);
}

#[test]
fn unsync_heap_removed_id_is_used_again() {
    let mut heap = SlotHeap::new();
    let a = heap.insert(10, 'a');
    let b = heap.insert(20, 'b');
    assert_eq!(heap.remove(a), Some((10, 'a')));
    let c = heap.insert(30, 'c');
    assert_eq!(c, a);
    assert_eq!(heap.get(c), Some(&(30, 'c')));
    assert_eq!(heap.get(b), Some(&(20, 'b')));
}

#[test]
fn unsync_heap_pop_of_last_element_resets_ids() {
    let mut heap = SlotHeap::new();
    heap.insert(1, ());
    let b = heap.insert(2, ());
    assert_eq!(b, 1);
    assert_eq!(heap.pop(), Some((1, ())));
    assert_eq!(heap.pop(), Some((2, ())));
    assert_eq!(heap.insert(3, ()), 0);
    assert_eq!(heap.insert(4, ()), 1);
}

#[test]
fn unsync_heap_peek_and_get() {
    let mut heap = SlotHeap::new();
    assert_eq!(heap.peek(), None);
    assert_eq!(heap.peek_key(), None);
    assert_eq!(heap.peek_value(), None);
    let ids = (0..N as i32).rev().map(|i| heap.insert(i * 2, i as u64)).collect::<Vec<usize>>();
    assert_eq!(heap.peek(), Some(&(0, 0)));
    assert_eq!(heap.peek_key(), Some(&0));
    assert_eq!(heap.peek_value(), Some(&0));
    assert_eq!(*heap.peek_unchecked(), (0, 0));
    assert_eq!(*heap.peek_unchecked_key(), 0);
    assert_eq!(*heap.peek_unchecked_value(), 0);
    for (i, &id) in ids.iter().enumerate() {
        let key = (N - 1 - i) as i32 * 2;
        let value = (N - 1 - i) as u64;
        assert_eq!(heap.get(id), Some(&(key, value)));
        assert_eq!(heap.get_key(id), Some(&key));
        assert_eq!(heap.get_value(id), Some(&value));
        assert_eq!(*heap.get_unchecked(id), (key, value));
        assert_eq!(*heap.get_unchecked_key(id), key);
        assert_eq!(*heap.get_unchecked_value(id), value);
    }
    assert_eq!(heap.get(99999), None);
    assert_eq!(heap.get_key(99999), None);
    assert_eq!(heap.get_value(99999), None);
}

#[test]
fn unsync_heap_value_changes_do_not_reorder() {
    let mut plain = SlotHeap::new();
    let mut changed = SlotHeap::new();
    let mut keys = (0..N as i32).map(|i| i % 7).collect::<Vec<i32>>();
    let mut rng = 7u32;
    shuffle_slice(&mut rng, &mut keys);
    let mut ids = Vec::new();
    for (i, k) in keys.iter().enumerate() {
        plain.insert(*k, i as u64);
        ids.push(changed.insert(*k, i as u64));
    }
    for &id in &ids {
        *changed.get_value_mut(id).unwrap() += 1000;
    }
    *changed.peek_value_mut().unwrap() += 1000;
    assert!(changed.get_value_mut(99999).is_none());

    let plain_out = pop_all(&mut plain);
    let changed_out = pop_all(&mut changed);
    assert_eq!(plain_out.len(), changed_out.len());
    for (p, c) in plain_out.iter().zip(changed_out.iter()) {
        assert_eq!(p.0, c.0);
        assert!(c.1 == p.1 + 1000 || c.1 == p.1 + 2000);
    }
}

#[test]
fn unsync_heap_peek_mut_with_key_increase() {
    let mut heap = SlotHeap::new();
    for i in 0..N as i32 {
        heap.insert(i, ());
    }
    let mut guard = heap.peek_mut().unwrap();
    assert_eq!(*guard.deref(), (0, ()));
    guard.deref_mut().0 = N as i32 + 100;
    guard.release();
    assert_eq!(heap.peek_key(), Some(&1));
    let result = pop_all(&mut heap);
    assert!(is_non_decreasing(&result));
    assert_eq!(result.last().unwrap().0, N as i32 + 100);
}

#[test]
fn unsync_heap_peek_key_mut_with_increase() {
    let mut heap = SlotHeap::new();
    for i in 0..N as i32 {
        heap.insert(i, ());
    }
    let mut guard = heap.peek_key_mut().unwrap();
    assert_eq!(*guard.deref(), 0);
    *guard.deref_mut() = N as i32 + 200;
    guard.release();
    let result = pop_all(&mut heap);
    assert!(is_non_decreasing(&result));
    assert_eq!(result.last().unwrap().0, N as i32 + 200);
}

#[test]
fn unsync_heap_get_mut_with_key_changes() {
    let mut heap = SlotHeap::new();
    let ids = (0..N as i32).map(|i| heap.insert(i, i as u64)).collect::<Vec<usize>>();
    let mut guard = heap.get_mut(ids[3]).unwrap();
    assert_eq!(*guard.deref(), (3, 3));
    *guard.deref_mut() = (N as i32 + 5, 77);
    guard.release();
    let mut guard = heap.get_mut(ids[30]).unwrap();
    guard.deref_mut().0 = -5;
    guard.release();
    assert!(heap.get_mut(99999).is_none());
    assert!(heap.get_key_mut(99999).is_none());

    assert_eq!(heap.peek(), Some(&(-5, 30)));
    let result = pop_all(&mut heap);
    assert!(is_non_decreasing(&result));
    assert_eq!(result.len(), N);
    assert_eq!(*result.last().unwrap(), (N as i32 + 5, 77));
}

#[test]
fn unsync_heap_untouched_guards_change_nothing() {
    let mut heap = SlotHeap::new();
    let ids = (0..N as i32).rev().map(|i| heap.insert(i, ())).collect::<Vec<usize>>();
    heap.peek_mut().unwrap().release();
    heap.peek_key_mut().unwrap().release();
    heap.get_mut(ids[N / 2]).unwrap().release();
    heap.get_key_mut(ids[N / 2]).unwrap().release();
    assert_eq!(heap.len(), N);
    let result = pop_all(&mut heap);
    assert!(is_non_decreasing(&result));
    assert_eq!(result.len(), N);
}

#[test]
fn unsync_heap_guards_remove() {
    let mut heap = SlotHeap::new();
    let ids = (0..N as i32).map(|i| heap.insert(i, i as u64)).collect::<Vec<usize>>();
    assert_eq!(heap.peek_mut().unwrap().remove(), (0, 0));
    assert_eq!(heap.peek_key_mut().unwrap().remove(), 1);
    assert_eq!(heap.get_mut(ids[20]).unwrap().remove(), (20, 20));
    assert_eq!(heap.get_key_mut(ids[21]).unwrap().remove(), 21);
    assert_eq!(heap.len(), N - 4);
    assert!(!heap.contains(ids[0]));
    assert!(!heap.contains(ids[20]));
    let result = pop_all(&mut heap);
    assert!(is_non_decreasing(&result));
    assert_eq!(result.len(), N - 4);
}

#[test]
fn unsync_heap_empty_heap_has_no_guards() {
    let mut heap = SlotHeap::<i32, ()>::new();
    assert!(heap.peek_mut().is_none());
    assert!(heap.peek_key_mut().is_none());
    assert!(heap.peek_value_mut().is_none());
    assert_eq!(heap.pop(), None);
    assert_eq!(heap.remove(0), None);
}

#[test]
fn unsync_heap_clear_and_default() {
    let mut heap = SlotHeap::<i32, ()>::default();
    let ids = (0..N as i32).map(|i| heap.insert(i, ())).collect::<Vec<usize>>();
    heap.clear();
    assert!(heap.is_empty());
    for &id in &ids {
        assert!(!heap.contains(id));
    }
    assert_eq!(heap.pop(), None);
    assert_eq!(heap.insert(9, ()), 0);
}

#[test]
fn unsync_heap_positions_and_heapify() {
    let mut heap = SlotHeap::new();
    let ids = (0..N as i32).map(|i| heap.insert(i, ())).collect::<Vec<usize>>();
    for &id in &ids {
        let index = heap.get_index(id).unwrap();
        assert_eq!(heap.get_unchecked_index(id), index);
        assert_eq!(heap.by_index(index), heap.get(id));
    }
    assert_eq!(heap.get_index(99999), None);
    assert_eq!(heap.by_index(N), None);
    assert!(heap.by_index_mut(N).is_none());

    let index = heap.get_index(ids[N - 1]).unwrap();
    heap.by_index_mut(index).unwrap().0 = -3;
    heap.heapify(index);
    assert_eq!(heap.peek_key(), Some(&-3));
    heap.peek_mut_impl().0 = 1000;
    heap.heapify_down(0);
    assert_eq!(heap.peek_key(), Some(&0));
    assert_eq!(heap.get_key(ids[N - 1]), Some(&1000));
    heap.get_mut_impl(ids[5]).0 = -9;
    heap.heapify(heap.get_index(ids[5]).unwrap());
    heap.heapify(N + 7);
    heap.heapify_down(N + 7);
    let result = pop_all(&mut heap);
    assert!(is_non_decreasing(&result));
    assert_eq!(result.len(), N);
    assert_eq!(result[0].0, -9);
    assert_eq!(result[1].0, 0);
    assert_eq!(result.last().unwrap().0, 1000);
}

#[test]
fn unsync_heap_keys_that_cannot_be_compared_leave_by_id() {
    #[derive(Debug, PartialEq)]
    struct Never(u8);
    impl PartialOrd for Never {
        fn partial_cmp(&self, _other: &Never) -> Option<std::cmp::Ordering> {
            None
        }
    }
    let mut heap = SlotHeap::new();
    for i in 0..10u8 {
        heap.insert(Never(9 - i), ());
    }
    for i in 0..10u8 {
        assert_eq!(heap.pop(), Some((Never(9 - i), ())));
    }
}

use deadlock::unsync::SlotMap;
use std::collections::HashMap;

#[test]
fn slotmap_remove_then_reuse() {
    let mut map = SlotMap::new();
    let a = map.insert(10);
    let b = map.insert(20);
    let c = map.insert(30);
    assert_eq!(map.remove(b), Some(20));

    assert_eq!(map.get(a), Some(&10));
    assert_eq!(map.get(b), None);
    assert_eq!(map.get(c), Some(&30));
    assert_eq!(map.len(), 2);

    let d = map.insert(40);
    assert_eq!(d, b);
    assert_eq!(map.get(d), Some(&40));
}

#[test]
fn slotmap_ids_are_positions() {
    let mut map = SlotMap::new();
    for i in 0..10usize {
        assert_eq!(map.insert(i), i);
    }
    assert_eq!(map.slots(), 10);
}

#[test]
fn slotmap_free_list_is_last_in_first_out() {
    let mut map = SlotMap::new();
    let ids = (0..6).map(|i| map.insert(i)).collect::<Vec<usize>>();
    map.remove(ids[1]);
    map.remove(ids[4]);
    map.remove(ids[2]);
    assert_eq!(map.insert(100), ids[2]);
    assert_eq!(map.insert(101), ids[4]);
    assert_eq!(map.insert(102), ids[1]);
    assert_eq!(map.insert(103), 6);
    assert_eq!(map.len(), 7);
}

fn lcg_next(state: &mut u32) -> u32 {
    *state = state.wrapping_mul(1103515245).wrapping_add(12345);
    *state & 0x7fff_ffff
}

#[test]
fn slotmap_agrees_with_a_model() {
    let mut map = SlotMap::new();
    let mut model: HashMap<usize, u32> = HashMap::new();
    let mut rng = 99u32;
    for step in 0..5000u32 {
        let id = (lcg_next(&mut rng) % 64) as usize;
        match lcg_next(&mut rng) % 5 {
            0 | 1 => {
                let new_id = map.insert(step);
                assert!(model.insert(new_id, step).is_none());
            }
            2 => assert_eq!(map.remove(id), model.remove(&id)),
            3 => {
                let other = (lcg_next(&mut rng) % 64) as usize;
                let both = model.contains_key(&id) && model.contains_key(&other);
                assert_eq!(map.swap(id, other).is_some(), both);
                if both {
                    let (left, right) = (model[&id], model[&other]);
                    model.insert(id, right);
                    model.insert(other, left);
                }
            }
            _ => {
                if let Some(value) = map.get_mut(id) {
                    *value += 1;
                    *model.get_mut(&id).unwrap() += 1;
                } else {
                    assert!(!model.contains_key(&id));
                }
            }
        }
        assert_eq!(map.len(), model.len());
        assert_eq!(map.is_empty(), model.is_empty());
        assert_eq!(map.contains(id), model.contains_key(&id));
        assert_eq!(map.get(id), model.get(&id));
    }
    let mut pairs = Vec::new();
    let mut iter = map.iter();
    assert_eq!(iter.len(), model.len());
    while let Some((id, value)) = iter.next() {
        pairs.push((id, *value));
    }
    let mut expected = model.into_iter().collect::<Vec<(usize, u32)>>();
    expected.sort();
    assert_eq!(pairs, expected);
}

#[test]
fn slotmap_clear_resets_ids() {
    let mut map = SlotMap::new();
    map.insert(1);
    let b = map.insert(2);
    map.remove(b);
    map.clear();
    assert_eq!(map.len(), 0);
    assert_eq!(map.slots(), 0);
    assert_eq!(map.insert(7), 0);
}

#[test]
fn slotmap_lazy_insert_commit() {
    let mut map = SlotMap::new();
    let a = map.insert(1);
    let id = map.prepare_lazy_insert();
    assert_eq!(id, 1);
    assert!(map.is_reserved(id));
    assert!(!map.is_reserved(a));
    assert!(!map.contains(id));
    assert_eq!(map.len(), 1);
    assert_eq!(map.insert(3), 2);
    map.commit_lazy_insert(id, 2);
    assert!(!map.is_reserved(id));
    assert_eq!(map.get(id), Some(&2));
    assert_eq!(map.len(), 3);
}

#[test]
fn slotmap_lazy_insert_drop() {
    let mut map = SlotMap::new();
    let ids = (0..4).map(|i| map.insert(i)).collect::<Vec<usize>>();
    map.remove(ids[1]);
    map.remove(ids[2]);
    let id = map.prepare_lazy_insert();
    assert_eq!(id, ids[2]);
    assert!(map.is_reserved(id));
    assert_eq!(map.get(id), None);
    assert_eq!(map.remove(id), None);
    map.drop_lazy_insert(id);
    assert!(!map.is_reserved(id));
    assert_eq!(map.len(), 2);
    assert_eq!(map.insert(10), ids[2]);
    assert_eq!(map.insert(11), ids[1]);
    assert_eq!(map.insert(12), 4);
}

#[test]
fn slotmap_iterators_from_both_ends() {
    let mut map = SlotMap::new();
    let ids = (0..8).map(|i| map.insert(i * 10)).collect::<Vec<usize>>();
    map.remove(ids[0]);
    map.remove(ids[3]);
    map.remove(ids[7]);

    let mut iter = map.iter();
    assert_eq!(iter.size_hint(), (5, Some(5)));
    assert_eq!(iter.next(), Some((1, &10)));
    assert_eq!(iter.next_back(), Some((6, &60)));
    assert_eq!(iter.len(), 3);
    assert_eq!(iter.next_back(), Some((5, &50)));
    assert_eq!(iter.next(), Some((2, &20)));
    assert_eq!(iter.next(), Some((4, &40)));
    assert_eq!(iter.next(), None);
    assert_eq!(iter.next_back(), None);
    assert_eq!(iter.len(), 0);

    let mut ids_iter = map.ids();
    assert_eq!(ids_iter.next_back(), Some(6));
    assert_eq!(ids_iter.next(), Some(1));
    assert_eq!(ids_iter.size_hint(), (3, Some(3)));

    let mut values = map.values();
    assert_eq!(values.next(), Some(&10));
    assert_eq!(values.next_back(), Some(&60));
    assert_eq!(values.len(), 3);

    let mut values_mut = map.values_mut();
    assert_eq!(values_mut.len(), 5);
    *values_mut.next_back().unwrap() += 1;
    *values_mut.next().unwrap() += 2;
    assert_eq!(values_mut.size_hint(), (3, Some(3)));
    let mut iter_mut = map.iter_mut();
    let (id, value) = iter_mut.next_back().unwrap();
    assert_eq!((id, *value), (6, 61));
    *value += 5;
    assert_eq!(iter_mut.next().map(|(id, value)| (id, *value)), Some((1, 12)));
    assert_eq!(iter_mut.len(), 3);
    assert_eq!(map.get(6), Some(&66));
}

#[test]
fn slotmap_consuming_iterators() {
    let build = || {
        let mut map = SlotMap::new();
        let ids = (0..6).map(|i| map.insert(i * 10)).collect::<Vec<usize>>();
        map.remove(ids[2]);
        map
    };
    let mut into_iter = build().into_iter();
    assert_eq!(into_iter.len(), 5);
    assert_eq!(into_iter.next(), Some((0, 0)));
    assert_eq!(into_iter.next_back(), Some((5, 50)));
    assert_eq!(into_iter.next(), Some((1, 10)));
    assert_eq!(into_iter.next(), Some((3, 30)));
    assert_eq!(into_iter.size_hint(), (1, Some(1)));
    assert_eq!(into_iter.next_back(), Some((4, 40)));
    assert_eq!(into_iter.next(), None);

    let mut into_ids = build().into_ids();
    assert_eq!(into_ids.next_back(), Some(5));
    assert_eq!(into_ids.next(), Some(0));
    assert_eq!(into_ids.len(), 3);
    assert_eq!(into_ids.size_hint(), (3, Some(3)));

    let mut into_values = build().into_values();
    assert_eq!(into_values.next(), Some(0));
    assert_eq!(into_values.next_back(), Some(50));
    assert_eq!(into_values.len(), 3);
    assert_eq!(into_values.size_hint(), (3, Some(3)));

    let mut map = build();
    let mut drain = map.drain();
    assert_eq!(drain.len(), 5);
    assert_eq!(drain.next(), Some((0, 0)));
    assert_eq!(drain.next_back(), Some((5, 50)));
    assert_eq!(drain.size_hint(), (3, Some(3)));
    assert!(map.is_empty());
    assert_eq!(map.insert(1), 0);
}

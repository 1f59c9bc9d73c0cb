use dense_slotmap::slotmap::{SlotKey, Slotmap};

fn filled_map(capacity: usize, count: u32) -> (Slotmap<u32>, Vec<SlotKey>) {
    let mut map = Slotmap::<u32>::new_with_capacity(capacity);
    let mut keys = Vec::<SlotKey>::new();
    for value in 0..count {
        match map.push(value) {
            Some(key) => keys.push(key),
            None => panic!("Could not push value"),
        }
    }
    (map, keys)
}

fn values_of(map: &Slotmap<u32>) -> Vec<u32> {
    let mut values = Vec::new();
    for value in map.get_iter() {
        values.push(*value);
    }
    values
}

#[test]
fn a_new_slotmap_is_empty_and_all_free() {
    let map = Slotmap::<u32>::new_with_capacity(100);
    assert_eq!(map.capacity(), 100);
    assert_eq!(map.len(), 0);
    assert!(map.is_empty());
    assert_eq!(map.free_list_len(), 1);
    assert_eq!(map.free_list_slice(), vec![(0, 100)]);
}

#[test]
fn a_slotmap_of_no_capacity_takes_no_value() {
    let mut map = Slotmap::<u32>::new_with_capacity(0);
    assert_eq!(map.capacity(), 0);
    assert_eq!(map.free_list_len(), 0);
    assert!(map.push(1).is_none());
    assert_eq!(map.len(), 0);
}

#[test]
fn pushes_up_to_capacity_all_succeed_and_are_counted() {
    let mut map = Slotmap::<u32>::new_with_capacity(10);
    for pushes in 1..=10usize {
        assert!(map.push(pushes as u32).is_some());
        assert_eq!(map.len(), pushes);
        assert!(map.free_list_len() <= pushes + 1);
    }
    assert!(!map.is_empty());
    assert_eq!(map.free_list_len(), 0);
    assert_eq!(map.free_list_slice(), vec![]);
}

#[test]
fn push_into_a_full_slotmap_fails_and_changes_nothing() {
    let (mut map, keys) = filled_map(3, 3);
    assert!(map.push(99).is_none());
    assert_eq!(map.len(), 3);
    assert_eq!(map.capacity(), 3);
    assert_eq!(values_of(&map), vec![0, 1, 2]);
    assert_eq!(map.get_value(keys[2]), Some(&2));
}

#[test]
fn a_pushed_value_is_found_under_its_key() {
    let (mut map, keys) = filled_map(100, 24);
    for (value, key) in keys.iter().enumerate() {
        assert!(map.is_valid(key));
        assert_eq!(map.get_value(*key), Some(&(value as u32)));
    }
    let key = map.push(1000).unwrap();
    assert_eq!(map.get_value(key), Some(&1000));
    assert_eq!(map.get_value(keys[7]), Some(&7));
}

#[test]
fn a_removed_key_stays_invalid_when_its_slot_is_used_again() {
    let (mut map, keys) = filled_map(100, 24);
    assert_eq!(map.remove(keys[0]), Some(0));
    assert!(!map.is_valid(&keys[0]));
    assert_eq!(map.get_value(keys[0]), None);

    // The lowest free slot is the one just freed: the next push takes it.
    assert_eq!(map.free_list_slice()[0], (0, 1));
    let new_key = map.push(500).unwrap();
    assert_eq!(map.free_list_slice(), vec![(24, 100)]);
    assert_eq!(map.get_value(new_key), Some(&500));

    assert!(!map.is_valid(&keys[0]));
    assert_eq!(map.get_value(keys[0]), None);
    assert_eq!(map.get_value_mut(keys[0]), None);
    assert_eq!(map.remove(keys[0]), None);
    assert_eq!(map.get_value(new_key), Some(&500));
    assert_eq!(map.len(), 24);
}

#[test]
fn removing_twice_finds_nothing_the_second_time() {
    let (mut map, keys) = filled_map(100, 24);
    assert_eq!(map.remove(keys[5]), Some(5));
    let free_after_first = map.free_list_slice();
    assert_eq!(free_after_first, vec![(5, 6), (24, 100)]);
    assert_eq!(map.remove(keys[5]), None);
    assert_eq!(map.len(), 23);
    assert_eq!(map.free_list_slice(), free_after_first);
}

#[test]
fn freeing_adjacent_slots_of_a_full_slotmap_leaves_one_bucket() {
    let (mut map, keys) = filled_map(100, 100);
    assert_eq!(map.free_list_len(), 0);
    assert_eq!(map.remove(keys[0]), Some(0));
    assert_eq!(map.remove(keys[1]), Some(1));
    assert_eq!(map.remove(keys[2]), Some(2));
    assert_eq!(map.free_list_slice(), vec![(0, 3)]);
    assert_eq!(map.free_list_len(), 1);
}

#[test]
fn freed_slots_merge_whatever_the_order_of_removal() {
    let (mut map, keys) = filled_map(100, 24);
    assert_eq!(map.len(), 24);
    assert_eq!(map.free_list_slice(), vec![(24, 100)]);

    assert_eq!(map.remove(keys[0]), Some(0));
    assert_eq!(map.free_list_slice(), vec![(0, 1), (24, 100)]);
    assert_eq!(map.remove(keys[2]), Some(2));
    assert_eq!(map.free_list_slice(), vec![(0, 1), (2, 3), (24, 100)]);
    assert_eq!(map.remove(keys[1]), Some(1));
    assert_eq!(map.free_list_slice(), vec![(0, 3), (24, 100)]);
    assert_eq!(map.remove(keys[4]), Some(4));
    assert_eq!(map.free_list_slice(), vec![(0, 3), (4, 5), (24, 100)]);
    assert_eq!(map.remove(keys[3]), Some(3));
    assert_eq!(map.free_list_slice(), vec![(0, 5), (24, 100)]);
    assert_eq!(map.remove(keys[23]), Some(23));
    assert_eq!(map.free_list_slice(), vec![(0, 5), (23, 100)]);
    assert_eq!(map.len(), 18);
}

#[test]
fn iteration_follows_the_order_of_insertion_while_nothing_is_removed() {
    let (map, _keys) = filled_map(100, 24);
    let expected: Vec<u32> = (0..24).collect();
    assert_eq!(values_of(&map), expected);
}

#[test]
fn removing_moves_the_last_value_into_the_gap() {
    let (mut map, keys) = filled_map(10, 5);
    assert_eq!(map.remove(keys[1]), Some(1));
    assert_eq!(values_of(&map), vec![0, 4, 2, 3]);
    // The key of the moved value still leads to it.
    assert_eq!(map.get_value(keys[4]), Some(&4));
    assert_eq!(map.get_value(keys[0]), Some(&0));
    assert_eq!(map.get_value(keys[2]), Some(&2));
    assert_eq!(map.get_value(keys[3]), Some(&3));

    // Removing the moved value now empties position 1 again.
    assert_eq!(map.remove(keys[4]), Some(4));
    assert_eq!(values_of(&map), vec![0, 3, 2]);
    assert_eq!(map.get_value(keys[3]), Some(&3));
}

#[test]
fn removing_the_last_value_moves_nothing() {
    let (mut map, keys) = filled_map(10, 3);
    assert_eq!(map.remove(keys[2]), Some(2));
    assert_eq!(values_of(&map), vec![0, 1]);
    assert_eq!(map.remove(keys[1]), Some(1));
    assert_eq!(map.remove(keys[0]), Some(0));
    assert!(map.is_empty());
    assert_eq!(map.free_list_slice(), vec![(0, 10)]);
}

#[test]
fn every_order_of_removal_returns_the_values_pushed() {
    let orders: [[usize; 4]; 6] = [
        [0, 1, 2, 3],
        [3, 2, 1, 0],
        [1, 3, 0, 2],
        [2, 0, 3, 1],
        [0, 3, 1, 2],
        [2, 1, 3, 0],
    ];
    for order in orders {
        let (mut map, keys) = filled_map(8, 6);
        for (done, position) in order.iter().enumerate() {
            assert_eq!(map.remove(keys[*position]), Some(*position as u32));
            assert_eq!(map.len(), 5 - done);
            // What was not removed is untouched.
            for other in 0..6usize {
                let removed = order[..=done].contains(&other);
                let expected = if removed { None } else { Some(other as u32) };
                assert_eq!(map.get_value(keys[other]).copied(), expected);
            }
        }
        assert_eq!(map.free_list_slice(), vec![(0, 4), (6, 8)]);
    }
}

#[test]
fn a_key_of_another_slotmap_is_not_valid() {
    let (_big, big_keys) = filled_map(10, 5);
    let (mut small, _small_keys) = filled_map(2, 1);
    // A slot that the small map does not have.
    assert!(!small.is_valid(&big_keys[4]));
    assert_eq!(small.get_value(big_keys[4]), None);
    assert_eq!(small.remove(big_keys[4]), None);
    // A slot that the small map has, but that is free.
    assert!(!small.is_valid(&big_keys[1]));
    assert_eq!(small.get_value(big_keys[1]), None);
    assert_eq!(small.remove(big_keys[1]), None);
    assert_eq!(small.len(), 1);
    assert_eq!(small.free_list_slice(), vec![(1, 2)]);
}

#[test]
fn get_value_mut_writes_the_value_of_the_key_only() {
    let (mut map, keys) = filled_map(10, 4);
    match map.get_value_mut(keys[2]) {
        Some(value) => *value = 70,
        None => panic!("Expected a value to be returned"),
    }
    assert_eq!(values_of(&map), vec![0, 1, 70, 3]);
    assert_eq!(map.get_value(keys[2]), Some(&70));
    assert_eq!(map.len(), 4);
}

#[test]
fn get_iter_mut_keeps_keys_and_free_slots() {
    let (mut map, keys) = filled_map(10, 4);
    for value in map.get_iter_mut() {
        *value *= 10;
    }
    assert_eq!(values_of(&map), vec![0, 10, 20, 30]);
    assert_eq!(map.get_value(keys[3]), Some(&30));
    assert_eq!(map.free_list_slice(), vec![(4, 10)]);
}

#[test]
fn reserve_exact_grows_by_what_is_missing() {
    let (mut map, keys) = filled_map(4, 4);
    assert!(map.push(4).is_none());
    assert_eq!(map.reserve_exact(3), Some(3));
    assert_eq!(map.capacity(), 7);
    assert_eq!(map.len(), 4);
    assert_eq!(map.free_list_slice(), vec![(4, 7)]);
    for (value, key) in keys.iter().enumerate() {
        assert_eq!(map.get_value(*key), Some(&(value as u32)));
    }
    let key = map.push(4).unwrap();
    assert_eq!(map.get_value(key), Some(&4));
    assert_eq!(map.free_list_slice(), vec![(5, 7)]);
}

#[test]
fn reserve_exact_does_nothing_when_there_is_room() {
    let (mut map, _keys) = filled_map(10, 4);
    assert_eq!(map.reserve_exact(6), None);
    assert_eq!(map.reserve_exact(0), None);
    assert_eq!(map.capacity(), 10);
    assert_eq!(map.free_list_slice(), vec![(4, 10)]);
    assert_eq!(map.reserve_exact(8), Some(2));
    assert_eq!(map.capacity(), 12);
    assert_eq!(map.free_list_slice(), vec![(4, 12)]);
}

#[test]
fn reserve_exact_appends_a_bucket_when_the_last_slot_is_taken() {
    let (mut map, keys) = filled_map(4, 4);
    assert_eq!(map.remove(keys[1]), Some(1));
    assert_eq!(map.free_list_slice(), vec![(1, 2)]);
    assert_eq!(map.reserve_exact(3), Some(2));
    assert_eq!(map.capacity(), 6);
    assert_eq!(map.free_list_slice(), vec![(1, 2), (4, 6)]);
}

#[test]
fn reserve_exact_gives_slots_to_a_slotmap_of_no_capacity() {
    let mut map = Slotmap::<u32>::new_with_capacity(0);
    assert_eq!(map.reserve_exact(2), Some(2));
    assert_eq!(map.capacity(), 2);
    assert_eq!(map.free_list_slice(), vec![(0, 2)]);
    let key = map.push(8).unwrap();
    assert_eq!(map.get_value(key), Some(&8));
}

use dense_slotmap::free_list::{FreeBucket, FreeList};

fn list_without(capacity: usize, taken: usize) -> FreeList {
    let mut list = FreeList::new(capacity);
    for expected in 0..taken {
        assert_eq!(list.get_free_slot(), Some(expected));
    }
    list
}

#[test]
fn new_list_is_one_bucket_over_the_whole_capacity() {
    let list = FreeList::new(100);
    assert_eq!(list.create_list_slice(), vec![(0, 100)]);
    assert_eq!(list.len(), 1);
}

#[test]
fn new_list_of_no_capacity_has_no_free_slot() {
    let mut list = FreeList::new(0);
    assert_eq!(list.create_list_slice(), vec![]);
    assert_eq!(list.len(), 0);
    assert_eq!(list.get_free_slot(), None);
    assert!(list.get_tail().is_none());
}

#[test]
fn get_free_slot_takes_the_lowest_index_first() {
    let mut list = FreeList::new(3);
    assert_eq!(list.get_free_slot(), Some(0));
    assert_eq!(list.create_list_slice(), vec![(1, 3)]);
    assert_eq!(list.get_free_slot(), Some(1));
    assert_eq!(list.create_list_slice(), vec![(2, 3)]);
    assert_eq!(list.get_free_slot(), Some(2));
    assert_eq!(list.create_list_slice(), vec![]);
    assert_eq!(list.get_free_slot(), None);
    assert_eq!(list.create_list_slice(), vec![]);
}

#[test]
fn a_bucket_of_one_slot_is_consumed_and_the_head_advances() {
    let mut list = list_without(10, 10);
    list.add_free_slot(2);
    list.add_free_slot(7);
    assert_eq!(list.create_list_slice(), vec![(2, 3), (7, 8)]);
    assert_eq!(list.get_free_slot(), Some(2));
    assert_eq!(list.create_list_slice(), vec![(7, 8)]);
    assert_eq!(list.get_free_slot(), Some(7));
    assert_eq!(list.get_free_slot(), None);
}

#[test]
fn a_slot_given_to_an_empty_list_becomes_the_head() {
    let mut list = list_without(10, 10);
    list.add_free_slot(4);
    assert_eq!(list.create_list_slice(), vec![(4, 5)]);
}

#[test]
fn a_slot_right_before_the_head_grows_the_head_backward() {
    let mut list = list_without(10, 5);
    list.add_free_slot(4);
    assert_eq!(list.create_list_slice(), vec![(4, 10)]);
}

#[test]
fn a_slot_further_before_the_head_becomes_the_new_head() {
    let mut list = list_without(10, 5);
    list.add_free_slot(1);
    assert_eq!(list.create_list_slice(), vec![(1, 2), (5, 10)]);
}

#[test]
fn a_slot_that_fills_a_gap_of_one_merges_two_buckets() {
    let mut list = list_without(10, 5);
    list.add_free_slot(1);
    list.add_free_slot(3);
    assert_eq!(list.create_list_slice(), vec![(1, 2), (3, 4), (5, 10)]);
    list.add_free_slot(2);
    assert_eq!(list.create_list_slice(), vec![(1, 4), (5, 10)]);
    list.add_free_slot(4);
    assert_eq!(list.create_list_slice(), vec![(1, 10)]);
    assert_eq!(list.len(), 1);
}

#[test]
fn a_slot_at_the_end_of_a_bucket_grows_it_forward() {
    let mut list = list_without(20, 10);
    list.add_free_slot(2);
    list.add_free_slot(3);
    assert_eq!(list.create_list_slice(), vec![(2, 4), (10, 20)]);
}

#[test]
fn a_slot_right_before_the_next_bucket_grows_it_backward() {
    let mut list = list_without(20, 10);
    list.add_free_slot(2);
    list.add_free_slot(6);
    assert_eq!(list.create_list_slice(), vec![(2, 3), (6, 7), (10, 20)]);
    list.add_free_slot(5);
    assert_eq!(list.create_list_slice(), vec![(2, 3), (5, 7), (10, 20)]);
}

#[test]
fn a_slot_that_touches_nothing_gets_a_bucket_between_its_neighbours() {
    let mut list = list_without(20, 10);
    list.add_free_slot(1);
    list.add_free_slot(5);
    assert_eq!(list.create_list_slice(), vec![(1, 2), (5, 6), (10, 20)]);
    list.add_free_slot(8);
    assert_eq!(list.create_list_slice(), vec![(1, 2), (5, 6), (8, 9), (10, 20)]);
    assert_eq!(list.len(), 4);
}

#[test]
fn a_slot_behind_the_tail_grows_the_tail_or_follows_it() {
    let mut list = list_without(10, 10);
    list.add_free_slot(3);
    list.add_free_slot(4);
    assert_eq!(list.create_list_slice(), vec![(3, 5)]);
    list.add_free_slot(8);
    assert_eq!(list.create_list_slice(), vec![(3, 5), (8, 9)]);
}

#[test]
fn a_slot_that_is_free_already_changes_nothing() {
    let mut list = list_without(10, 3);
    list.add_free_slot(0);
    assert_eq!(list.create_list_slice(), vec![(0, 1), (3, 10)]);
    list.add_free_slot(0);
    list.add_free_slot(3);
    list.add_free_slot(6);
    list.add_free_slot(9);
    assert_eq!(list.create_list_slice(), vec![(0, 1), (3, 10)]);
}

#[test]
fn slots_given_back_in_any_order_end_as_the_same_buckets() {
    let orders: [[usize; 4]; 6] = [
        [0, 1, 2, 4],
        [0, 2, 1, 4],
        [4, 2, 1, 0],
        [2, 0, 4, 1],
        [1, 4, 0, 2],
        [2, 1, 0, 4],
    ];
    for order in orders {
        let mut list = list_without(100, 24);
        for slot in order {
            list.add_free_slot(slot);
        }
        assert_eq!(list.create_list_slice(), vec![(0, 3), (4, 5), (24, 100)]);
    }
}

#[test]
fn a_range_at_the_end_of_the_tail_grows_the_tail() {
    let mut list = list_without(10, 4);
    list.add_free_bucket_to_tail(10, 6);
    assert_eq!(list.create_list_slice(), vec![(4, 16)]);
}

#[test]
fn a_range_beyond_the_tail_becomes_the_new_tail() {
    let mut list = list_without(10, 4);
    list.add_free_slot(1);
    list.add_free_bucket_to_tail(12, 3);
    assert_eq!(list.create_list_slice(), vec![(1, 2), (4, 10), (12, 15)]);
}

#[test]
fn a_range_given_to_an_empty_list_becomes_the_head() {
    let mut list = list_without(4, 4);
    list.add_free_bucket_to_tail(4, 2);
    assert_eq!(list.create_list_slice(), vec![(4, 6)]);
    assert_eq!(list.get_free_slot(), Some(4));
}

#[test]
fn a_range_of_no_slots_changes_nothing() {
    let mut list = list_without(10, 4);
    list.add_free_bucket_to_tail(10, 0);
    list.add_free_bucket_to_tail(15, 0);
    assert_eq!(list.create_list_slice(), vec![(4, 10)]);
}

#[test]
fn get_tail_finds_the_last_bucket() {
    let mut list = list_without(10, 4);
    assert_eq!(list.get_tail().unwrap().range(), (4, 10));
    list.add_free_slot(1);
    assert_eq!(list.get_tail().unwrap().range(), (4, 10));
    list.add_free_bucket_to_tail(12, 2);
    assert_eq!(list.get_tail().unwrap().range(), (12, 14));
    let mut short = list_without(3, 3);
    assert!(short.get_tail().is_none());
    short.add_free_slot(1);
    assert_eq!(short.get_tail().unwrap().range(), (1, 2));
}

#[test]
fn len_counts_buckets_and_not_slots() {
    let mut list = list_without(100, 50);
    assert_eq!(list.len(), 1);
    for slot in [0, 2, 4, 6, 8] {
        list.add_free_slot(slot);
    }
    assert_eq!(list.len(), 6);
    for slot in [1, 3, 5, 7] {
        list.add_free_slot(slot);
    }
    assert_eq!(list.len(), 2);
    assert_eq!(list.create_list_slice(), vec![(0, 9), (50, 100)]);
}

#[test]
fn a_long_chain_of_buckets_is_dropped_without_deep_calls() {
    let mut list = FreeList::new(0);
    for bucket in (0..1_000_000usize).rev() {
        list.add_free_slot(2 * bucket);
    }
    assert_eq!(list.len(), 1_000_000);
    assert_eq!(list.get_free_slot(), Some(0));
    assert_eq!(list.get_free_slot(), Some(2));
    assert_eq!(list.get_tail().unwrap().range(), (1_999_998, 1_999_999));
    drop(list);
}

#[test]
fn a_bucket_knows_its_range_and_size() {
    let single = FreeBucket::new_single_slot(7);
    assert_eq!(single.range(), (7, 8));
    assert_eq!(single.size(), 1);
    assert!(single.get_next_bucket().is_none());

    let mut several = FreeBucket::new_multiple_slot(3, 4);
    assert_eq!(several.range(), (3, 7));
    assert_eq!(several.size(), 4);
    assert_eq!(several.take_single_slot(), 3);
    assert_eq!(several.take_single_slot(), 4);
    assert_eq!(several.range(), (5, 7));
    assert_eq!(several.size(), 2);
}

#[test]
fn merging_takes_over_the_end_and_the_successors() {
    let mut tail_of_other = FreeBucket::new_multiple_slot(10, 2);
    FreeList::merge_buckets(&mut tail_of_other, FreeBucket::new_multiple_slot(12, 3));
    assert_eq!(tail_of_other.range(), (10, 15));

    let mut growing = FreeBucket::new_multiple_slot(0, 3);
    let mut disappearing = FreeBucket::new_single_slot(3);
    disappearing.next_bucket = Some(Box::new(FreeBucket::new_multiple_slot(8, 2)));
    assert_eq!(disappearing.get_next_bucket().unwrap().range(), (8, 10));

    FreeList::merge_buckets(&mut growing, disappearing);
    assert_eq!(growing.range(), (0, 4));
    assert_eq!(growing.get_next_bucket().unwrap().range(), (8, 10));
    assert!(growing.get_next_bucket().unwrap().get_next_bucket().is_none());
}

#[test]
fn the_buckets_of_a_list_are_linked_in_order() {
    let mut list = list_without(10, 10);
    list.add_free_slot(8);
    list.add_free_slot(2);
    list.add_free_slot(5);
    let tail = list.get_tail().unwrap();
    assert_eq!(tail.range(), (8, 9));
    assert!(tail.get_next_bucket().is_none());
}

//! What holds of a slot map across calls, proved of the view on which the
//! contracts of the executable container are stated.

use crate::intervals::{coalesced, free_neighbours, holds, indices, lemma_insert_index, span};
use crate::model::{KeyView, Operation, SlotmapView};
use vstd::prelude::*;
use vstd::set_lib::{lemma_int_range, lemma_len_subset, set_int_range};

verus! {

impl<V> SlotmapView<V> {
    /// Every call keeps the invariant.
    pub proof fn lemma_apply_inv(self, operation: Operation<V>)
        requires
            self.inv(),
            self.admits(operation),
        ensures
            self.apply(operation).inv(),
    {
        match operation {
            Operation::Push(value) => {
                if !self.full() {
                    self.lemma_push_inv(value);
                }
            },
            Operation::Remove(key) => {
                if self.contains(key) {
                    self.lemma_remove_inv(key);
                }
            },
            Operation::Replace(key, value) => {
                self.lemma_replace_inv(key, value);
            },
            Operation::Rewrite(values) => {
                self.lemma_rewrite_inv(values);
            },
            Operation::ReserveExact(additional) => {
                self.lemma_reserve_exact_inv(additional);
            },
        }
    }

    /// Every sequence of calls keeps the invariant.
    pub proof fn lemma_apply_all_inv(self, operations: Seq<Operation<V>>)
        requires
            self.inv(),
            self.admits_all(operations),
        ensures
            self.apply_all(operations).inv(),
        decreases operations.len(),
    {
        if operations.len() > 0 {
            self.lemma_apply_inv(operations[0]);
            self.apply(operations[0]).lemma_apply_all_inv(operations.drop_first());
        }
    }

    /// Pushing values one after the other stores one more value with each push
    /// until the slot map is full, and never adds a free range.
    pub proof fn lemma_push_all(self, values: Seq<V>)
        requires
            self.inv(),
        ensures
            self.push_all(values).inv(),
            self.push_all(values).generations == self.generations,
            self.push_all(values).len() == if self.len() + values.len() <= self.capacity() {
                self.len() + values.len()
            } else {
                self.capacity()
            },
            self.push_all(values).free.len() <= self.free.len(),
            self.len() + values.len() <= self.capacity() ==> self.push_all(values).values
                == self.values + values,
        decreases values.len(),
    {
        if values.len() > 0 {
            let before = self.push_all(values.drop_last());
            self.lemma_push_all(values.drop_last());
            if !before.full() {
                before.lemma_push_inv(values.last());
            }
            if self.len() + values.len() <= self.capacity() {
                assert(self.push_all(values).values =~= self.values + values);
            }
        } else {
            assert(self.values =~= self.values + values);
        }
    }

    /// Pushing no more values than there are slots into an empty slot map stores
    /// them all, in order, in the slots `0, 1, 2, ...` under generation zero; the
    /// slots behind them stay free as one range. So the number of values stored
    /// is the number of pushes, and there is never more than one free range.
    pub proof fn lemma_push_all_into_empty(capacity: usize, values: Seq<V>)
        requires
            values.len() <= capacity,
        ensures
            Self::empty(capacity).push_all(values).inv(),
            Self::empty(capacity).push_all(values).len() == values.len(),
            Self::empty(capacity).push_all(values).values == values,
            Self::empty(capacity).push_all(values).keys == Seq::new(
                values.len(),
                |i: int| KeyView { index: i as usize, generation: 0 },
            ),
            Self::empty(capacity).push_all(values).free == span(
                values.len() as usize,
                (capacity - values.len()) as usize,
            ),
            Self::empty(capacity).push_all(values).free.len() <= 1,
        decreases values.len(),
    {
        let start = Self::empty(capacity);
        Self::lemma_empty_inv(capacity);
        start.lemma_push_all(values);
        assert(start.values + values =~= values);
        if values.len() > 0 {
            let before = start.push_all(values.drop_last());
            Self::lemma_push_all_into_empty(capacity, values.drop_last());
            start.lemma_push_all(values.drop_last());
            let after = start.push_all(values);
            let n = (values.len() - 1) as usize;
            assert(before.free == seq![(n, capacity)]);
            assert(after.generations == start.generations);
            assert(before.next_key() == KeyView { index: n, generation: 0 });
            assert(after.keys =~= Seq::new(
                values.len(),
                |i: int| KeyView { index: i as usize, generation: 0 },
            ));
            assert(after.free =~= span(values.len() as usize, (capacity - values.len()) as usize));
        } else {
            assert(start.keys =~= Seq::new(
                values.len(),
                |i: int| KeyView { index: i as usize, generation: 0 },
            ));
        }
    }

    /// The key handed out by a push leads to the value pushed, and was the key of
    /// no value before.
    pub proof fn lemma_push_round_trip(self, value: V)
        requires
            self.inv(),
            !self.full(),
        ensures
            !self.contains(self.next_key()),
            !self.retired(self.next_key()),
            self.push(value).get(self.next_key()) == Some(value),
    {
        self.lemma_push_inv(value);
    }

    /// A stored key keeps its value through every call but its own removal and
    /// a write to its value.
    pub proof fn lemma_value_stays(self, key: KeyView, operation: Operation<V>)
        requires
            self.inv(),
            self.contains(key),
            self.admits(operation),
            match operation {
                Operation::Remove(removed) => removed != key,
                Operation::Replace(written, _) => written != key,
                Operation::Rewrite(values) => values.len() == self.len() ==> values[self.position(
                    key,
                )] == self.value(key),
                _ => true,
            },
        ensures
            self.apply(operation).get(key) == self.get(key),
    {
        self.lemma_contains(key);
        self.lemma_apply_inv(operation);
        let after = self.apply(operation);
        let p = self.position(key);
        match operation {
            Operation::Push(value) => {
                if !self.full() {
                    assert(after.keys[p] == key);
                    after.lemma_position(key, p);
                }
            },
            Operation::Remove(removed) => {
                if self.contains(removed) {
                    self.lemma_contains(removed);
                    let r = self.position(removed);
                    if p == self.len() - 1 {
                        assert(after.keys[r] == key);
                        after.lemma_position(key, r);
                    } else {
                        assert(after.keys[p] == key);
                        after.lemma_position(key, p);
                    }
                }
            },
            Operation::Replace(written, value) => {
                if self.contains(written) {
                    self.lemma_contains(written);
                    after.lemma_position(key, p);
                }
            },
            Operation::Rewrite(values) => {
                after.lemma_position(key, p);
            },
            Operation::ReserveExact(additional) => {
                after.lemma_position(key, p);
            },
        }
    }

    /// Seen as a map from keys to values, a push adds one entry: the next key
    /// with the value pushed.
    pub proof fn lemma_push_as_map(self, value: V)
        requires
            self.inv(),
            !self.full(),
        ensures
            self.push(value).as_map() == self.as_map().insert(self.next_key(), value),
    {
        let after = self.push(value);
        let key = self.next_key();
        self.lemma_push_inv(value);
        assert forall|other: KeyView| other != key implies (after.contains(other)
            <==> self.contains(other)) && (self.contains(other) ==> after.value(other)
            == self.value(other)) by {
            if self.contains(other) {
                self.lemma_value_stays(other, Operation::Push(value));
            }
            if after.contains(other) {
                after.lemma_contains(other);
                assert(self.keys[after.position(other)] == other);
            }
        }
        assert(after.as_map() =~= self.as_map().insert(key, value));
    }

    /// Seen as a map from keys to values, a removal takes one entry out: that of
    /// the key removed.
    pub proof fn lemma_remove_as_map(self, key: KeyView)
        requires
            self.inv(),
            self.contains(key) ==> key.generation < usize::MAX,
        ensures
            self.remove(key).as_map() == self.as_map().remove(key),
    {
        let after = self.remove(key);
        if self.contains(key) {
            self.lemma_remove_inv(key);
            assert forall|other: KeyView| other != key implies (after.contains(other)
                <==> self.contains(other)) && (self.contains(other) ==> after.value(other)
                == self.value(other)) by {
                if self.contains(other) {
                    self.lemma_value_stays(other, Operation::Remove(key));
                } else {
                    self.lemma_not_stored_stays(other, key);
                }
            }
        }
        assert(after.as_map() =~= self.as_map().remove(key));
    }

    /// A key whose generation lies behind that of its slot leads to nothing.
    pub proof fn lemma_retired_is_invalid(self, key: KeyView)
        requires
            self.inv(),
            self.retired(key),
        ensures
            !self.contains(key),
            self.get(key).is_none(),
    {
        if self.contains(key) {
            self.lemma_contains(key);
        }
    }

    /// After its removal a key leads to nothing, and its generation lies behind
    /// that of its slot.
    pub proof fn lemma_remove_invalidates(self, key: KeyView)
        requires
            self.inv(),
            self.contains(key),
            key.generation < usize::MAX,
        ensures
            self.remove(key).retired(key),
            !self.remove(key).contains(key),
            self.remove(key).get(key).is_none(),
    {
        self.lemma_remove_inv(key);
    }

    /// No call brings a generation back: a key whose generation lies behind that
    /// of its slot stays so.
    pub proof fn lemma_retired_stays(self, key: KeyView, operation: Operation<V>)
        requires
            self.inv(),
            self.retired(key),
            self.admits(operation),
        ensures
            self.apply(operation).retired(key),
    {
        match operation {
            Operation::Remove(removed) => {
                if self.contains(removed) {
                    self.lemma_contains(removed);
                }
            },
            _ => {},
        }
    }

    /// A removed key is invalid forever: whatever calls follow its removal, also
    /// pushes that give its slot to other values, the key leads to nothing.
    pub proof fn lemma_removed_key_stays_invalid(self, key: KeyView, operations: Seq<Operation<V>>)
        requires
            self.inv(),
            self.retired(key),
            self.admits_all(operations),
        ensures
            self.apply_all(operations).inv(),
            self.apply_all(operations).retired(key),
            !self.apply_all(operations).contains(key),
            self.apply_all(operations).get(key).is_none(),
        decreases operations.len(),
    {
        if operations.len() > 0 {
            self.lemma_apply_inv(operations[0]);
            self.lemma_retired_stays(key, operations[0]);
            self.apply(operations[0]).lemma_removed_key_stays_invalid(
                key,
                operations.drop_first(),
            );
        } else {
            self.lemma_retired_is_invalid(key);
        }
    }

    /// Removing a key a second time finds nothing and changes nothing: the slot
    /// is not freed twice.
    pub proof fn lemma_remove_twice(self, key: KeyView)
        requires
            self.inv(),
            self.contains(key),
            key.generation < usize::MAX,
        ensures
            self.remove(key).get(key).is_none(),
            self.remove(key).remove(key) == self.remove(key),
    {
        self.lemma_remove_inv(key);
    }

    /// A key that was handed out by this slot map is stored exactly when its
    /// generation is the current one of its slot.
    pub proof fn lemma_generation_decides(self, key: KeyView)
        requires
            self.inv(),
            self.contains(key) || self.retired(key),
        ensures
            self.contains(key) <==> (key.index < self.capacity() && self.generations[key.index as int]
                == key.generation),
    {
        if self.contains(key) {
            self.lemma_contains(key);
        }
    }

    /// A key that was stored or retired once is stored or retired after every
    /// call.
    pub proof fn lemma_handed_out_stays(self, key: KeyView, operation: Operation<V>)
        requires
            self.inv(),
            self.contains(key) || self.retired(key),
            self.admits(operation),
        ensures
            self.apply(operation).contains(key) || self.apply(operation).retired(key),
    {
        if self.retired(key) {
            self.lemma_retired_stays(key, operation);
        } else {
            self.lemma_contains(key);
            match operation {
                Operation::Remove(removed) => {
                    if removed == key {
                        self.lemma_remove_inv(key);
                    } else {
                        self.lemma_value_stays(key, operation);
                    }
                },
                Operation::Replace(written, value) => {
                    self.lemma_replace_inv(written, value);
                },
                Operation::Rewrite(values) => {
                    self.lemma_rewrite_inv(values);
                },
                _ => {
                    self.lemma_value_stays(key, operation);
                },
            }
        }
    }

    /// Removing a key frees its slot and keeps the free ranges coalesced: the
    /// slot adds a range only if neither of its neighbours is free, it joins the
    /// range of a free neighbour, and it makes one range of two if both are free.
    pub proof fn lemma_remove_coalesces(self, key: KeyView)
        requires
            self.inv(),
            self.contains(key),
            key.generation < usize::MAX,
        ensures
            coalesced(self.remove(key).free),
            holds(self.remove(key).free, key.index as int),
            self.remove(key).free.len() == self.free.len() + 1 - free_neighbours(
                self.free,
                key.index as int,
            ),
    {
        self.lemma_contains(key);
        self.lemma_remove_inv(key);
        lemma_insert_index(self.free, key.index);
        assert(indices(self.remove(key).free).contains(key.index as int));
    }

    /// Removing a value that is not the last of the dense array moves the last
    /// one into its place: the key of the moved value then stands at the vacated
    /// position and still leads to its value.
    pub proof fn lemma_swap_remove(self, key: KeyView)
        requires
            self.inv(),
            self.contains(key),
            key.generation < usize::MAX,
            self.position(key) < self.len() - 1,
        ensures
            self.remove(key).contains(self.keys.last()),
            self.remove(key).position(self.keys.last()) == self.position(key),
            self.remove(key).get(self.keys.last()) == Some(self.values.last()),
            self.get(self.keys.last()) == Some(self.values.last()),
    {
        self.lemma_contains(key);
        self.lemma_remove_inv(key);
        let after = self.remove(key);
        let p = self.position(key);
        let moved = self.keys.last();
        assert(after.keys[p] == moved);
        after.lemma_position(moved, p);
        self.lemma_position(moved, self.len() - 1);
    }

    /// Removing keys in any order returns, for each of them, the value that it
    /// had before the first removal, and leaves every other key with its value.
    pub proof fn lemma_remove_all(self, keys: Seq<KeyView>, other: KeyView)
        requires
            self.inv(),
            forall|i: int| 0 <= i < keys.len() ==> self.contains(#[trigger] keys[i]),
            forall|i: int| 0 <= i < keys.len() ==> (#[trigger] keys[i]).generation < usize::MAX,
            forall|i: int, j: int| 0 <= i < j < keys.len() ==> keys[i] != keys[j],
            forall|i: int| 0 <= i < keys.len() ==> keys[i] != other,
        ensures
            self.remove_all(keys).inv(),
            self.remove_all(keys).len() == self.len() - keys.len(),
            self.remove_all(keys).get(other) == self.get(other),
            forall|i: int| 0 <= i < keys.len() ==> !self.remove_all(keys).contains(#[trigger] keys[i]),
            keys.len() > 0 ==> self.remove_all(keys.drop_last()).get(keys.last()) == self.get(
                keys.last(),
            ),
        decreases keys.len(),
    {
        if keys.len() > 0 {
            let front = keys.drop_last();
            let key = keys.last();
            let before = self.remove_all(front);
            self.lemma_remove_all(front, other);
            self.lemma_remove_all(front, key);
            before.lemma_remove_inv(key);
            if before.contains(other) {
                before.lemma_value_stays(other, Operation::Remove(key));
            } else {
                if before.remove(key).contains(other) {
                    before.lemma_not_stored_stays(other, key);
                }
            }
            assert forall|i: int| 0 <= i < keys.len() implies !self.remove_all(keys).contains(
                #[trigger] keys[i],
            ) by {
                if i < keys.len() - 1 {
                    assert(keys[i] == front[i]);
                    before.lemma_not_stored_stays(keys[i], key);
                }
            }
        }
    }

    /// A removal stores no key that was not stored before.
    pub proof fn lemma_not_stored_stays(self, key: KeyView, removed: KeyView)
        requires
            self.inv(),
            !self.contains(key),
        ensures
            !self.remove(removed).contains(key),
    {
        let after = self.remove(removed);
        if self.contains(removed) && after.contains(key) {
            self.lemma_contains(removed);
            let i = choose|i: int| 0 <= i < after.keys.len() && after.keys[i] == key;
            if i == self.position(removed) {
                assert(self.keys[self.len() - 1] == key);
            } else {
                assert(self.keys[i] == key);
            }
        }
    }

    /// Removing keys one after the other returns, at every step, the value that
    /// the key had before the first removal.
    pub proof fn lemma_remove_in_any_order(self, keys: Seq<KeyView>, step: int)
        requires
            self.inv(),
            forall|i: int| 0 <= i < keys.len() ==> self.contains(#[trigger] keys[i]),
            forall|i: int| 0 <= i < keys.len() ==> (#[trigger] keys[i]).generation < usize::MAX,
            forall|i: int, j: int| 0 <= i < j < keys.len() ==> keys[i] != keys[j],
            0 <= step < keys.len(),
        ensures
            self.remove_all(keys.subrange(0, step)).inv(),
            self.remove_all(keys.subrange(0, step)).get(keys[step]) == self.get(keys[step]),
    {
        let done = keys.subrange(0, step);
        let upto = keys.subrange(0, step + 1);
        assert(upto.drop_last() =~= done);
        assert(upto.last() == keys[step]);
        assert forall|i: int, j: int| 0 <= i < j < upto.len() implies upto[i] != upto[j] by {
            assert(upto[i] == keys[i] && upto[j] == keys[j]);
        }
        assert forall|i: int| 0 <= i < upto.len() implies self.contains(#[trigger] upto[i]) && upto[i].generation
            < usize::MAX by {
            assert(upto[i] == keys[i]);
        }
        assert forall|i: int| 0 <= i < done.len() implies self.contains(#[trigger] done[i]) && done[i].generation
            < usize::MAX && done[i] != keys[step] by {
            assert(done[i] == keys[i]);
        }
        assert forall|i: int, j: int| 0 <= i < j < done.len() implies done[i] != done[j] by {
            assert(done[i] == keys[i] && done[j] == keys[j]);
        }
        self.lemma_remove_all(done, keys[step]);
    }

    /// There is never more than one free range more than there are values
    /// stored: behind every free range but the last stands a slot that is taken.
    pub proof fn lemma_free_ranges_bounded(self)
        requires
            self.inv(),
        ensures
            self.free.len() <= self.len() + 1,
    {
        if self.free.len() > 1 {
            let count = (self.free.len() - 1) as nat;
            let owners = Seq::new(count, |i: int| self.owner_behind(i));
            assert forall|i: int| 0 <= i < count implies 0 <= #[trigger] owners[i] < self.len()
                && self.keys[owners[i]].index == self.free[i].1 by {
                let behind = self.free[i].1 as int;
                assert(self.free[i].1 < self.free[i + 1].0);
                assert(holds(self.free, self.free[i + 1].0 as int)) by {
                    assert(self.free[i + 1].0 <= self.free[i + 1].0 < self.free[i + 1].1);
                }
                assert(!holds(self.free, behind)) by {
                    if holds(self.free, behind) {
                        let j = choose|j: int|
                            0 <= j < self.free.len() && (#[trigger] self.free[j]).0 <= behind
                                < self.free[j].1;
                        if j < i {
                            assert(self.free[j].1 < self.free[i].0);
                        } else if j > i {
                            assert(self.free[i].1 < self.free[j].0);
                        }
                    }
                }
                assert(self.slot_taken(behind));
            }
            assert(owners.no_duplicates()) by {
                assert forall|i: int, j: int|
                    0 <= i < owners.len() && 0 <= j < owners.len() && i != j implies owners[i]
                    != owners[j] by {
                    if i < j {
                        assert(self.free[i].1 < self.free[j].0);
                        assert(self.free[j].0 < self.free[j].1);
                    } else {
                        assert(self.free[j].1 < self.free[i].0);
                        assert(self.free[i].0 < self.free[i].1);
                    }
                }
            }
            let positions = set_int_range(0, self.len() as int);
            assert(owners.to_set().subset_of(positions)) by {
                assert forall|p: int| owners.to_set().contains(p) implies positions.contains(p) by {
                    let i = choose|i: int| 0 <= i < owners.len() && owners[i] == p;
                    assert(0 <= owners[i] < self.len());
                }
            }
            owners.unique_seq_to_set();
            lemma_int_range(0, self.len() as int);
            lemma_len_subset(owners.to_set(), positions);
        }
    }

    /// The position of the value whose slot stands right behind the free range
    /// `i`.
    pub open spec fn owner_behind(self, i: int) -> int {
        choose|p: int| 0 <= p < self.keys.len() && (#[trigger] self.keys[p]).index == self.free[i].1
    }
}

} // verus!

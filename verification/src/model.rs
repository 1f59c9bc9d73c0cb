//! The mathematical content of a slot map, and what each operation does to it.
//!
//! A slot map is seen as four sequences: the keys and the values of the dense
//! array, side by side; the current generation of every slot; and the ranges of
//! free slots. The operations of the executable container are specified as
//! functions on this view.

use crate::intervals::{
    append_span, coalesced, holds, indices, insert_index, lemma_append_span, lemma_insert_index,
    lemma_lowest, lemma_span, lemma_take_lowest, span, take_lowest,
};
use crate::slot_index_types::{Generation, SlotIndex};
use vstd::prelude::*;
use vstd::set_lib::{lemma_int_range, lemma_len_subset, set_int_range};

verus! {

/// What a key is made of: a slot, and the generation that the slot had when the
/// key was handed out.
pub struct KeyView {
    pub index: SlotIndex,
    pub generation: Generation,
}

/// One call that changes a slot map.
pub enum Operation<V> {
    /// `push` of a value.
    Push(V),
    /// `remove` of a key.
    Remove(KeyView),
    /// A write through `get_value_mut`: the key, and the value written.
    Replace(KeyView, V),
    /// Writes through `get_iter_mut`: the values as they are afterwards.
    Rewrite(Seq<V>),
    /// `reserve_exact` for so many more values.
    ReserveExact(usize),
}

/// What a slot map holds.
pub struct SlotmapView<V> {
    /// For each position of the dense array, the key of the value stored there.
    pub keys: Seq<KeyView>,
    /// The dense array of values, in the order in which iteration visits them.
    pub values: Seq<V>,
    /// The current generation of each slot. Its length is the capacity.
    pub generations: Seq<Generation>,
    /// The free slots, as ascending ranges `[start, end)`.
    pub free: Seq<(usize, usize)>,
}

impl<V> SlotmapView<V> {
    /// The number of slots.
    pub open spec fn capacity(self) -> nat {
        self.generations.len()
    }

    /// The number of values stored.
    pub open spec fn len(self) -> nat {
        self.values.len()
    }

    /// The key belongs to a value that is stored now.
    pub open spec fn contains(self, key: KeyView) -> bool {
        self.keys.contains(key)
    }

    /// The position in the dense array of the value that `key` belongs to.
    pub open spec fn position(self, key: KeyView) -> int
        recommends
            self.contains(key),
    {
        self.keys.index_of(key)
    }

    /// The value that `key` belongs to.
    pub open spec fn value(self, key: KeyView) -> V
        recommends
            self.contains(key),
    {
        self.values[self.position(key)]
    }

    /// The value that `key` belongs to, if it is stored now.
    pub open spec fn get(self, key: KeyView) -> Option<V> {
        if self.contains(key) {
            Some(self.value(key))
        } else {
            None
        }
    }

    /// The keys stored now, each with its value.
    pub open spec fn as_map(self) -> Map<KeyView, V> {
        Map::new(|key: KeyView| self.contains(key), |key: KeyView| self.value(key))
    }

    /// Some stored value occupies the slot.
    pub open spec fn slot_taken(self, slot: int) -> bool {
        exists|i: int| 0 <= i < self.keys.len() && (#[trigger] self.keys[i]).index == slot
    }

    /// The generation of the key is one that its slot has left behind: the key was
    /// removed, or another key in that slot was.
    pub open spec fn retired(self, key: KeyView) -> bool {
        key.index < self.generations.len() && key.generation < self.generations[key.index as int]
    }

    /// What holds of every slot map: keys and values are as many and no more than
    /// the slots, whose number fits the machine; each key names a slot of the
    /// table and carries that slot's current generation; no two keys share a
    /// slot; the free ranges are coalesced and hold exactly the slots that no key
    /// occupies.
    pub open spec fn inv(self) -> bool {
        &&& self.keys.len() == self.values.len()
        &&& self.keys.len() <= self.generations.len() <= usize::MAX
        &&& forall|i: int|
            0 <= i < self.keys.len() ==> (#[trigger] self.keys[i]).index < self.generations.len()
                && self.keys[i].generation == self.generations[self.keys[i].index as int]
        &&& forall|i: int, j: int|
            0 <= i < j < self.keys.len() ==> (#[trigger] self.keys[i]).index != (
            #[trigger] self.keys[j]).index
        &&& coalesced(self.free)
        &&& forall|x: int| #[trigger]
            holds(self.free, x) <==> (0 <= x < self.generations.len() && !self.slot_taken(x))
    }

    /// The slot map of `capacity` slots that stores nothing.
    pub open spec fn empty(capacity: usize) -> Self {
        SlotmapView {
            keys: Seq::empty(),
            values: Seq::empty(),
            generations: Seq::new(capacity as nat, |i: int| 0usize),
            free: span(0, capacity),
        }
    }

    /// No slot is left for another value.
    pub open spec fn full(self) -> bool {
        self.len() >= self.capacity()
    }

    /// The key that the next value pushed will get: the lowest free slot, with
    /// its current generation.
    pub open spec fn next_key(self) -> KeyView
        recommends
            !self.full(),
    {
        KeyView {
            index: self.free[0].0,
            generation: self.generations[self.free[0].0 as int],
        }
    }

    /// The slot map after `value` was pushed: the value goes to the end of the
    /// dense array, under the next key, whose slot is no longer free. A full slot
    /// map stays as it is.
    pub open spec fn push(self, value: V) -> Self {
        if self.full() {
            self
        } else {
            SlotmapView {
                keys: self.keys.push(self.next_key()),
                values: self.values.push(value),
                generations: self.generations,
                free: take_lowest(self.free),
            }
        }
    }

    /// The slot map after the value of `key` was removed: the last value of the
    /// dense array takes its place, the slot's generation goes up by one, and the
    /// slot is free again. A key that is not stored changes nothing.
    pub open spec fn remove(self, key: KeyView) -> Self {
        if self.contains(key) {
            SlotmapView {
                keys: self.keys.update(self.position(key), self.keys.last()).drop_last(),
                values: self.values.update(self.position(key), self.values.last()).drop_last(),
                generations: self.generations.update(
                    key.index as int,
                    (key.generation + 1) as usize,
                ),
                free: insert_index(self.free, key.index),
            }
        } else {
            self
        }
    }

    /// The slot map with `value` in place of the value of `key`. A key that is not
    /// stored changes nothing.
    pub open spec fn replace(self, key: KeyView, value: V) -> Self {
        if self.contains(key) {
            SlotmapView {
                keys: self.keys,
                values: self.values.update(self.position(key), value),
                generations: self.generations,
                free: self.free,
            }
        } else {
            self
        }
    }

    /// The slot map with `values` in place of its values, position by position.
    /// Values that are not as many as those stored change nothing.
    pub open spec fn rewrite(self, values: Seq<V>) -> Self {
        if values.len() == self.values.len() {
            SlotmapView {
                keys: self.keys,
                values: values,
                generations: self.generations,
                free: self.free,
            }
        } else {
            self
        }
    }

    /// By how many slots `reserve_exact(additional)` grows the table: as many as
    /// the values stored and `additional` more exceed the capacity.
    pub open spec fn shortfall(self, additional: usize) -> nat {
        if self.len() + additional > self.capacity() {
            (self.len() + additional - self.capacity()) as nat
        } else {
            0
        }
    }

    /// The slot map after room was made for `additional` more values: new slots,
    /// of generation zero and free, follow the old ones.
    pub open spec fn reserve_exact(self, additional: usize) -> Self
        recommends
            self.len() + additional <= usize::MAX,
    {
        SlotmapView {
            keys: self.keys,
            values: self.values,
            generations: self.generations + Seq::new(
                self.shortfall(additional),
                |i: int| 0usize,
            ),
            free: append_span(
                self.free,
                self.capacity() as usize,
                self.shortfall(additional) as usize,
            ),
        }
    }

    /// A key is found at one position only.
    pub proof fn lemma_position(self, key: KeyView, i: int)
        requires
            self.inv(),
            0 <= i < self.keys.len(),
            self.keys[i] == key,
        ensures
            self.contains(key),
            self.position(key) == i,
    {
        let p = self.position(key);
        assert(0 <= p < self.keys.len() && self.keys[p] == key);
        if p < i {
            assert(self.keys[p].index != self.keys[i].index);
        } else if i < p {
            assert(self.keys[i].index != self.keys[p].index);
        }
    }

    /// A key that is stored stands at its position, names a slot of the table, and
    /// carries that slot's current generation.
    pub proof fn lemma_contains(self, key: KeyView)
        requires
            self.inv(),
            self.contains(key),
        ensures
            0 <= self.position(key) < self.len(),
            self.keys[self.position(key)] == key,
            key.index < self.capacity(),
            key.generation == self.generations[key.index as int],
            self.slot_taken(key.index as int),
            !holds(self.free, key.index as int),
            !self.retired(key),
    {
        let p = self.position(key);
        assert(0 <= p < self.keys.len() && self.keys[p] == key);
        assert(self.keys[p].index == key.index);
    }

    /// The empty slot map is a slot map.
    pub proof fn lemma_empty_inv(capacity: usize)
        ensures
            Self::empty(capacity).inv(),
            Self::empty(capacity).len() == 0,
            Self::empty(capacity).capacity() == capacity,
    {
        lemma_span(0, capacity);
    }

    /// While fewer values are stored than there are slots, some slot is free.
    pub proof fn lemma_free_slot_exists(self)
        requires
            self.inv(),
            !self.full(),
        ensures
            self.free.len() > 0,
            self.free[0].0 < self.capacity(),
            !self.slot_taken(self.free[0].0 as int),
    {
        if self.free.len() == 0 {
            let taken = Seq::new(self.keys.len(), |i: int| self.keys[i].index as int);
            let all = set_int_range(0, self.capacity() as int);
            assert(taken.no_duplicates()) by {
                assert forall|i: int, j: int|
                    0 <= i < taken.len() && 0 <= j < taken.len() && i != j implies taken[i]
                    != taken[j] by {
                    if i < j {
                        assert(self.keys[i].index != self.keys[j].index);
                    } else {
                        assert(self.keys[j].index != self.keys[i].index);
                    }
                }
            }
            taken.unique_seq_to_set();
            vstd::seq_lib::seq_to_set_is_finite(taken);
            assert(all.subset_of(taken.to_set())) by {
                assert forall|x: int| all.contains(x) implies taken.to_set().contains(x) by {
                    assert(!holds(self.free, x));
                    assert(self.slot_taken(x));
                    let i = choose|i: int|
                        0 <= i < self.keys.len() && (#[trigger] self.keys[i]).index == x;
                    assert(taken[i] == x);
                }
            }
            lemma_len_subset(all, taken.to_set());
            lemma_int_range(0, self.capacity() as int);
            assert(false);
        }
        lemma_lowest(self.free);
    }

    /// Pushing keeps the invariant. The key handed out was not stored before, is
    /// stored afterwards at the end of the dense array, and leads to the value.
    pub proof fn lemma_push_inv(self, value: V)
        requires
            self.inv(),
            !self.full(),
        ensures
            self.push(value).inv(),
            !self.contains(self.next_key()),
            !self.retired(self.next_key()),
            self.push(value).contains(self.next_key()),
            self.push(value).position(self.next_key()) == self.len(),
            self.push(value).get(self.next_key()) == Some(value),
            self.push(value).len() == self.len() + 1,
            self.push(value).capacity() == self.capacity(),
            self.push(value).free.len() <= self.free.len(),
    {
        self.lemma_free_slot_exists();
        lemma_lowest(self.free);
        lemma_take_lowest(self.free);
        let after = self.push(value);
        let key = self.next_key();
        let slot = key.index as int;
        if self.contains(key) {
            self.lemma_contains(key);
        }
        assert(after.keys[self.len() as int] == key);
        assert forall|i: int, j: int| 0 <= i < j < after.keys.len() implies (
        #[trigger] after.keys[i]).index != (#[trigger] after.keys[j]).index by {
            if j == self.len() {
                assert(self.keys[i].index != slot);
            }
        }
        assert forall|x: int| #[trigger]
            holds(after.free, x) <==> (0 <= x < after.generations.len() && !after.slot_taken(
                x,
            )) by {
            assert(indices(after.free).contains(x) <==> indices(self.free).contains(x) && x
                != slot);
            if self.slot_taken(x) {
                let i = choose|i: int|
                    0 <= i < self.keys.len() && (#[trigger] self.keys[i]).index == x;
                assert(after.keys[i].index == x);
            }
            if after.slot_taken(x) && x != slot {
                let i = choose|i: int|
                    0 <= i < after.keys.len() && (#[trigger] after.keys[i]).index == x;
                assert(self.keys[i].index == x);
            }
            if x == slot {
                assert(after.keys[self.len() as int].index == x);
            }
        }
        after.lemma_position(key, self.len() as int);
    }

    /// Removing a stored key keeps the invariant. The key is no longer stored,
    /// and its generation lies behind that of its slot.
    pub proof fn lemma_remove_inv(self, key: KeyView)
        requires
            self.inv(),
            self.contains(key),
            key.generation < usize::MAX,
        ensures
            self.remove(key).inv(),
            !self.remove(key).contains(key),
            self.remove(key).retired(key),
            self.remove(key).len() == self.len() - 1,
            self.remove(key).capacity() == self.capacity(),
    {
        self.lemma_contains(key);
        lemma_insert_index(self.free, key.index);
        let after = self.remove(key);
        let p = self.position(key);
        let last = self.len() - 1;
        let slot = key.index as int;
        assert forall|i: int| 0 <= i < after.keys.len() implies (#[trigger] after.keys[i]).index
            != slot && exists|j: int|
            0 <= j < self.keys.len() && j != p && self.keys[j] == after.keys[i] by {
            if i == p {
                assert(self.keys[last] == after.keys[i]);
                assert(self.keys[p].index != self.keys[last].index);
            } else {
                assert(self.keys[i] == after.keys[i]);
                if i < p {
                    assert(self.keys[i].index != self.keys[p].index);
                } else {
                    assert(self.keys[p].index != self.keys[i].index);
                }
            }
        }
        assert forall|i: int, j: int| 0 <= i < j < after.keys.len() implies (
        #[trigger] after.keys[i]).index != (#[trigger] after.keys[j]).index by {
            if i == p {
                assert(self.keys[j].index != self.keys[last].index);
            } else if j == p {
                assert(self.keys[i].index != self.keys[last].index);
            } else {
                assert(self.keys[i].index != self.keys[j].index);
            }
        }
        assert forall|x: int| #[trigger]
            holds(after.free, x) <==> (0 <= x < after.generations.len() && !after.slot_taken(
                x,
            )) by {
            assert(indices(after.free).contains(x) <==> indices(self.free).contains(x) || x
                == slot);
            if after.slot_taken(x) {
                let i = choose|i: int|
                    0 <= i < after.keys.len() && (#[trigger] after.keys[i]).index == x;
                let j = choose|j: int|
                    0 <= j < self.keys.len() && j != p && self.keys[j] == after.keys[i];
                assert(self.keys[j].index == x);
            }
            if self.slot_taken(x) && x != slot {
                let j = choose|j: int|
                    0 <= j < self.keys.len() && (#[trigger] self.keys[j]).index == x;
                if j == last {
                    assert(after.keys[p].index == x);
                } else {
                    assert(after.keys[j].index == x);
                }
            }
        }
        if after.contains(key) {
            after.lemma_contains(key);
        }
    }

    /// Making room keeps the invariant and everything that is stored.
    pub proof fn lemma_reserve_exact_inv(self, additional: usize)
        requires
            self.inv(),
            self.len() + additional <= usize::MAX,
        ensures
            self.reserve_exact(additional).inv(),
            self.reserve_exact(additional).capacity() == self.capacity() + self.shortfall(
                additional,
            ),
            self.reserve_exact(additional).capacity() >= self.len() + additional,
            self.reserve_exact(additional).free.len() <= self.free.len() + 1,
    {
        let after = self.reserve_exact(additional);
        let capacity = self.capacity() as usize;
        let size = self.shortfall(additional) as usize;
        if self.free.len() > 0 {
            let last = self.free.len() - 1;
            assert(holds(self.free, self.free[last].1 - 1)) by {
                assert(self.free[last].0 <= self.free[last].1 - 1 < self.free[last].1);
            }
        }
        lemma_append_span(self.free, capacity, size);
        assert forall|x: int| self.slot_taken(x) <==> after.slot_taken(x) by {
            if self.slot_taken(x) {
                let i = choose|i: int|
                    0 <= i < self.keys.len() && (#[trigger] self.keys[i]).index == x;
                assert(after.keys[i].index == x);
            }
            if after.slot_taken(x) {
                let i = choose|i: int|
                    0 <= i < after.keys.len() && (#[trigger] after.keys[i]).index == x;
                assert(self.keys[i].index == x);
            }
        }
        assert forall|x: int| self.slot_taken(x) implies x < capacity by {
            let i = choose|i: int|
                0 <= i < self.keys.len() && (#[trigger] self.keys[i]).index == x;
            assert(self.keys[i].index < self.generations.len());
        }
    }

    /// Replacing the value of a key keeps the invariant and the keys. A stored key
    /// then leads to the new value.
    pub proof fn lemma_replace_inv(self, key: KeyView, value: V)
        requires
            self.inv(),
        ensures
            self.replace(key, value).inv(),
            self.replace(key, value).keys == self.keys,
            self.contains(key) ==> self.replace(key, value).get(key) == Some(value),
    {
        if self.contains(key) {
            self.lemma_contains(key);
        }
        let after = self.replace(key, value);
        assert forall|x: int| self.slot_taken(x) <==> after.slot_taken(x) by {
            if self.slot_taken(x) {
                let i = choose|i: int|
                    0 <= i < self.keys.len() && (#[trigger] self.keys[i]).index == x;
                assert(after.keys[i].index == x);
            }
            if after.slot_taken(x) {
                let i = choose|i: int|
                    0 <= i < after.keys.len() && (#[trigger] after.keys[i]).index == x;
                assert(self.keys[i].index == x);
            }
        }
    }

    /// Rewriting the values keeps the invariant and the keys.
    pub proof fn lemma_rewrite_inv(self, values: Seq<V>)
        requires
            self.inv(),
        ensures
            self.rewrite(values).inv(),
            self.rewrite(values).keys == self.keys,
    {
        let after = self.rewrite(values);
        assert forall|x: int| self.slot_taken(x) <==> after.slot_taken(x) by {
            if self.slot_taken(x) {
                let i = choose|i: int|
                    0 <= i < self.keys.len() && (#[trigger] self.keys[i]).index == x;
                assert(after.keys[i].index == x);
            }
            if after.slot_taken(x) {
                let i = choose|i: int|
                    0 <= i < after.keys.len() && (#[trigger] after.keys[i]).index == x;
                assert(self.keys[i].index == x);
            }
        }
    }

    /// The slot map after one call.
    pub open spec fn apply(self, operation: Operation<V>) -> Self {
        match operation {
            Operation::Push(value) => self.push(value),
            Operation::Remove(key) => self.remove(key),
            Operation::Replace(key, value) => self.replace(key, value),
            Operation::Rewrite(values) => self.rewrite(values),
            Operation::ReserveExact(additional) => self.reserve_exact(additional),
        }
    }

    /// The call stays within what the machine can count: a removal does not
    /// take a generation beyond the largest number, and a reservation does not
    /// ask for more slots than can be numbered.
    pub open spec fn admits(self, operation: Operation<V>) -> bool {
        match operation {
            Operation::Remove(key) => self.contains(key) ==> key.generation < usize::MAX,
            Operation::ReserveExact(additional) => self.len() + additional <= usize::MAX,
            _ => true,
        }
    }

    /// The slot map after the calls, made one after the other.
    pub open spec fn apply_all(self, operations: Seq<Operation<V>>) -> Self
        decreases operations.len(),
    {
        if operations.len() == 0 {
            self
        } else {
            self.apply(operations[0]).apply_all(operations.drop_first())
        }
    }

    /// Each of the calls, at its turn, stays within what the machine can count.
    pub open spec fn admits_all(self, operations: Seq<Operation<V>>) -> bool
        decreases operations.len(),
    {
        operations.len() == 0 || (self.admits(operations[0]) && self.apply(
            operations[0],
        ).admits_all(operations.drop_first()))
    }

    /// The slot map after the values were pushed, one after the other.
    pub open spec fn push_all(self, values: Seq<V>) -> Self
        decreases values.len(),
    {
        if values.len() == 0 {
            self
        } else {
            self.push_all(values.drop_last()).push(values.last())
        }
    }

    /// The slot map after the keys were removed, one after the other.
    pub open spec fn remove_all(self, keys: Seq<KeyView>) -> Self
        decreases keys.len(),
    {
        if keys.len() == 0 {
            self
        } else {
            self.remove_all(keys.drop_last()).remove(keys.last())
        }
    }
}

} // verus!

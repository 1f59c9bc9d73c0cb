//! The slot map: values in a dense array, reached through generation-checked keys.

use crate::free_list::FreeList;
use crate::intervals::holds;
use crate::model::{KeyView, SlotmapView};
use crate::slot_index_types::{Generation, SlotIndex, ValueIndex};
use vstd::prelude::*;
use vstd::std_specs::iter::IteratorSpec;

verus! {

/// One entry of the slot table.
#[derive(Clone, Copy)]
pub struct Slot {
    index: ValueIndex,
    generation: Generation,
    taken: bool,
}

/// The handle to a stored value: a slot, and the generation the slot had when the
/// value was pushed. It is a weak reference: it does not keep the value alive.
#[derive(Debug, Clone, Copy)]
pub struct SlotKey {
    index: SlotIndex,
    generation: Generation,
}

impl View for SlotKey {
    type V = KeyView;

    closed spec fn view(&self) -> KeyView {
        KeyView { index: self.index, generation: self.generation }
    }
}

impl SlotKey {
    /// Two keys of the same slot and generation are the same key.
    pub proof fn lemma_view_injective(self, other: SlotKey)
        requires
            self@ == other@,
        ensures
            self == other,
    {
    }
}

/// This structure is optimized in the following order iteration > random acess > pushing objects > removing objects
pub struct Slotmap<V> {
    values: Vec<V>,
    ///Array with the slot indexes for the slots that are pointing to a value, this array has the same order as the Values array
    values_slot: Vec<SlotIndex>,
    slots: Vec<Slot>,
    free_list: FreeList,
}

impl<V> Slotmap<V> {
    /// What the slot map holds: keys and values in dense order, the generation of
    /// each slot, and the free ranges.
    pub closed spec fn view(&self) -> SlotmapView<V> {
        SlotmapView {
            keys: Seq::new(
                self.values_slot@.len(),
                |i: int|
                    KeyView {
                        index: self.values_slot@[i],
                        generation: self.slots@[self.values_slot@[i] as int].generation,
                    },
            ),
            values: self.values@,
            generations: Seq::new(self.slots@.len(), |s: int| self.slots@[s].generation),
            free: self.free_list@,
        }
    }

    /// The dense position that the slot table records for `slot`.
    pub closed spec fn slot_position(&self, slot: SlotIndex) -> ValueIndex {
        self.slots@[slot as int].index
    }

    /// The slot table and the dense array point at each other: the slot that owns
    /// a dense position is taken and records that position, and a taken slot
    /// records a dense position that it owns.
    pub closed spec fn linked(&self) -> bool {
        &&& self.values_slot@.len() == self.values@.len()
        &&& forall|i: int|
            0 <= i < self.values_slot@.len() ==> {
                let s = #[trigger] self.values_slot@[i];
                &&& s < self.slots@.len()
                &&& self.slots@[s as int].taken
                &&& self.slots@[s as int].index == i
            }
        &&& forall|s: int|
            0 <= s < self.slots@.len() && (#[trigger] self.slots@[s]).taken ==> {
                &&& self.slots@[s].index < self.values_slot@.len()
                &&& self.values_slot@[self.slots@[s].index as int] == s
            }
    }

    /// The slot map is well formed: its view is a slot map, and the slot table
    /// and the dense array point at each other.
    pub open spec fn wf(&self) -> bool {
        self@.inv() && self.linked()
    }

    /// In a well-formed slot map a slot is taken exactly when a stored key names it.
    proof fn lemma_taken(&self, slot: int)
        requires
            self.linked(),
            0 <= slot < self.slots@.len(),
        ensures
            self@.slot_taken(slot) <==> self.slots@[slot].taken,
    {
        if self.slots@[slot].taken {
            let i = self.slots@[slot].index as int;
            assert(self@.keys[i].index == slot);
        }
        if self@.slot_taken(slot) {
            let i = choose|i: int| 0 <= i < self@.keys.len() && (#[trigger] self@.keys[i]).index == slot;
            assert(self.values_slot@[i] == slot);
        }
    }

    /// The position that the slot table records for the slot of a stored key is
    /// the position of the key's value in the dense array.
    pub proof fn lemma_slot_position(&self, key: KeyView)
        requires
            self.wf(),
            self@.contains(key),
        ensures
            self.slot_position(key.index) == self@.position(key),
    {
        self@.lemma_contains(key);
        let p = self@.position(key);
        assert(self.values_slot@[p] == key.index);
    }

    /// After a removal that moved the last value into the gap, the slot of the
    /// moved value records the vacated position.
    pub proof fn lemma_moved_slot_position(&self, before: SlotmapView<V>, key: KeyView)
        requires
            self.wf(),
            before.inv(),
            before.contains(key),
            key.generation < usize::MAX,
            before.position(key) < before.len() - 1,
            self@ == before.remove(key),
        ensures
            self.slot_position(before.keys.last().index) == before.position(key),
            self@.get(before.keys.last()) == Some(before.values.last()),
    {
        before.lemma_swap_remove(key);
        self.lemma_slot_position(before.keys.last());
    }

    /// An empty slot map of `capacity` slots.
    pub fn new_with_capacity(capacity: usize) -> (slotmap: Self)
        ensures
            slotmap.wf(),
            slotmap@ == SlotmapView::<V>::empty(capacity),
    {
        let values = Vec::<V>::with_capacity(capacity);
        let values_slot = Vec::<SlotIndex>::with_capacity(capacity);
        let mut slots = Vec::<Slot>::with_capacity(capacity);
        while slots.len() < capacity
            invariant
                slots@.len() <= capacity,
                forall|s: int|
                    0 <= s < slots@.len() ==> !(#[trigger] slots@[s]).taken && slots@[s].generation
                        == 0,
            decreases capacity - slots@.len(),
        {
            slots.push(Slot { index: 0, generation: 0, taken: false });
        }
        let free_list = FreeList::new(capacity);
        let slotmap = Self { values, values_slot, slots, free_list };
        proof {
            SlotmapView::<V>::lemma_empty_inv(capacity);
            assert(slotmap@.keys =~= SlotmapView::<V>::empty(capacity).keys);
            assert(slotmap@.generations =~= SlotmapView::<V>::empty(capacity).generations);
        }
        slotmap
    }

    /// The number of slots: as many values can be stored.
    pub fn capacity(&self) -> (capacity: usize)
        ensures
            capacity == self@.capacity(),
    {
        self.slots.len()
    }

    /// The number of values stored.
    pub fn len(&self) -> (len: usize)
        ensures
            len == self@.len(),
    {
        self.values.len()
    }

    /// The number of free ranges.
    pub fn free_list_len(&self) -> (len: usize)
        ensures
            len == self@.free.len(),
    {
        self.free_list.len()
    }

    /// The free ranges, in ascending order.
    pub fn free_list_slice(&self) -> (slice: Vec<(usize, usize)>)
        ensures
            slice@ == self@.free,
    {
        self.free_list.create_list_slice()
    }

    /// No value is stored.
    pub fn is_empty(&self) -> (empty: bool)
        ensures
            empty <==> self@.len() == 0,
    {
        self.values.is_empty()
    }

    /// The key belongs to a value that is stored now.
    #[inline]
    pub fn is_valid(&self, key: &SlotKey) -> (valid: bool)
        requires
            self.wf(),
        ensures
            valid == self@.contains(key@),
    {
        if key.index < self.slots.len() {
            let slot = &self.slots[key.index];
            proof {
                if self@.contains(key@) {
                    self@.lemma_contains(key@);
                    self.lemma_taken(key.index as int);
                }
                if slot.taken && slot.generation == key.generation {
                    assert(self@.keys[slot.index as int] == key@);
                }
            }
            slot.taken && slot.generation == key.generation
        } else {
            proof {
                if self@.contains(key@) {
                    self@.lemma_contains(key@);
                }
            }
            false
        }
    }

    /// The value that the key belongs to, if it is stored now.
    pub fn get_value(&self, key: SlotKey) -> (value: Option<&V>)
        requires
            self.wf(),
        ensures
            match value {
                Some(value) => self@.contains(key@) && *value == self@.value(key@),
                None => !self@.contains(key@),
            },
    {
        if self.is_valid(&key) {
            proof {
                self.lemma_slot_position(key@);
                self@.lemma_contains(key@);
            }
            Some(&self.values[self.slots[key.index].index])
        } else {
            None
        }
    }

    /// Frees the slot for the next value: its generation goes up by one, so that
    /// every key handed out for it so far is invalid from now on.
    fn return_slot(&mut self, index: SlotIndex)
        requires
            index < old(self).slots@.len(),
            old(self).slots@[index as int].generation < usize::MAX,
        ensures
            final(self).values == old(self).values,
            final(self).values_slot == old(self).values_slot,
            final(self).free_list == old(self).free_list,
            final(self).slots@ == old(self).slots@.update(
                index as int,
                (Slot {
                    index: old(self).slots@[index as int].index,
                    generation: (old(self).slots@[index as int].generation + 1) as usize,
                    taken: false,
                }),
            ),
    {
        let slot = &mut self.slots[index];
        slot.generation += 1;
        slot.taken = false;
    }

    /// Marks the slot as the owner of the dense position `v_index`, and makes the
    /// key for it.
    fn take_slot(&mut self, index: SlotIndex, v_index: ValueIndex) -> (key: SlotKey)
        requires
            index < old(self).slots@.len(),
        ensures
            final(self).values == old(self).values,
            final(self).values_slot == old(self).values_slot,
            final(self).free_list == old(self).free_list,
            final(self).slots@ == old(self).slots@.update(
                index as int,
                (Slot {
                    index: v_index,
                    generation: old(self).slots@[index as int].generation,
                    taken: true,
                }),
            ),
            key@ == (KeyView {
                index,
                generation: old(self).slots@[index as int].generation,
            }),
    {
        let slot = &mut self.slots[index];
        slot.taken = true;
        slot.index = v_index;
        SlotKey { index, generation: slot.generation }
    }

    /// Stores the value, unless the slot map is full, and hands out its key: the
    /// lowest free slot with its current generation.
    pub fn push(&mut self, value: V) -> (key: Option<SlotKey>)
        requires
            old(self).wf(),
        ensures
            final(self).wf(),
            final(self)@ == old(self)@.push(value),
            key.is_none() <==> old(self)@.full(),
            key matches Some(key) ==> key@ == old(self)@.next_key(),
    {
        if self.slots.len() == self.values.len() {
            None
        } else {
            proof {
                self@.lemma_free_slot_exists();
                self@.lemma_push_inv(value);
                self.lemma_taken(self@.free[0].0 as int);
            }
            //Get an available lot to put as a stable renference to the added element
            match self.free_list.get_free_slot() {
                Some(free_slot) => {
                    self.values.push(value);
                    self.values_slot.push(free_slot);
                    let slot_key = self.take_slot(free_slot, self.values.len() - 1);
                    proof {
                        assert(self@.keys =~= old(self)@.push(value).keys);
                        assert(self@.generations =~= old(self)@.push(value).generations);
                    }
                    Some(slot_key)
                },
                None => None,
            }
        }
    }

    /// Takes the value of the key out, if it is stored now. The last value of the
    /// dense array moves into its place, and the slot is free for the next value,
    /// under a new generation.
    pub fn remove(&mut self, key: SlotKey) -> (value: Option<V>)
        requires
            old(self).wf(),
            old(self)@.contains(key@) ==> key@.generation < usize::MAX,
        ensures
            final(self).wf(),
            final(self)@ == old(self)@.remove(key@),
            value == old(self)@.get(key@),
    {
        if self.is_valid(&key) {
            proof {
                self@.lemma_contains(key@);
                self@.lemma_remove_inv(key@);
                self.lemma_slot_position(key@);
            }
            let val_index = self.slots[key.index].index;

            let value = self.values.swap_remove(val_index);
            self.values_slot.swap_remove(val_index);

            //Make all the keys that pointed to that value invalid
            self.return_slot(key.index);

            //If slotmap is not empty, update the affected slot to make sure it points to the right index,
            //becuase its value was swaped, and now it is pointing to an invalid space in the vector
            //Check if 'val_index' is not equal to the current len, if it is, it means that the swap_remove
            //happened with the last element of the array, which means that no elements were moved
            if !self.values.is_empty() && val_index != self.values.len() {
                let slot_index = self.values_slot[val_index];
                self.slots[slot_index].index = val_index;
            }
            //the slot on index {key.index} is free now

            self.free_list.add_free_slot(key.index);
            proof {
                assert(self@.keys =~= old(self)@.remove(key@).keys);
                assert(self@.generations =~= old(self)@.remove(key@).generations);
            }
            Some(value)
        } else {
            None
        }
    }

    /// This function uses the `Vec::reserve` internally to increase the available space
    /// If the `self.len() + aditional` is smaller than `self.capacity()`, then no space is allocated.\
    /// Increased capacity is equal to `max( 0, self.len() + aditional - self.capacity() )`
    pub fn reserve_exact(&mut self, aditional: usize) -> (extra: Option<usize>)
        requires
            old(self).wf(),
            old(self)@.len() + aditional <= usize::MAX,
        ensures
            final(self).wf(),
            final(self)@ == old(self)@.reserve_exact(aditional),
            extra == if old(self)@.shortfall(aditional) > 0 {
                Some(old(self)@.shortfall(aditional) as usize)
            } else {
                None
            },
    {
        let current_capacity = self.capacity();
        let wanted_capacity = self.values.len() + aditional;
        proof {
            self@.lemma_reserve_exact_inv(aditional);
        }
        if wanted_capacity > current_capacity {
            let extra_capacity = wanted_capacity - current_capacity;
            self.values.reserve(aditional);
            self.values_slot.reserve(aditional);
            self.slots.reserve(extra_capacity);
            while self.slots.len() < wanted_capacity
                invariant
                    self.values@ == old(self).values@,
                    self.values_slot@ == old(self).values_slot@,
                    self.free_list == old(self).free_list,
                    current_capacity == old(self).slots@.len(),
                    current_capacity <= self.slots@.len() <= wanted_capacity,
                    self.slots@.subrange(0, current_capacity as int) == old(self).slots@,
                    forall|s: int|
                        current_capacity <= s < self.slots@.len() ==> !(#[trigger] self.slots@[s]).taken
                            && self.slots@[s].generation == 0,
                decreases wanted_capacity - self.slots@.len(),
            {
                self.slots.push(Slot { index: 0, generation: 0, taken: false });
                assert(self.slots@.subrange(0, current_capacity as int) =~= old(self).slots@);
            }
            proof {
                if self.free_list@.len() > 0 {
                    let last = self.free_list@.len() - 1;
                    assert(holds(self.free_list@, self.free_list@[last].1 - 1)) by {
                        assert(self.free_list@[last].0 <= self.free_list@[last].1 - 1
                            < self.free_list@[last].1);
                    }
                    assert(holds(old(self)@.free, self.free_list@[last].1 - 1));
                }
            }
            self.free_list.add_free_bucket_to_tail(current_capacity, extra_capacity);
            proof {
                assert forall|s: int| 0 <= s < current_capacity implies self.slots@[s] == old(
                    self,
                ).slots@[s] by {
                    assert(self.slots@.subrange(0, current_capacity as int)[s] == self.slots@[s]);
                }
                assert(self@.keys =~= old(self)@.reserve_exact(aditional).keys);
                assert(self@.generations =~= old(self)@.reserve_exact(aditional).generations);
            }
            Some(extra_capacity)
        } else {
            proof {
                assert(old(self)@.reserve_exact(aditional).generations =~= old(self)@.generations);
            }
            None
        }
    }

    /// The value that the key belongs to, for writing, if it is stored now.
    /// Whatever is written replaces the value; nothing else changes.
    pub fn get_value_mut(&mut self, key: SlotKey) -> (value: Option<&mut V>)
        requires
            old(self).wf(),
        ensures
            final(self).wf(),
            match value {
                Some(value) => {
                    &&& old(self)@.contains(key@)
                    &&& *value == old(self)@.value(key@)
                    &&& final(self)@ == old(self)@.replace(key@, *final(value))
                },
                None => !old(self)@.contains(key@) && final(self)@ == old(self)@,
            },
    {
        if self.is_valid(&key) {
            proof {
                self.lemma_slot_position(key@);
                self@.lemma_contains(key@);
            }
            let val_index = self.slots[key.index].index;
            let value = &mut self.values[val_index];
            proof {
                old(self)@.lemma_replace_inv(key@, *final(value));
                assert(after_borrow(*self)@.keys =~= old(self)@.keys);
            }
            Some(value)
        } else {
            None
        }
    }

    /// Visits the values in the order of the dense array.
    pub fn get_iter(&self) -> (iter: core::slice::Iter<'_, V>)
        ensures
            iter.remaining() == self@.values.as_ref(),
    {
        self.values.iter()
    }

    /// Visits the values in the order of the dense array, for writing. The items
    /// handed out are the values as they are now; what is written to an item is
    /// the value at its position afterwards. Which keys are stored, and where,
    /// does not change.
    pub fn get_iter_mut(&mut self) -> (iter: core::slice::IterMut<'_, V>)
        requires
            old(self).wf(),
        ensures
            final(self).wf(),
            final(self)@.values.len() == old(self)@.values.len(),
            final(self)@ == old(self)@.rewrite(final(self)@.values),
            iter.remaining().len() == old(self)@.values.len(),
            forall|i: int|
                0 <= i < old(self)@.values.len() ==> *(#[trigger] iter.remaining()[i]) == old(
                    self,
                )@.values[i],
            forall|i: int|
                0 <= i < old(self)@.values.len() ==> final(self)@.values[i] == *final(
                    #[trigger] iter.remaining()[i]
                ),
    {
        let iter = self.values.iter_mut();
        proof {
            assert(after_borrow(*self)@.keys =~= old(self)@.keys);
            old(self)@.lemma_rewrite_inv(after_borrow(*self)@.values);
        }
        iter
    }
}

} // verus!

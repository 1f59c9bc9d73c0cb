//! The free list: the unused slot indices, kept as a chain of coalesced buckets.

use crate::intervals::{
    append_span, coalesced, free_neighbours, indices, insert_index, lemma_append_span,
    lemma_insert_index, lemma_lowest, lemma_span, lemma_take_lowest, span, take_lowest,
};
use crate::slot_index_types::SlotIndex;
use vstd::prelude::*;

verus! {

/// A bucket is a run of free slots `[start, end)`, linked to the bucket after it.
pub struct FreeBucket {
    start_index: usize,
    end_index: usize,
    pub next_bucket: Option<Box<FreeBucket>>,
}

/// The ranges of the buckets that a link leads to, in order.
pub closed spec fn chain(link: Option<Box<FreeBucket>>) -> Seq<(usize, usize)>
    decreases link,
{
    match link {
        Some(bucket) => seq![(bucket.start_index, bucket.end_index)] + chain(bucket.next_bucket),
        None => Seq::empty(),
    }
}

impl FreeBucket {
    /// The range of this bucket, then the ranges of the buckets that follow it.
    pub closed spec fn view(&self) -> Seq<(usize, usize)> {
        seq![(self.start_index, self.end_index)] + chain(self.next_bucket)
    }

    /// The slots `[start, end)` of this bucket.
    pub fn range(&self) -> (range: (usize, usize))
        ensures
            range == self@[0],
    {
        (self.start_index, self.end_index)
    }

    /// A bucket of the one slot `slot_index`, linked to nothing.
    pub fn new_single_slot(slot_index: SlotIndex) -> (bucket: Self)
        requires
            slot_index < usize::MAX,
        ensures
            bucket@ == seq![(slot_index, (slot_index + 1) as usize)],
    {
        Self { start_index: slot_index, end_index: slot_index + 1, next_bucket: None }
    }

    /// A bucket of the `capacity` slots from `slot_index` on, linked to nothing.
    pub fn new_multiple_slot(slot_index: SlotIndex, capacity: usize) -> (bucket: Self)
        requires
            slot_index + capacity <= usize::MAX,
        ensures
            bucket@ == seq![(slot_index, (slot_index + capacity) as usize)],
    {
        Self { start_index: slot_index, end_index: slot_index + capacity, next_bucket: None }
    }

    /// The number of slots in this bucket.
    pub fn size(&self) -> (size: usize)
        requires
            self@[0].0 <= self@[0].1,
        ensures
            size == self@[0].1 - self@[0].0,
    {
        self.end_index - self.start_index
    }

    /// Takes the first slot out of this bucket.
    pub fn take_single_slot(&mut self) -> (slot: SlotIndex)
        requires
            old(self)@[0].0 < usize::MAX,
        ensures
            slot == old(self)@[0].0,
            final(self)@ == old(self)@.update(0, ((slot + 1) as usize, old(self)@[0].1)),
    {
        let slot = self.start_index;
        self.start_index += 1;
        slot
    }

    /// The bucket that this one is linked to, if there is one.
    pub fn get_next_bucket(&self) -> (next: Option<&FreeBucket>)
        ensures
            match next {
                Some(bucket) => self@ == seq![self@[0]] + bucket@,
                None => self@ == seq![self@[0]],
            },
    {
        match &self.next_bucket {
            Some(next_node) => Some(&**next_node),
            None => None,
        }
    }
}

/// The free slots of a slot table, as buckets in ascending order.
pub struct FreeList {
    head: Option<Box<FreeBucket>>,
}

impl Drop for FreeList {
    /// Takes the chain apart bucket by bucket, so that a long chain is not
    /// dropped by a call within a call for each of its buckets.
    fn drop(&mut self)
        opens_invariants none
        no_unwind
    {
        let mut link: Option<Box<FreeBucket>> = None;
        core::mem::swap(&mut link, &mut self.head);
        loop
            decreases chain(link).len(),
        {
            match link {
                Some(bucket) => {
                    let bucket = *bucket;
                    link = bucket.next_bucket;
                },
                None => {
                    break ;
                },
            }
        }
    }
}

impl FreeList {
    /// The ranges of the buckets, from the head on.
    pub closed spec fn view(&self) -> Seq<(usize, usize)> {
        chain(self.head)
    }

    /// The buckets are non-empty, ascend, and no two of them touch.
    pub open spec fn wf(&self) -> bool {
        coalesced(self@)
    }

    /// The slot indices that are free.
    pub open spec fn free_slots(&self) -> Set<int> {
        indices(self@)
    }

    /// A list in which the slots `0 .. capacity` are free.
    pub fn new(capacity: usize) -> (list: Self)
        ensures
            list.wf(),
            list@ == span(0, capacity),
            forall|x: int| list.free_slots().contains(x) <==> 0 <= x < capacity,
    {
        proof {
            lemma_span(0, capacity);
        }
        if capacity == 0 {
            FreeList { head: None }
        } else {
            let free_space = FreeBucket::new_multiple_slot(0, capacity);
            FreeList { head: Some(Box::new(free_space)) }
        }
    }

    /// Takes the lowest free slot, if there is any.
    pub fn get_free_slot(&mut self) -> (slot: Option<SlotIndex>)
        requires
            old(self).wf(),
        ensures
            final(self).wf(),
            old(self)@.len() == 0 ==> slot.is_none() && final(self)@ == old(self)@,
            old(self)@.len() > 0 ==> slot == Some(old(self)@[0].0) && final(self)@ == take_lowest(
                old(self)@,
            ),
            slot.is_none() <==> (forall|x: int| !old(self).free_slots().contains(x)),
            slot matches Some(taken) ==> {
                &&& old(self).free_slots().contains(taken as int)
                &&& forall|x: int| old(self).free_slots().contains(x) ==> taken <= x
                &&& final(self).free_slots() == old(self).free_slots().remove(taken as int)
            },
    {
        match self.head.take() {
            Some(mut head) => {
                proof {
                    lemma_lowest(old(self)@);
                    lemma_take_lowest(old(self)@);
                    assert(old(self).free_slots().contains(old(self)@[0].0 as int));
                }
                let size = head.size();
                if size > 1 {
                    //The current head can be shrunk to acomodate the new element
                    let slot_index = head.take_single_slot();
                    self.head = Some(head);
                    Some(slot_index)
                } else {
                    //The current head cannot be shrunk: the next bucket replaces it
                    let slot_index = head.start_index;
                    self.head = head.next_bucket;
                    assert(self@ =~= old(self)@.drop_first());
                    Some(slot_index)
                }
            },
            //There are no free slots
            None => {
                assert(old(self)@.len() == 0);
                None
            },
        }
    }

    /// The growing bucket takes over the end and the successors of the
    /// disappearing one.
    pub fn merge_buckets(growing_bucket: &mut FreeBucket, disapearing_bucket: FreeBucket)
        ensures
            final(growing_bucket)@ == seq![(old(growing_bucket)@[0].0, disapearing_bucket@[0].1)]
                + disapearing_bucket@.drop_first(),
    {
        growing_bucket.end_index = disapearing_bucket.end_index;
        growing_bucket.next_bucket = disapearing_bucket.next_bucket;
        assert(disapearing_bucket@.drop_first() =~= chain(disapearing_bucket.next_bucket));
    }

    /// The ranges of all buckets, in order.
    pub fn create_list_slice(&self) -> (slice: Vec<(usize, usize)>)
        ensures
            slice@ == self@,
    {
        let mut slice = Vec::<(usize, usize)>::new();
        let mut current_bucket: &Option<Box<FreeBucket>> = &self.head;
        loop
            invariant
                self@ == slice@ + chain(*current_bucket),
            ensures
                slice@ == self@,
            decreases chain(*current_bucket).len(),
        {
            match current_bucket {
                Some(bucket) => {
                    slice.push((bucket.start_index, bucket.end_index));
                    assert(self@ =~= slice@ + chain(bucket.next_bucket));
                    current_bucket = &bucket.next_bucket;
                },
                None => {
                    assert(self@ =~= slice@);
                    break ;
                },
            }
        }
        slice
    }

    /// The number of buckets.
    pub fn len(&self) -> (len: usize)
        ensures
            len == self@.len(),
    {
        let slice = self.create_list_slice();
        slice.len()
    }

    /// The last bucket, if there is any.
    pub fn get_tail(&self) -> (tail: Option<&FreeBucket>)
        ensures
            tail.is_none() <==> self@.len() == 0,
            tail matches Some(bucket) ==> bucket@ == seq![self@.last()],
    {
        match &self.head {
            Some(head) => {
                let mut current_tail: &FreeBucket = &**head;
                let ghost mut before: Seq<(usize, usize)> = Seq::empty();
                loop
                    invariant
                        self@ == before + current_tail@,
                    ensures
                        current_tail@.len() == 1,
                        self@ == before + current_tail@,
                    decreases current_tail@.len(),
                {
                    match current_tail.get_next_bucket() {
                        Some(next_bucket) => {
                            proof {
                                before = before.push(current_tail@[0]);
                                assert(self@ =~= before + next_bucket@);
                            }
                            current_tail = next_bucket;
                        },
                        None => {
                            break ;
                        },
                    }
                }
                assert(current_tail@ =~= seq![self@.last()]);
                Some(current_tail)
            },
            None => None,
        }
    }

    /// Adds the slots `index .. index + size` behind the last bucket, which grows
    /// if it ends where they begin.
    pub fn add_free_bucket_to_tail(&mut self, index: SlotIndex, size: usize)
        requires
            old(self).wf(),
            index + size <= usize::MAX,
            old(self)@.len() > 0 ==> old(self)@.last().1 <= index,
        ensures
            final(self).wf(),
            final(self)@ == append_span(old(self)@, index, size),
            forall|x: int|
                final(self).free_slots().contains(x) <==> (old(self).free_slots().contains(x)
                    || index <= x < index + size),
    {
        proof {
            lemma_append_span(old(self)@, index, size);
        }
        if size == 0 {
            return ;
        }
        let new_bucket = FreeBucket::new_multiple_slot(index, size);
        if self.head.is_none() {
            // There are no buckets so this bucket is going to be added as the head
            self.head = Some(Box::new(new_bucket));
            assert(self@ =~= append_span(old(self)@, index, size));
        } else {
            let ghost mut before: Seq<(usize, usize)> = Seq::empty();
            let mut tail: &mut FreeBucket = self.head.as_mut().unwrap();
            while tail.next_bucket.is_some()
                invariant
                    old(self)@ == before + tail@,
                    after_borrow(*self)@ == before + final(tail)@,
                decreases tail@.len(),
            {
                proof {
                    before = before.push(tail@[0]);
                }
                tail = tail.next_bucket.as_mut().unwrap();
            }
            assert(tail@ =~= seq![old(self)@.last()]);
            if tail.end_index == index {
                //Merge new bucket with existing tail, as it would be next to it in memory
                FreeList::merge_buckets(tail, new_bucket);
            } else {
                //New bucket is not connected to the existing tail, so it is going to become the new tail
                tail.next_bucket = Some(Box::new(new_bucket));
            }
            assert(final(self)@ =~= append_span(old(self)@, index, size));
        }
    }

    /// Gives the slot `slot_index` back to the list. A bucket that the slot touches
    /// grows by it, two buckets that it joins are merged, and only a slot that
    /// touches no bucket gets a bucket of its own. A slot that is free already
    /// changes nothing.
    pub fn add_free_slot(&mut self, slot_index: SlotIndex)
        requires
            old(self).wf(),
            slot_index < usize::MAX,
        ensures
            final(self).wf(),
            final(self)@ == insert_index(old(self)@, slot_index),
            final(self).free_slots() == old(self).free_slots().insert(slot_index as int),
            old(self).free_slots().contains(slot_index as int) ==> final(self)@ == old(self)@,
            !old(self).free_slots().contains(slot_index as int) ==> final(self)@.len() == old(
                self,
            )@.len() + 1 - free_neighbours(old(self)@, slot_index as int),
    {
        proof {
            lemma_insert_index(old(self)@, slot_index);
        }
        if self.head.is_none() {
            //There were no free slots before, so this is the new head
            self.head = Some(Box::new(FreeBucket::new_single_slot(slot_index)));
            assert(self@ =~= insert_index(old(self)@, slot_index));
            return ;
        }
        let head_start_index = self.head.as_ref().unwrap().start_index;
        if slot_index < head_start_index {
            //The current slot is before the head
            if head_start_index - 1 == slot_index {
                //If the new slot is right before the current head, then expand backwards
                self.head.as_mut().unwrap().start_index -= 1;
                assert(self@ =~= insert_index(old(self)@, slot_index));
            } else {
                //It is farther back than a single slot away from the head
                //Create a new bucket and make it the new head
                let current_head = self.head.take();
                let mut new_bucket = FreeBucket::new_single_slot(slot_index);
                new_bucket.next_bucket = current_head;
                self.head = Some(Box::new(new_bucket));
                assert(self@ =~= insert_index(old(self)@, slot_index));
            }
        } else {
            let ghost mut before: Seq<(usize, usize)> = Seq::empty();
            let mut current_bucket: &mut FreeBucket = self.head.as_mut().unwrap();
            loop
                invariant_except_break
                    coalesced(current_bucket@),
                    current_bucket@[0].0 <= slot_index,
                    insert_index(old(self)@, slot_index) == before + insert_index(
                        current_bucket@,
                        slot_index,
                    ),
                invariant
                    slot_index < usize::MAX,
                    after_borrow(*self)@ == before + final(current_bucket)@,
                ensures
                    insert_index(old(self)@, slot_index) == before + current_bucket@,
                decreases current_bucket@.len(),
            {
                let ghost current = current_bucket@;
                let range_start = current_bucket.end_index;
                if slot_index < range_start {
                    //The slot lies in the current bucket: it is free already
                    break ;
                }
                let next_start: Option<usize> = match &current_bucket.next_bucket {
                    Some(next_bucket) => Some(next_bucket.start_index),
                    None => None,
                };
                match next_start {
                    Some(range_end) => {
                        //there is a next bucket
                        let ghost rest = chain(current_bucket.next_bucket);
                        assert(current_bucket@[1] == rest[0]);
                        assert(current_bucket@.drop_first() =~= rest);
                        if slot_index < range_end {
                            //The new free slot is in between the current bucket and the next bucket
                            proof {
                                reveal_with_fuel(insert_index, 2);
                            }
                            if range_end - range_start == 1 {
                                //the free slot would merge the current and next bucket
                                let next_bucket = current_bucket.next_bucket.take().unwrap();
                                FreeList::merge_buckets(current_bucket, *next_bucket);
                                assert(next_bucket@ == rest);
                                assert(rest.drop_first() =~= current.subrange(
                                    2,
                                    current.len() as int,
                                ));
                                assert(current_bucket@ =~= insert_index(current, slot_index));
                            } else if range_start == slot_index {
                                //the free slot needs to be attached to the current bucket
                                current_bucket.end_index += 1;
                                assert(current_bucket@ =~= insert_index(current, slot_index));
                            } else if range_end == slot_index + 1 {
                                //the free slot grows the next bucket backwards
                                current_bucket.next_bucket.as_mut().unwrap().start_index -= 1;
                                assert(chain(current_bucket.next_bucket) =~= rest.update(
                                    0,
                                    (slot_index, rest[0].1),
                                ));
                                assert(current_bucket@ =~= seq![current[0]] + insert_index(
                                    rest,
                                    slot_index,
                                ));
                            } else {
                                //A new bucket needs to be created because the free slot is in between the current and next buckets without touching either
                                //the current bucket is going to point to the new bucket, and the new bucket is going to point to the next bucket
                                let mut new_bucket = FreeBucket::new_single_slot(slot_index);
                                new_bucket.next_bucket = current_bucket.next_bucket.take();
                                current_bucket.next_bucket = Some(Box::new(new_bucket));
                                assert(current_bucket@ =~= seq![current[0]] + insert_index(
                                    rest,
                                    slot_index,
                                ));
                            }
                            assert(current_bucket@ == insert_index(current, slot_index));
                            break ;
                        } else {
                            //The slot is not between the current and next bucket, continue searching
                            proof {
                                before = before.push(current_bucket@[0]);
                            }
                            current_bucket = current_bucket.next_bucket.as_mut().unwrap();
                        }
                    },
                    None => {
                        //There is no next bucket
                        proof {
                            reveal_with_fuel(insert_index, 2);
                        }
                        assert(current.drop_first() =~= Seq::<(usize, usize)>::empty());
                        if range_start == slot_index {
                            //The new free slot is right in the end of the current bucket, so the current bucket just needs to grow
                            current_bucket.end_index += 1;
                            assert(current_bucket@ =~= insert_index(current, slot_index));
                        } else {
                            //The new free slot is after
                            current_bucket.next_bucket = Some(
                                Box::new(FreeBucket::new_single_slot(slot_index)),
                            );
                            assert(current_bucket@ =~= seq![current[0]] + insert_index(
                                current.drop_first(),
                                slot_index,
                            ));
                        }
                        assert(current_bucket@ == insert_index(current, slot_index));
                        break ;
                    },
                }
            }
        }
    }
}

} // verus!

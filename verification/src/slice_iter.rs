//! What the verifier is told about `core::slice::IterMut`, which it does not know
//! by itself.

use vstd::prelude::*;
use vstd::std_specs::iter::IteratorSpec;

verus! {

/// The mutable iterator of slices, carried through without looking inside.
#[verifier::external_type_specification]
#[verifier::external_body]
#[verifier::reject_recursive_types(T)]
pub struct ExIterMut<'a, T: 'a>(core::slice::IterMut<'a, T>);

/// `<[T]>::iter_mut` hands out the elements of the slice for writing, each once,
/// from the first to the last. Claimed here: the items that the iterator will
/// hand out are as many as the elements and hold, one by one, what the elements
/// hold now; the slice is as long afterwards as it was before; and each element
/// is afterwards what was last written to its item.
pub assume_specification<'a, E>[ <[E]>::iter_mut ](slice: &'a mut [E]) -> (iter:
    core::slice::IterMut<'a, E>)
    ensures
        final(slice)@.len() == old(slice)@.len(),
        iter.remaining().len() == old(slice)@.len(),
        forall|i: int|
            0 <= i < old(slice)@.len() ==> *(#[trigger] iter.remaining()[i]) == old(slice)@[i],
        forall|i: int|
            0 <= i < old(slice)@.len() ==> final(slice)@[i] == *final(#[trigger] iter.remaining()[i]),
;

} // verus!

//! The three index spaces of the slot map, kept apart by name.

use vstd::prelude::*;

verus! {

/// A position in the slot table.
pub type SlotIndex = usize;

/// A position in the dense value array.
pub type ValueIndex = usize;

/// How often a slot has been released.
pub type Generation = usize;

} // verus!

//! A generational slot map: stable, generation-checked handles to values that are
//! stored densely, with a free list that keeps the unused slots as coalesced ranges.
//! Beside it stand the engine's small bookkeeping types that are built on whole
//! numbers alone.

pub mod engine;
pub mod entity_component;
pub mod event;
pub mod free_list;
pub mod intervals;
pub mod laws;
pub mod model;
pub mod slice_iter;
pub mod slot_index_types;
pub mod slotmap;

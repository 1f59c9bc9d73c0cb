//! Keys by which the engine's shared data is addressed.

use crate::slotmap::SlotKey;
use vstd::prelude::*;

verus! {

/// The kind of data that a key leads to.
#[derive(Hash, PartialEq, Eq)]
pub enum EngineDataTypeKey {
    RenderTexture,
}

/// The place of one piece of shared data: the slot map of its kind, and its key
/// in that slot map.
pub struct EngineDataKey {
    pub map_key: EngineDataTypeKey,
    pub key: SlotKey,
}

} // verus!

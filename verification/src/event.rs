//! What an interface element learns of an event, and the states it can be in.

use vstd::prelude::*;

verus! {

/// The data of an event, with a mark that tells whether some element has used
/// the event already.
pub struct UIEventData<T> {
    pub data: T,
    used: bool,
}

impl<T> UIEventData<T> {
    /// Some element has used the event.
    pub closed spec fn is_used(&self) -> bool {
        self.used
    }

    /// The data that the event carries.
    pub closed spec fn carried(&self) -> T {
        self.data
    }

    /// Event data that no element has used yet.
    pub fn new(data: T) -> (event: Self)
        ensures
            event.carried() == data,
            !event.is_used(),
    {
        Self { data, used: false }
    }

    /// Marks the event as used. The mark is never taken back.
    pub fn use_event(&mut self)
        ensures
            final(self).is_used(),
            final(self).carried() == old(self).carried(),
    {
        self.used = true;
    }

    /// Whether some element has used the event.
    pub fn get_used(&self) -> (used: bool)
        ensures
            used == self.is_used(),
    {
        self.used
    }
}

/// The state of an interface element towards the pointer.
#[derive(Debug)]
pub enum GUIState {
    Active,
    Hovered,
    Inactive,
}

} // verus!

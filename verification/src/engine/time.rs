//! Whole-number units in which the engine counts time and frames.

use core::ops::{Add, AddAssign};
use vstd::prelude::*;
use vstd::std_specs::ops::AddSpecImpl;

verus! {

/// A span of time in microseconds.
#[derive(PartialEq, Eq, Structural, PartialOrd, Clone, Copy)]
pub struct Microsecond(pub u128);

impl Default for Microsecond {
    fn default() -> (zero: Self)
        ensures
            zero == Microsecond(0),
    {
        Microsecond(0)
    }
}

impl Add for Microsecond {
    type Output = Microsecond;

    fn add(self, rhs: Self) -> Self::Output {
        Microsecond(self.0 + rhs.0)
    }
}

impl AddSpecImpl for Microsecond {
    open spec fn obeys_add_spec() -> bool {
        true
    }

    open spec fn add_req(self, rhs: Self) -> bool {
        self.0 + rhs.0 <= u128::MAX
    }

    open spec fn add_spec(self, rhs: Self) -> Self {
        Microsecond((self.0 + rhs.0) as u128)
    }
}

impl AddAssign for Microsecond {
    /// Adds `rhs` to this span in place.
    fn add_assign(&mut self, rhs: Self)
        requires
            old(self).0 + rhs.0 <= u128::MAX,
        ensures
            final(self).0 == old(self).0 + rhs.0,
    {
        self.0 += rhs.0;
    }
}

/// A count of frames.
#[derive(Clone, Copy)]
pub struct FrameNumber(pub u128);

impl Default for FrameNumber {
    fn default() -> (zero: Self)
        ensures
            zero == FrameNumber(0),
    {
        FrameNumber(0)
    }
}

impl Add for FrameNumber {
    type Output = FrameNumber;

    fn add(self, rhs: Self) -> Self::Output {
        FrameNumber(self.0 + rhs.0)
    }
}

impl AddSpecImpl for FrameNumber {
    open spec fn obeys_add_spec() -> bool {
        true
    }

    open spec fn add_req(self, rhs: Self) -> bool {
        self.0 + rhs.0 <= u128::MAX
    }

    open spec fn add_spec(self, rhs: Self) -> Self {
        FrameNumber((self.0 + rhs.0) as u128)
    }
}

impl AddAssign for FrameNumber {
    /// Adds `rhs` to this count in place.
    fn add_assign(&mut self, rhs: Self)
        requires
            old(self).0 + rhs.0 <= u128::MAX,
        ensures
            final(self).0 == old(self).0 + rhs.0,
    {
        self.0 += rhs.0;
    }
}

} // verus!

//! How long each part of a frame took.

use super::time::Microsecond;
use vstd::prelude::*;

verus! {

/// The time that each part of the last frame took.
pub struct OperationTimer {
    pub frame_start_time: Microsecond,
    pub event_handling_time: Microsecond,
    pub update_time: Microsecond,
    pub render_time: Microsecond,
    pub frame_end_time: Microsecond,
    pub gpu_lock_time: Microsecond,
}

impl Default for OperationTimer {
    fn default() -> (timer: Self)
        ensures
            timer == (OperationTimer {
                frame_start_time: Microsecond(0),
                event_handling_time: Microsecond(0),
                update_time: Microsecond(0),
                render_time: Microsecond(0),
                frame_end_time: Microsecond(0),
                gpu_lock_time: Microsecond(0),
            }),
    {
        OperationTimer {
            frame_start_time: Microsecond(0),
            event_handling_time: Microsecond(0),
            update_time: Microsecond(0),
            render_time: Microsecond(0),
            frame_end_time: Microsecond(0),
            gpu_lock_time: Microsecond(0),
        }
    }
}

impl OperationTimer {
    /// The sum, in microseconds, of the parts of the frame that `get_total_time`
    /// adds up: all but the time spent waiting for the GPU.
    pub open spec fn total(&self) -> int {
        self.frame_start_time.0 + self.event_handling_time.0 + self.update_time.0
            + self.render_time.0 + self.frame_end_time.0
    }

    /// A timer with every time at zero.
    pub fn new() -> (timer: Self)
        ensures
            timer == (OperationTimer {
                frame_start_time: Microsecond(0),
                event_handling_time: Microsecond(0),
                update_time: Microsecond(0),
                render_time: Microsecond(0),
                frame_end_time: Microsecond(0),
                gpu_lock_time: Microsecond(0),
            }),
    {
        Self::default()
    }

    /// Takes over every time of `other`.
    pub fn copy_from(&mut self, other: &Self)
        ensures
            *final(self) == *other,
    {
        self.frame_start_time = other.frame_start_time;
        self.event_handling_time = other.event_handling_time;
        self.update_time = other.update_time;
        self.render_time = other.render_time;
        self.frame_end_time = other.frame_end_time;
        self.gpu_lock_time = other.gpu_lock_time;
    }

    /// The time of the whole frame, without the time spent waiting for the GPU.
    pub fn get_total_time(&self) -> (time: Microsecond)
        requires
            self.total() <= u128::MAX,
        ensures
            time.0 == self.total(),
    {
        let time = (self.frame_start_time + self.event_handling_time + self.update_time
            + self.render_time + self.frame_end_time);
        time
    }
}

} // verus!

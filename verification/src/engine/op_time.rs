//! How long each part of a frame took, in bare microseconds.

use vstd::prelude::*;

verus! {

/// The time, in microseconds, that each part of the last frame took.
pub struct OperationTime {
    pub frame_start_time: u128,
    pub event_handling_time: u128,
    pub update_time: u128,
    pub render_time: u128,
    pub frame_end_time: u128,
    pub gpu_lock_time: u128,
}

impl Default for OperationTime {
    fn default() -> (time: Self)
        ensures
            time == (OperationTime {
                frame_start_time: 0,
                event_handling_time: 0,
                update_time: 0,
                render_time: 0,
                frame_end_time: 0,
                gpu_lock_time: 0,
            }),
    {
        OperationTime {
            frame_start_time: 0,
            event_handling_time: 0,
            update_time: 0,
            render_time: 0,
            frame_end_time: 0,
            gpu_lock_time: 0,
        }
    }
}

impl OperationTime {
    /// The sum of the parts of the frame that `get_total_time` adds up: all but
    /// the time spent waiting for the GPU.
    pub open spec fn total(&self) -> int {
        self.frame_start_time + self.event_handling_time + self.update_time + self.render_time
            + self.frame_end_time
    }

    /// A record with every time at zero.
    pub fn new() -> (time: Self)
        ensures
            time == (OperationTime {
                frame_start_time: 0,
                event_handling_time: 0,
                update_time: 0,
                render_time: 0,
                frame_end_time: 0,
                gpu_lock_time: 0,
            }),
    {
        Self::default()
    }

    /// Takes over every time of `other`.
    pub fn copy_from(&mut self, other: &Self)
        ensures
            *final(self) == *other,
    {
        self.frame_start_time = other.frame_start_time;
        self.event_handling_time = other.event_handling_time;
        self.update_time = other.update_time;
        self.render_time = other.render_time;
        self.frame_end_time = other.frame_end_time;
        self.gpu_lock_time = other.gpu_lock_time;
    }

    /// The time of the whole frame, without the time spent waiting for the GPU.
    pub fn get_total_time(&self) -> (time: u128)
        requires
            self.total() <= u128::MAX,
        ensures
            time == self.total(),
    {
        let time = (self.frame_start_time + self.event_handling_time + self.update_time
            + self.render_time + self.frame_end_time);
        time
    }
}

} // verus!

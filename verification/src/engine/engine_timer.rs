//! The pacing of frames: when enough time has passed for the next one.

use super::time::{FrameNumber, Microsecond};
use core::ops::AddAssign;
use vstd::prelude::*;

verus! {

/// What an engine timer holds, in microseconds and frames.
pub struct EngineTimerView {
    /// The frames that were due so far.
    pub frame_count: u128,
    /// The time since the last frame, as it was measured last.
    pub accumulated_time: u128,
    /// The time that the frames so far took together.
    pub time_since_start: u128,
    /// The time that a frame is expected to take.
    pub frame_duration: u128,
}

/// Decides, from the time that has passed since the last frame, whether the next
/// frame is due, and counts frames and time.
pub struct EngineTimer {
    pub frame_count: FrameNumber,
    accumulated_time: Microsecond,
    pub time_since_start: Microsecond,
    /// Expected frame duration
    pub frame_duration: Microsecond,
}

impl View for EngineTimer {
    type V = EngineTimerView;

    closed spec fn view(&self) -> EngineTimerView {
        EngineTimerView {
            frame_count: self.frame_count.0,
            accumulated_time: self.accumulated_time.0,
            time_since_start: self.time_since_start.0,
            frame_duration: self.frame_duration.0,
        }
    }
}

impl EngineTimer {
    /// Create a timer for the system.
    /// `frame_duration` is the requested time between frames.
    /// If the update and render takes longer, then the update for the next frame is started right after the prev one
    pub fn new(frame_duration: Microsecond) -> (timer: Self)
        ensures
            timer@ == (EngineTimerView {
                frame_count: 0,
                accumulated_time: 0,
                time_since_start: 0,
                frame_duration: frame_duration.0,
            }),
    {
        Self {
            frame_count: FrameNumber(0),
            accumulated_time: Microsecond(0),
            time_since_start: Microsecond(0),
            frame_duration,
        }
    }

    /// Starts counting anew. The frame duration stays.
    pub fn reset(&mut self)
        ensures
            final(self)@ == (EngineTimerView {
                frame_count: 0,
                accumulated_time: 0,
                time_since_start: 0,
                frame_duration: old(self)@.frame_duration,
            }),
    {
        self.frame_count = FrameNumber(0);
        self.accumulated_time = Microsecond(0);
        self.time_since_start = Microsecond(0);
    }

    /// Returns TRUE if the the system should update: if the time since the last
    /// frame has reached the frame duration. Then the frame is counted and its
    /// time added to the time since the start. Otherwise the time is only noted.
    pub fn update_time(&mut self, time_since_last_render: Microsecond) -> (update: bool)
        requires
            time_since_last_render.0 >= old(self)@.frame_duration ==> old(self)@.frame_count
                < u128::MAX && old(self)@.time_since_start + time_since_last_render.0 <= u128::MAX,
        ensures
            update <==> time_since_last_render.0 >= old(self)@.frame_duration,
            update ==> final(self)@ == (EngineTimerView {
                frame_count: (old(self)@.frame_count + 1) as u128,
                accumulated_time: 0,
                time_since_start: (old(self)@.time_since_start + time_since_last_render.0) as u128,
                frame_duration: old(self)@.frame_duration,
            }),
            !update ==> final(self)@ == (EngineTimerView {
                accumulated_time: time_since_last_render.0,
                ..old(self)@
            }),
    {
        self.accumulated_time = time_since_last_render;

        if self.accumulated_time.0 >= self.frame_duration.0 {
            self.frame_count.add_assign(FrameNumber(1));
            self.time_since_start.add_assign(self.accumulated_time);
            self.accumulated_time = Microsecond(0);
            return true;
        }
        return false;
    }
}

} // verus!

//! Time keeping for the engine loop: units of time and the timers built on them.

pub mod engine_timer;
pub mod op_time;
pub mod operation_timer;
pub mod time;

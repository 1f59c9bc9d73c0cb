use dense_slotmap::engine::engine_timer::EngineTimer;
use dense_slotmap::engine::op_time::OperationTime;
use dense_slotmap::engine::operation_timer::OperationTimer;
use dense_slotmap::engine::time::{FrameNumber, Microsecond};
use dense_slotmap::entity_component::{EngineDataKey, EngineDataTypeKey};
use dense_slotmap::event::UIEventData;
use dense_slotmap::slotmap::Slotmap;

#[test]
fn microseconds_add_up() {
    let sum = Microsecond(1_500) + Microsecond(2_500);
    assert_eq!(sum.0, 4_000);
    assert!(sum == Microsecond(4_000));
    assert!(Microsecond(1) < Microsecond(2));
    let mut total = Microsecond::default();
    assert_eq!(total.0, 0);
    total += Microsecond(7);
    total += Microsecond(8);
    assert_eq!(total.0, 15);
}

#[test]
fn frame_numbers_add_up() {
    let mut frames = FrameNumber::default();
    assert_eq!(frames.0, 0);
    frames += FrameNumber(1);
    frames += FrameNumber(1);
    assert_eq!(frames.0, 2);
    assert_eq!((frames + FrameNumber(40)).0, 42);
}

#[test]
fn a_new_operation_timer_is_at_zero() {
    let timer = OperationTimer::new();
    assert_eq!(timer.frame_start_time.0, 0);
    assert_eq!(timer.event_handling_time.0, 0);
    assert_eq!(timer.update_time.0, 0);
    assert_eq!(timer.render_time.0, 0);
    assert_eq!(timer.frame_end_time.0, 0);
    assert_eq!(timer.gpu_lock_time.0, 0);
    assert_eq!(timer.get_total_time().0, 0);
}

#[test]
fn the_total_time_leaves_out_the_gpu_lock_time() {
    let mut timer = OperationTimer::new();
    timer.frame_start_time = Microsecond(1);
    timer.event_handling_time = Microsecond(20);
    timer.update_time = Microsecond(300);
    timer.render_time = Microsecond(4_000);
    timer.frame_end_time = Microsecond(50_000);
    timer.gpu_lock_time = Microsecond(600_000);
    assert_eq!(timer.get_total_time().0, 54_321);

    let mut copy = OperationTimer::new();
    copy.copy_from(&timer);
    assert_eq!(copy.gpu_lock_time.0, 600_000);
    assert_eq!(copy.render_time.0, 4_000);
    assert_eq!(copy.get_total_time().0, 54_321);
}

#[test]
fn operation_time_counts_in_bare_microseconds() {
    let mut time = OperationTime::new();
    assert_eq!(time.get_total_time(), 0);
    time.frame_start_time = 5;
    time.event_handling_time = 10;
    time.update_time = 15;
    time.render_time = 20;
    time.frame_end_time = 25;
    time.gpu_lock_time = 1_000;
    assert_eq!(time.get_total_time(), 75);

    let mut copy = OperationTime::new();
    copy.copy_from(&time);
    assert_eq!(copy.frame_start_time, 5);
    assert_eq!(copy.gpu_lock_time, 1_000);
    assert_eq!(copy.get_total_time(), 75);
}

#[test]
fn an_event_is_unused_until_it_is_used() {
    let mut event = UIEventData::new(17u32);
    assert_eq!(event.data, 17);
    assert!(!event.get_used());
    event.use_event();
    assert!(event.get_used());
    event.use_event();
    assert!(event.get_used());
    assert_eq!(event.data, 17);
}

#[test]
fn an_engine_data_key_carries_a_slot_key() {
    let mut textures = Slotmap::<u32>::new_with_capacity(4);
    let key = textures.push(11).unwrap();
    let data_key = EngineDataKey { map_key: EngineDataTypeKey::RenderTexture, key };
    assert!(data_key.map_key == EngineDataTypeKey::RenderTexture);
    assert_eq!(textures.get_value(data_key.key), Some(&11));
}

#[test]
fn a_frame_is_due_once_its_duration_has_passed() {
    let mut timer = EngineTimer::new(Microsecond(16_000));
    assert_eq!(timer.frame_count.0, 0);
    assert_eq!(timer.time_since_start.0, 0);
    assert_eq!(timer.frame_duration.0, 16_000);

    assert!(!timer.update_time(Microsecond(15_999)));
    assert_eq!(timer.frame_count.0, 0);
    assert_eq!(timer.time_since_start.0, 0);

    assert!(timer.update_time(Microsecond(16_000)));
    assert_eq!(timer.frame_count.0, 1);
    assert_eq!(timer.time_since_start.0, 16_000);

    assert!(timer.update_time(Microsecond(20_500)));
    assert_eq!(timer.frame_count.0, 2);
    assert_eq!(timer.time_since_start.0, 36_500);

    assert!(!timer.update_time(Microsecond(0)));
    assert_eq!(timer.frame_count.0, 2);
    assert_eq!(timer.time_since_start.0, 36_500);
}

#[test]
fn a_reset_timer_counts_anew_with_the_same_frame_duration() {
    let mut timer = EngineTimer::new(Microsecond(10));
    assert!(timer.update_time(Microsecond(12)));
    assert!(timer.update_time(Microsecond(10)));
    timer.reset();
    assert_eq!(timer.frame_count.0, 0);
    assert_eq!(timer.time_since_start.0, 0);
    assert_eq!(timer.frame_duration.0, 10);
    assert!(!timer.update_time(Microsecond(9)));
    assert!(timer.update_time(Microsecond(11)));
    assert_eq!(timer.frame_count.0, 1);
    assert_eq!(timer.time_since_start.0, 11);
}

#[test]
fn a_frame_duration_of_zero_makes_every_frame_due() {
    let mut timer = EngineTimer::new(Microsecond(0));
    assert!(timer.update_time(Microsecond(0)));
    assert!(timer.update_time(Microsecond(5)));
    assert_eq!(timer.frame_count.0, 2);
    assert_eq!(timer.time_since_start.0, 5);
}

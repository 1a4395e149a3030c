//! Merging redundant runs received over the network into a buffer.

use predictive_input::action::ActionState;
use predictive_input::input_buffer::{BufferError, InputBuffer};

fn state(v: u16) -> ActionState<u16> {
    ActionState { value: Some(v) }
}

#[test]
fn merge_into_empty_buffer_takes_whole_run() {
    let mut buffer: InputBuffer<u16> = InputBuffer::new(16);
    // run covers ticks 3, 4, 5
    buffer.update_from_message(5, &vec![state(3), state(4), state(5)]);
    assert_eq!(buffer.start_tick, Some(3));
    assert_eq!(buffer.read(3), Ok(state(3)));
    assert_eq!(buffer.read(4), Ok(state(4)));
    assert_eq!(buffer.read(5), Ok(state(5)));
}

#[test]
fn merge_extends_past_local_history_only() {
    let mut buffer: InputBuffer<u16> = InputBuffer::new(16);
    buffer.write(10, state(100));
    // run covers ticks 8..=12; local history reaches tick 10
    buffer.update_from_message(12, &vec![state(8), state(9), state(10), state(11), state(12)]);
    // ticks at or before the local end keep local values
    assert_eq!(buffer.read(9), Err(BufferError::HistoryExpired)); // before local start
    assert_eq!(buffer.read(10), Ok(state(100)));
    // ticks past the local end take the run's values
    assert_eq!(buffer.read(11), Ok(state(11)));
    assert_eq!(buffer.read(12), Ok(state(12)));
}

#[test]
fn stale_run_changes_nothing() {
    let mut buffer: InputBuffer<u16> = InputBuffer::new(16);
    buffer.write(5, state(50));
    buffer.write(8, state(80));
    // the run's newest tick is not newer than local history
    buffer.update_from_message(8, &vec![state(6), state(7), state(8)]);
    assert_eq!(buffer.start_tick, Some(5));
    assert_eq!(buffer.read(6), Ok(state(50)));
    assert_eq!(buffer.read(7), Ok(state(50)));
    assert_eq!(buffer.read(8), Ok(state(80)));
}

#[test]
fn equal_tick_keeps_existing_entry() {
    let mut buffer: InputBuffer<u16> = InputBuffer::new(16);
    buffer.write(4, state(44));
    buffer.update_from_message(4, &vec![state(9)]);
    assert_eq!(buffer.read(4), Ok(state(44)));
}

#[test]
fn empty_run_is_a_no_op() {
    let mut buffer: InputBuffer<u16> = InputBuffer::new(16);
    buffer.write(2, state(1));
    buffer.update_from_message(9, &vec![]);
    assert_eq!(buffer.start_tick, Some(2));
    assert_eq!(buffer.len(), 1);
}

#[test]
fn merge_past_horizon_evicts_oldest() {
    let mut buffer: InputBuffer<u16> = InputBuffer::new(4);
    buffer.write(1, state(1));
    buffer.update_from_message(6, &vec![state(3), state(4), state(5), state(6)]);
    // window is capped at 4 entries ending at tick 6
    assert_eq!(buffer.start_tick, Some(3));
    assert_eq!(buffer.read(2), Err(BufferError::HistoryExpired));
    assert_eq!(buffer.read(3), Ok(state(3)));
    assert_eq!(buffer.read(6), Ok(state(6)));
}

#[test]
fn merge_with_gap_fills_forward_from_local_newest() {
    let mut buffer: InputBuffer<u16> = InputBuffer::new(16);
    buffer.write(5, state(50));
    // run covers only ticks 9..=10, leaving 6..=8 unsaid
    buffer.update_from_message(10, &vec![state(9), state(10)]);
    assert_eq!(buffer.read(6), Ok(state(50)));
    assert_eq!(buffer.read(8), Ok(state(50)));
    assert_eq!(buffer.read(9), Ok(state(9)));
    assert_eq!(buffer.read(10), Ok(state(10)));
}

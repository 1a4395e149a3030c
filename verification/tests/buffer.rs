//! Input buffer behaviour: fill-forward reads, overwrites, eviction.

use predictive_input::action::ActionState;
use predictive_input::input_buffer::{BufferError, InputBuffer, DEFAULT_HORIZON};

fn state(v: u16) -> ActionState<u16> {
    ActionState { value: Some(v) }
}

#[test]
fn read_on_empty_buffer_is_expired() {
    let buffer: InputBuffer<u16> = InputBuffer::new(8);
    assert_eq!(buffer.read(0), Err(BufferError::HistoryExpired));
    assert_eq!(buffer.read(100), Err(BufferError::HistoryExpired));
}

#[test]
fn first_write_starts_the_window() {
    let mut buffer: InputBuffer<u16> = InputBuffer::new(8);
    buffer.write(10, state(1));
    assert_eq!(buffer.start_tick, Some(10));
    assert_eq!(buffer.read(10), Ok(state(1)));
    assert_eq!(buffer.read(9), Err(BufferError::HistoryExpired));
}

#[test]
fn fill_forward_covers_gaps_and_future_ticks() {
    // the end-to-end example: write(5, A), write(7, B) with tick 6 unset
    let mut buffer: InputBuffer<u16> = InputBuffer::new(64);
    buffer.write(5, state(100)); // A
    buffer.write(7, state(200)); // B
    assert_eq!(buffer.read(5), Ok(state(100)));
    assert_eq!(buffer.read(6), Ok(state(100))); // gap filled with A
    assert_eq!(buffer.read(7), Ok(state(200)));
    assert_eq!(buffer.read(8), Ok(state(200))); // beyond the end: newest
    assert_eq!(buffer.read(4), Err(BufferError::HistoryExpired));
}

#[test]
fn overwrite_same_tick_keeps_later_value() {
    let mut buffer: InputBuffer<u16> = InputBuffer::new(8);
    buffer.write(3, state(1));
    buffer.write(3, state(2));
    assert_eq!(buffer.read(3), Ok(state(2)));
    assert_eq!(buffer.len(), 1);
}

#[test]
fn write_before_window_is_ignored() {
    let mut buffer: InputBuffer<u16> = InputBuffer::new(8);
    buffer.write(10, state(1));
    buffer.write(5, state(9));
    assert_eq!(buffer.start_tick, Some(10));
    assert_eq!(buffer.read(10), Ok(state(1)));
    assert_eq!(buffer.read(5), Err(BufferError::HistoryExpired));
}

#[test]
fn eviction_advances_start_tick() {
    let mut buffer: InputBuffer<u16> = InputBuffer::new(4);
    buffer.write(1, state(1));
    buffer.write(2, state(2));
    buffer.write(3, state(3));
    buffer.write(4, state(4));
    buffer.write(5, state(5)); // horizon 4: tick 1 is evicted
    assert_eq!(buffer.start_tick, Some(2));
    assert_eq!(buffer.len(), 4);
    assert_eq!(buffer.read(1), Err(BufferError::HistoryExpired));
    assert_eq!(buffer.read(2), Ok(state(2)));
    assert_eq!(buffer.read(5), Ok(state(5)));
}

#[test]
fn eviction_with_default_horizon() {
    // write(5, A) then walk forward until tick 4's history must be gone
    let mut buffer: InputBuffer<u16> = InputBuffer::new(DEFAULT_HORIZON);
    buffer.write(5, state(100));
    for t in 6..=69 {
        buffer.write(t, state(t as u16));
    }
    // window is now [6, 69]: 64 entries
    assert_eq!(buffer.start_tick, Some(6));
    assert_eq!(buffer.read(5), Err(BufferError::HistoryExpired));
    assert_eq!(buffer.read(4), Err(BufferError::HistoryExpired));
    assert_eq!(buffer.read(6), Ok(state(6)));
    assert_eq!(buffer.read(69), Ok(state(69)));
}

#[test]
fn write_far_past_the_window_fills_with_newest() {
    let mut buffer: InputBuffer<u16> = InputBuffer::new(4);
    buffer.write(0, state(7));
    buffer.write(100, state(8)); // gap far larger than the horizon
    assert_eq!(buffer.start_tick, Some(97));
    assert_eq!(buffer.len(), 4);
    assert_eq!(buffer.read(97), Ok(state(7))); // fill copies of the old newest
    assert_eq!(buffer.read(98), Ok(state(7)));
    assert_eq!(buffer.read(99), Ok(state(7)));
    assert_eq!(buffer.read(100), Ok(state(8)));
    assert_eq!(buffer.read(96), Err(BufferError::HistoryExpired));
}

#[test]
fn fill_forward_after_many_writes() {
    // reads return the latest write at or before each tick
    let mut buffer: InputBuffer<u16> = InputBuffer::new(32);
    buffer.write(1, state(10));
    buffer.write(4, state(40));
    buffer.write(4, state(41));
    buffer.write(9, state(90));
    assert_eq!(buffer.read(1), Ok(state(10)));
    assert_eq!(buffer.read(2), Ok(state(10)));
    assert_eq!(buffer.read(3), Ok(state(10)));
    assert_eq!(buffer.read(4), Ok(state(41)));
    assert_eq!(buffer.read(8), Ok(state(41)));
    assert_eq!(buffer.read(9), Ok(state(90)));
    assert_eq!(buffer.read(1000), Ok(state(90)));
}

#[test]
fn end_tick_and_len_track_the_window() {
    let mut buffer: InputBuffer<u16> = InputBuffer::new(16);
    assert_eq!(buffer.end_tick(), None);
    assert_eq!(buffer.len(), 0);
    buffer.write(7, state(1));
    assert_eq!(buffer.end_tick(), Some(7));
    buffer.write(12, state(2));
    assert_eq!(buffer.end_tick(), Some(12));
    assert_eq!(buffer.len(), 6);
}

#[test]
fn default_buffer_is_empty_with_default_horizon() {
    let buffer: InputBuffer<u16> = InputBuffer::default();
    assert_eq!(buffer.start_tick, None);
    assert_eq!(buffer.horizon, DEFAULT_HORIZON);
    assert_eq!(buffer.len(), 0);
}

#[test]
fn negative_ticks_are_ordinary_ticks() {
    let mut buffer: InputBuffer<u16> = InputBuffer::new(8);
    buffer.write(-5, state(1));
    buffer.write(-2, state(2));
    assert_eq!(buffer.read(-4), Ok(state(1)));
    assert_eq!(buffer.read(-2), Ok(state(2)));
    assert_eq!(buffer.read(-6), Err(BufferError::HistoryExpired));
}

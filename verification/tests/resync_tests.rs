//! Tick-snap resynchronization of buffers and queued messages.

use predictive_input::action::ActionState;
use predictive_input::codec::ControlledEntity;
use predictive_input::input_buffer::InputBuffer;
use predictive_input::message::{InputMessage, MessageBuffer};
use predictive_input::reconcile::{PredictedRecord, PredictedStore};
use predictive_input::resync::{receive_tick_event, TickEvent};

fn state(v: u16) -> ActionState<u16> {
    ActionState { value: Some(v) }
}

#[test]
fn tick_snap_shifts_buffer_start_and_queued_end() {
    // the resync example: snap {old: 10, new: 15} moves start_tick 10 to 15
    // and a queued end_tick 12 to 17
    let mut buffer: InputBuffer<u16> = InputBuffer::new(16);
    buffer.write(10, state(1));
    let mut controlled = vec![ControlledEntity {
        entity: 1,
        input_buffer: buffer,
        predicted: None,
        pre_predicted: false,
    }];
    let mut store: PredictedStore<u16> = PredictedStore::new();
    let mut mb: MessageBuffer<u16> = MessageBuffer::default();
    mb.push(InputMessage::new(12));

    receive_tick_event(
        TickEvent::TickSnap { old_tick: 10, new_tick: 15 },
        &mut controlled,
        &mut store,
        &mut mb,
    );
    assert_eq!(controlled[0].input_buffer.start_tick, Some(15));
    assert_eq!(mb.messages[0].end_tick, 17);
    // the snapshots themselves moved with their labels
    assert_eq!(controlled[0].input_buffer.read(15), Ok(state(1)));
}

#[test]
fn tick_snap_with_negative_delta() {
    let mut buffer: InputBuffer<u16> = InputBuffer::new(16);
    buffer.write(100, state(9));
    let mut controlled = vec![ControlledEntity {
        entity: 1,
        input_buffer: buffer,
        predicted: None,
        pre_predicted: false,
    }];
    let mut store: PredictedStore<u16> = PredictedStore::new();
    let mut mb: MessageBuffer<u16> = MessageBuffer::default();
    mb.push(InputMessage::new(103));

    receive_tick_event(
        TickEvent::TickSnap { old_tick: 100, new_tick: 90 },
        &mut controlled,
        &mut store,
        &mut mb,
    );
    assert_eq!(controlled[0].input_buffer.start_tick, Some(90));
    assert_eq!(mb.messages[0].end_tick, 93);
}

#[test]
fn tick_snap_shifts_predicted_buffers_and_leaves_empty_records() {
    let mut controlled: Vec<ControlledEntity<u16>> = Vec::new();
    let mut store: PredictedStore<u16> = PredictedStore::new();
    let mut shifted: InputBuffer<u16> = InputBuffer::new(8);
    shifted.write(5, state(3));
    store.records.push(PredictedRecord { entity: 2, input_buffer: Some(shifted) });
    store.records.push(PredictedRecord { entity: 3, input_buffer: None });
    let mut mb: MessageBuffer<u16> = MessageBuffer::default();

    receive_tick_event(
        TickEvent::TickSnap { old_tick: 0, new_tick: 4 },
        &mut controlled,
        &mut store,
        &mut mb,
    );
    let buffer = store.records[0].input_buffer.as_ref().unwrap();
    assert_eq!(buffer.start_tick, Some(9));
    assert_eq!(buffer.read(9), Ok(state(3)));
    assert!(store.records[1].input_buffer.is_none());
}

#[test]
fn empty_buffers_are_untouched_by_a_snap() {
    let mut controlled = vec![ControlledEntity::<u16> {
        entity: 1,
        input_buffer: InputBuffer::new(8),
        predicted: None,
        pre_predicted: false,
    }];
    let mut store: PredictedStore<u16> = PredictedStore::new();
    let mut mb: MessageBuffer<u16> = MessageBuffer::default();
    receive_tick_event(
        TickEvent::TickSnap { old_tick: 1, new_tick: 9 },
        &mut controlled,
        &mut store,
        &mut mb,
    );
    assert_eq!(controlled[0].input_buffer.start_tick, None);
}

#[test]
fn drain_empties_the_queue_in_order() {
    let mut mb: MessageBuffer<u16> = MessageBuffer::default();
    mb.push(InputMessage::new(1));
    mb.push(InputMessage::new(2));
    let drained = mb.drain();
    assert_eq!(drained.len(), 2);
    assert_eq!(drained[0].end_tick, 1);
    assert_eq!(drained[1].end_tick, 2);
    assert_eq!(mb.len(), 0);
}

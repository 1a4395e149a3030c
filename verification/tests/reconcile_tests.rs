//! Inbound reconciliation of received input messages.

use predictive_input::action::ActionState;
use predictive_input::entity_map::EntityMap;
use predictive_input::input_buffer::InputBuffer;
use predictive_input::message::{InputMessage, InputTarget, PerTargetData};
use predictive_input::reconcile::{apply_input_message, ConfirmedTable, PredictedStore};

fn state(v: u16) -> ActionState<u16> {
    ActionState { value: Some(v) }
}

fn message_for(
    end_tick: i64,
    target: InputTarget,
    states: Vec<ActionState<u16>>,
) -> InputMessage<u16> {
    let mut message = InputMessage::new(end_tick);
    message.inputs.push(PerTargetData { target, states });
    message
}

#[test]
fn remote_entry_lands_in_predicted_buffer() {
    let mut map = EntityMap::new();
    map.insert(1, 10); // local confirmed 1 <-> remote 10
    let mut confirmed = ConfirmedTable::new();
    confirmed.insert(1, Some(2)); // its predicted counterpart is entity 2
    let mut store: PredictedStore<u16> = PredictedStore::new();
    store.register(2);

    let message = message_for(6, InputTarget::Entity(10), vec![state(5), state(6)]);
    let errors = apply_input_message(&message, &map, &confirmed, &mut store);
    assert_eq!(errors, 0);
    let buffer = store.records[0].input_buffer.as_ref().unwrap();
    assert_eq!(buffer.read(5), Ok(state(5)));
    assert_eq!(buffer.read(6), Ok(state(6)));
}

#[test]
fn first_contact_creates_the_buffer() {
    let map = EntityMap::new();
    let mut confirmed = ConfirmedTable::new();
    confirmed.insert(4, Some(8));
    let mut store: PredictedStore<u16> = PredictedStore::new();
    store.register(8);
    assert!(store.records[0].input_buffer.is_none());

    // a pre-predicted target is already locally meaningful
    let message = message_for(3, InputTarget::PrePredictedEntity(4), vec![state(3)]);
    let errors = apply_input_message(&message, &map, &confirmed, &mut store);
    assert_eq!(errors, 0);
    let buffer = store.records[0].input_buffer.as_ref().unwrap();
    assert_eq!(buffer.read(3), Ok(state(3)));
}

#[test]
fn unknown_remote_identifier_is_counted_and_siblings_continue() {
    let mut map = EntityMap::new();
    map.insert(1, 10);
    let mut confirmed = ConfirmedTable::new();
    confirmed.insert(1, Some(2));
    let mut store: PredictedStore<u16> = PredictedStore::new();
    store.register(2);

    let mut message = InputMessage::new(7);
    message.inputs.push(PerTargetData {
        target: InputTarget::Entity(99), // nobody local answers to 99
        states: vec![state(7)],
    });
    message.inputs.push(PerTargetData { target: InputTarget::Entity(10), states: vec![state(7)] });
    let errors = apply_input_message(&message, &map, &confirmed, &mut store);
    assert_eq!(errors, 1);
    let buffer = store.records[0].input_buffer.as_ref().unwrap();
    assert_eq!(buffer.read(7), Ok(state(7)));
}

#[test]
fn unknown_confirmed_entity_is_counted() {
    let map = EntityMap::new();
    let confirmed = ConfirmedTable::new();
    let mut store: PredictedStore<u16> = PredictedStore::new();
    let message = message_for(2, InputTarget::PrePredictedEntity(4), vec![state(2)]);
    let errors = apply_input_message(&message, &map, &confirmed, &mut store);
    assert_eq!(errors, 1);
}

#[test]
fn confirmed_without_predicted_counterpart_is_skipped_silently() {
    let mut map = EntityMap::new();
    map.insert(1, 10);
    let mut confirmed = ConfirmedTable::new();
    confirmed.insert(1, None);
    let mut store: PredictedStore<u16> = PredictedStore::new();
    let message = message_for(2, InputTarget::Entity(10), vec![state(2)]);
    let errors = apply_input_message(&message, &map, &confirmed, &mut store);
    assert_eq!(errors, 0);
    assert_eq!(store.records.len(), 0);
}

#[test]
fn merge_prefers_existing_local_history() {
    let mut map = EntityMap::new();
    map.insert(1, 10);
    let mut confirmed = ConfirmedTable::new();
    confirmed.insert(1, Some(2));
    let mut store: PredictedStore<u16> = PredictedStore::new();
    let mut existing: InputBuffer<u16> = InputBuffer::new(16);
    existing.write(5, state(500));
    store.records.push(predictive_input::reconcile::PredictedRecord {
        entity: 2,
        input_buffer: Some(existing),
    });

    let message = message_for(6, InputTarget::Entity(10), vec![state(4), state(5), state(6)]);
    let errors = apply_input_message(&message, &map, &confirmed, &mut store);
    assert_eq!(errors, 0);
    let buffer = store.records[0].input_buffer.as_ref().unwrap();
    // tick 5 already held a value at least as recent: kept
    assert_eq!(buffer.read(5), Ok(state(500)));
    assert_eq!(buffer.read(6), Ok(state(6)));
}

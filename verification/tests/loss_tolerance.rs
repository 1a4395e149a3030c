//! End-to-end redundancy: losing all but one message per redundancy window
//! leaves no gap in the receiver's buffer.

use predictive_input::action::ActionState;
use predictive_input::codec::{prepare_input_message, ControlledEntity};
use predictive_input::entity_map::EntityMap;
use predictive_input::input_buffer::InputBuffer;
use predictive_input::message::{redundancy_window, MessageBuffer};
use predictive_input::reconcile::{apply_input_message, ConfirmedTable, PredictedStore};

fn state(v: u16) -> ActionState<u16> {
    ActionState { value: Some(v) }
}

#[test]
fn one_delivery_per_redundancy_window_leaves_no_gap() {
    // sender side: one controlled entity, inputs captured every tick
    let mut map = EntityMap::new();
    map.insert(1, 10);
    let mut sender = ControlledEntity {
        entity: 1,
        input_buffer: InputBuffer::<u16>::new(64),
        predicted: None,
        pre_predicted: false,
    };

    // receiver side: remote 10 maps back to local 1, predicted by entity 2
    let mut back_map = EntityMap::new();
    back_map.insert(1, 10);
    let mut confirmed = ConfirmedTable::new();
    confirmed.insert(1, Some(2));
    let mut store: PredictedStore<u16> = PredictedStore::new();
    store.register(2);

    // send interval spans 2 ticks, redundancy factor 3: 9-tick window
    let redundancy_factor: u16 = 3;
    let num_tick = redundancy_window(20_000_000, 10_000_000, redundancy_factor);
    assert_eq!(num_tick, 9);

    let mut cycle: u64 = 0;
    for t in 1..=40i64 {
        sender.input_buffer.write(t, state(t as u16));
        let mut mb: MessageBuffer<u16> = MessageBuffer::default();
        let entities = vec![sender];
        prepare_input_message(&entities, &map, t, 0, num_tick, false, &mut mb);
        sender = entities.into_iter().next().unwrap();
        // the transport loses every message except one per window of 3
        if cycle % (redundancy_factor as u64) == 2 {
            for message in mb.drain() {
                let errors = apply_input_message(&message, &back_map, &confirmed, &mut store);
                assert_eq!(errors, 0);
            }
        }
        cycle += 1;
    }

    // every tick in the receiver's window holds the exact captured input
    let buffer = store.records[0].input_buffer.as_ref().unwrap();
    let start = buffer.start_tick.unwrap();
    assert!(start <= 1);
    for t in 1..=39i64 {
        assert_eq!(buffer.read(t), Ok(state(t as u16)), "gap at tick {}", t);
    }
}

#[test]
fn rebroadcast_flow_reaches_the_predicted_entity() {
    // a remote client's inputs, relayed by the server, land in the local
    // predicted copy of that client's entity
    let mut map = EntityMap::new();
    map.insert(3, 30);
    let mut buffer: InputBuffer<u16> = InputBuffer::new(64);
    buffer.write(21, state(6));
    let entities = vec![ControlledEntity {
        entity: 3,
        input_buffer: buffer,
        predicted: None,
        pre_predicted: false,
    }];
    let mut mb: MessageBuffer<u16> = MessageBuffer::default();
    prepare_input_message(&entities, &map, 21, 0, 4, false, &mut mb);

    let mut back_map = EntityMap::new();
    back_map.insert(7, 30); // locally, remote 30 is confirmed entity 7
    let mut confirmed = ConfirmedTable::new();
    confirmed.insert(7, Some(8)); // predicted copy is entity 8
    let mut store: PredictedStore<u16> = PredictedStore::new();
    store.register(8);
    for message in mb.drain() {
        let errors = apply_input_message(&message, &back_map, &confirmed, &mut store);
        assert_eq!(errors, 0);
    }
    let predicted_buffer = store.records[0].input_buffer.as_ref().unwrap();
    assert_eq!(predicted_buffer.read(21), Ok(state(6)));
}

//! Resynchronization: when the shared clock snaps, every buffered tick
//! label and every not-yet-sent message label moves by the same delta, so
//! the data stays consistent with the corrected clock.

use vstd::prelude::*;

use crate::Tick;
use crate::codec::ControlledEntity;
use crate::input_buffer::{spec_shift, BufView};
use crate::message::MessageBuffer;
use crate::reconcile::{record_view, PredictedStore};

verus! {

/// Clock-synchronization event: the local tick counter snapped from
/// `old_tick` to `new_tick` to realign with the authoritative clock.
#[derive(Clone, Copy, Debug, PartialEq, Eq)]
pub enum TickEvent {
    TickSnap { old_tick: Tick, new_tick: Tick },
}

/// Whether shifting every tick label of `m` by `delta` stays representable.
pub open spec fn shift_in_range<A>(m: BufView<A>, delta: int) -> bool {
    m.start is Some ==> i64::MIN <= m.start->0 + delta && m.start->0 + m.entries.len() - 1
        + delta <= i64::MAX
}

/// An optional buffer model with every tick label shifted by `delta`.
pub open spec fn spec_shift_opt<A>(b: Option<BufView<A>>, delta: int) -> Option<BufView<A>> {
    match b {
        Some(m) => Some(spec_shift(m, delta)),
        None => None,
    }
}

/// Applies a tick snap `{old_tick, new_tick}`: every live input buffer with
/// a defined start tick — locally controlled and predicted alike — has it
/// shifted by `new_tick - old_tick`, and every message still sitting in the
/// outbound queue has its end tick shifted identically. Messages already
/// handed to the transport are in flight and keep the labels that were
/// correct at send time.
#[verifier::loop_isolation(false)]
pub fn receive_tick_event<A>(
    event: TickEvent,
    controlled: &mut Vec<ControlledEntity<A>>,
    store: &mut PredictedStore<A>,
    message_buffer: &mut MessageBuffer<A>,
)
    requires
        event matches TickEvent::TickSnap { old_tick, new_tick }
            ==> i64::MIN <= new_tick - old_tick <= i64::MAX,
        forall|i: int|
            0 <= i < old(controlled)@.len() ==> (#[trigger] old(controlled)@[i]).wf()
                && (event matches TickEvent::TickSnap { old_tick, new_tick }
                ==> shift_in_range(old(controlled)@[i].input_buffer@, new_tick - old_tick)),
        old(store).wf(),
        forall|i: int|
            0 <= i < old(store)@.len()
                ==> match (#[trigger] old(store)@[i]).1 {
                    Some(m) => event matches TickEvent::TickSnap {
                        old_tick,
                        new_tick,
                    } ==> shift_in_range(m, new_tick - old_tick),
                    None => true,
                },
        forall|i: int|
            0 <= i < old(message_buffer).messages@.len()
                ==> (event matches TickEvent::TickSnap { old_tick, new_tick }
                ==> i64::MIN <= (#[trigger] old(message_buffer).messages@[i]).end_tick
                    + (new_tick - old_tick) <= i64::MAX),
    ensures
        event matches TickEvent::TickSnap { old_tick, new_tick } ==> {
            let delta = new_tick - old_tick;
            &&& final(controlled)@.len() == old(controlled)@.len()
            &&& forall|i: int|
                0 <= i < old(controlled)@.len()
                    ==> (#[trigger] final(controlled)@[i]).entity == old(controlled)@[i].entity
                        && final(controlled)@[i].predicted == old(controlled)@[i].predicted
                        && final(controlled)@[i].pre_predicted == old(
                        controlled,
                    )@[i].pre_predicted && final(controlled)@[i].input_buffer@ == spec_shift(
                        old(controlled)@[i].input_buffer@,
                        delta,
                    ) && final(controlled)@[i].wf()
            &&& final(store)@.len() == old(store)@.len()
            &&& forall|i: int|
                0 <= i < old(store)@.len()
                    ==> (#[trigger] final(store)@[i]).0 == old(store)@[i].0
                        && final(store)@[i].1 == spec_shift_opt(old(store)@[i].1, delta)
            &&& final(store).wf()
            &&& final(message_buffer).messages@.len() == old(message_buffer).messages@.len()
            &&& forall|i: int|
                0 <= i < old(message_buffer).messages@.len()
                    ==> (#[trigger] final(message_buffer).messages@[i]).end_tick == old(
                        message_buffer,
                    ).messages@[i].end_tick + delta
                        && final(message_buffer).messages@[i].inputs == old(
                        message_buffer,
                    ).messages@[i].inputs
        },
{
    match event {
        TickEvent::TickSnap { old_tick, new_tick } => {
            let delta: i64 = ((new_tick as i128) - (old_tick as i128)) as i64;
            let nc = controlled.len();
            let mut i: usize = 0;
            while i < nc
                invariant
                    i <= nc,
                    controlled@.len() == nc,
                    forall|j: int|
                        i <= j < nc ==> #[trigger] controlled@[j] == old(controlled)@[j],
                    forall|j: int|
                        0 <= j < i
                            ==> (#[trigger] controlled@[j]).entity == old(controlled)@[j].entity
                                && controlled@[j].predicted == old(controlled)@[j].predicted
                                && controlled@[j].pre_predicted == old(
                                controlled,
                            )@[j].pre_predicted && controlled@[j].input_buffer@ == spec_shift(
                                old(controlled)@[j].input_buffer@,
                                delta as int,
                            ) && controlled@[j].wf(),
                decreases nc - i,
            {
                controlled[i].input_buffer.apply_tick_delta(delta);
                i += 1;
            }
            let ns = store.records.len();
            let mut k: usize = 0;
            while k < ns
                invariant
                    k <= ns,
                    store.records@.len() == ns,
                    store@.len() == ns,
                    forall|j: int|
                        k <= j < ns ==> #[trigger] store.records@[j] == old(store).records@[j],
                    forall|j: int|
                        k <= j < ns ==> #[trigger] store@[j] == old(store)@[j],
                    forall|j: int|
                        0 <= j < k
                            ==> (#[trigger] store@[j]).0 == old(store)@[j].0 && store@[j].1
                                == spec_shift_opt(old(store)@[j].1, delta as int),
                    store.wf(),
                decreases ns - k,
            {
                let ghost pre = store@;
                let ghost pre_records = store.records@;
                proof {
                    assert(old(store)@[k as int] == record_view(old(store).records@[k as int]));
                    assert(store@[k as int] == record_view(store.records@[k as int]));
                }
                let mut taken: Option<crate::input_buffer::InputBuffer<A>> = None;
                core::mem::swap(&mut store.records[k].input_buffer, &mut taken);
                match taken {
                    Some(mut b) => {
                        b.apply_tick_delta(delta);
                        store.records[k].input_buffer = Some(b);
                    },
                    None => {},
                }
                proof {
                    assert(store@[k as int] == record_view(store.records@[k as int]));
                    assert(store@[k as int].1 == spec_shift_opt(
                        old(store)@[k as int].1,
                        delta as int,
                    ));
                    assert forall|j: int| k < j < ns implies #[trigger] store@[j] == old(
                        store,
                    )@[j] by {
                        assert(store.records@[j] == pre_records[j]);
                        assert(store@[j] == record_view(store.records@[j]));
                        assert(pre[j] == record_view(pre_records[j]));
                    }
                    assert forall|j: int| 0 <= j < k implies (#[trigger] store@[j]).0 == old(
                        store,
                    )@[j].0 && store@[j].1 == spec_shift_opt(old(store)@[j].1, delta as int) by {
                        assert(store.records@[j] == pre_records[j]);
                        assert(store@[j] == record_view(store.records@[j]));
                        assert(pre[j] == record_view(pre_records[j]));
                    }
                }
                k += 1;
            }
            message_buffer.apply_tick_delta(delta);
        },
    }
}

} // verus!

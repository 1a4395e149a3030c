//! Inbound reconciliation: applying a received input message's per-entity
//! runs into the corresponding local predicted entities' buffers, creating
//! storage on first contact.

use vstd::prelude::*;

use crate::Tick;
use crate::action::ActionState;
use crate::entity_map::{spec_lookup_by_remote, EntityMap};
use crate::input_buffer::{spec_update, BufView, InputBuffer, DEFAULT_HORIZON};
use crate::codec::msg_entries_view;
use crate::message::{InputMessage, InputTarget};

verus! {

/// Record of a replication-confirmed entity: its local identifier and the
/// local identifier of its predicted counterpart, if one was spawned.
#[derive(Clone, Copy, Debug, PartialEq, Eq)]
pub struct ConfirmedRecord {
    pub entity: u64,
    pub predicted: Option<u64>,
}

/// The confirmed record for local entity `entity`, searching in order.
pub open spec fn spec_confirmed_lookup(
    records: Seq<ConfirmedRecord>,
    entity: u64,
) -> Option<ConfirmedRecord>
    decreases records.len(),
{
    if records.len() == 0 {
        None
    } else if records[0].entity == entity {
        Some(records[0])
    } else {
        spec_confirmed_lookup(records.drop_first(), entity)
    }
}

/// Table of replication-confirmed entities, each with its predicted
/// counterpart where one exists.
#[derive(Debug)]
pub struct ConfirmedTable {
    pub records: Vec<ConfirmedRecord>,
}

impl ConfirmedTable {
    /// An empty table.
    pub fn new() -> (r: Self)
        ensures
            r.records@.len() == 0,
    {
        ConfirmedTable { records: Vec::new() }
    }

    /// Records a confirmed entity and its predicted counterpart, if any.
    pub fn insert(&mut self, entity: u64, predicted: Option<u64>)
        ensures
            final(self).records@ == old(self).records@.push(
                ConfirmedRecord { entity, predicted },
            ),
    {
        self.records.push(ConfirmedRecord { entity, predicted });
    }

    /// The confirmed record for local entity `entity`, if the table knows
    /// one.
    #[verifier::loop_isolation(false)]
    pub fn lookup(&self, entity: u64) -> (r: Option<ConfirmedRecord>)
        ensures
            r == spec_confirmed_lookup(self.records@, entity),
    {
        let n = self.records.len();
        proof {
            assert(self.records@.skip(0) =~= self.records@);
        }
        let mut i: usize = 0;
        while i < n
            invariant
                i <= n,
                spec_confirmed_lookup(self.records@, entity)
                    == spec_confirmed_lookup(self.records@.skip(i as int), entity),
            decreases n - i,
        {
            proof {
                assert(self.records@.skip(i as int)[0] == self.records@[i as int]);
                assert(self.records@.skip(i as int).drop_first() =~= self.records@.skip(i + 1));
            }
            let rec = self.records[i];
            if rec.entity == entity {
                return Some(rec);
            }
            i += 1;
        }
        proof {
            assert(self.records@.skip(n as int) =~= Seq::<ConfirmedRecord>::empty());
        }
        None
    }
}

/// Storage attached to one predicted entity: its input history, absent
/// until the first message for it arrives.
#[derive(Debug)]
pub struct PredictedRecord<A> {
    pub entity: u64,
    pub input_buffer: Option<InputBuffer<A>>,
}

/// The model of one predicted record: the entity and its buffer's model.
pub open spec fn record_view<A>(r: PredictedRecord<A>) -> (u64, Option<BufView<A>>) {
    (
        r.entity,
        match r.input_buffer {
            Some(b) => Some(b@),
            None => None,
        },
    )
}

/// The buffers of all predicted entities the reconciler can write to.
#[derive(Debug)]
pub struct PredictedStore<A> {
    pub records: Vec<PredictedRecord<A>>,
}

impl<A> View for PredictedStore<A> {
    type V = Seq<(u64, Option<BufView<A>>)>;

    open spec fn view(&self) -> Seq<(u64, Option<BufView<A>>)> {
        self.records@.map_values(|r: PredictedRecord<A>| record_view(r))
    }
}

/// The buffer model a run is merged into: the existing history, or a fresh
/// empty buffer with the default horizon on first contact.
pub open spec fn stored_or_fresh<A>(b: Option<BufView<A>>) -> BufView<A> {
    match b {
        Some(m) => m,
        None => BufView::empty(DEFAULT_HORIZON as int),
    }
}

/// The store after merging one run into the record of predicted entity
/// `e` (the first record with that identifier): its buffer — created empty
/// on first contact — takes the run; every other record is untouched. A
/// store without such a record is unchanged.
pub open spec fn spec_apply_run<A>(
    sv: Seq<(u64, Option<BufView<A>>)>,
    e: u64,
    end: int,
    states: Seq<ActionState<A>>,
) -> Seq<(u64, Option<BufView<A>>)>
    decreases sv.len(),
{
    if sv.len() == 0 {
        sv
    } else if sv[0].0 == e {
        seq![(e, Some(spec_update(stored_or_fresh(sv[0].1), end, states)))] + sv.drop_first()
    } else {
        seq![sv[0]] + spec_apply_run(sv.drop_first(), e, end, states)
    }
}

/// The local entity a received entry addresses: an `Entity` target carries
/// the sender's identifier and is translated through the identity map; a
/// `PrePredictedEntity` target is already locally meaningful.
pub open spec fn spec_entry_local(target: InputTarget, pairs: Seq<(u64, u64)>) -> Option<u64> {
    match target {
        InputTarget::Entity(remote) => spec_lookup_by_remote(pairs, remote),
        InputTarget::PrePredictedEntity(local) => Some(local),
    }
}

/// The store and error count after applying a received message's entries in
/// order. An entry whose target resolves to no local entity, or to an
/// entity the confirmed table does not know, is dropped and counted as an
/// error; siblings are still processed. A confirmed entity without a
/// predicted counterpart, or a predicted counterpart the store has no
/// record of, is skipped silently.
pub open spec fn spec_apply_message<A>(
    sv: Seq<(u64, Option<BufView<A>>)>,
    entries: Seq<(InputTarget, Seq<ActionState<A>>)>,
    end: int,
    pairs: Seq<(u64, u64)>,
    confirmed: Seq<ConfirmedRecord>,
) -> (Seq<(u64, Option<BufView<A>>)>, int)
    decreases entries.len(),
{
    if entries.len() == 0 {
        (sv, 0)
    } else {
        let target = entries[0].0;
        let states = entries[0].1;
        let step: (Seq<(u64, Option<BufView<A>>)>, int) = match spec_entry_local(target, pairs) {
            None => (sv, 1),
            Some(local) => match spec_confirmed_lookup(confirmed, local) {
                None => (sv, 1),
                Some(rec) => match rec.predicted {
                    None => (sv, 0),
                    Some(p) => (spec_apply_run(sv, p, end, states), 0),
                },
            },
        };
        let rest = spec_apply_message(step.0, entries.drop_first(), end, pairs, confirmed);
        (rest.0, step.1 + rest.1)
    }
}

impl<A> PredictedStore<A> {
    pub open spec fn wf(self) -> bool {
        forall|i: int|
            0 <= i < self.records@.len() ==> match (#[trigger] self.records@[i]).input_buffer {
                Some(b) => b.wf(),
                None => true,
            }
    }

    /// An empty store.
    pub fn new() -> (r: Self)
        ensures
            r@.len() == 0,
            r.wf(),
    {
        let r = PredictedStore { records: Vec::new() };
        proof {
            assert(r@ =~= Seq::<(u64, Option<BufView<A>>)>::empty());
        }
        r
    }

    /// Declares a predicted entity the reconciler may write to; its buffer
    /// is created on first contact.
    pub fn register(&mut self, entity: u64)
        requires
            old(self).wf(),
        ensures
            final(self)@ == old(self)@.push((entity, None::<BufView<A>>)),
            final(self).wf(),
    {
        self.records.push(PredictedRecord { entity, input_buffer: None });
        proof {
            assert(self@ =~= old(self)@.push((entity, None::<BufView<A>>)));
        }
    }
}

impl<A: Copy> PredictedStore<A> {
    /// Merges one received run into the buffer of predicted entity `e`,
    /// creating the buffer on first contact. Does nothing when the store
    /// has no record of `e`.
    #[verifier::loop_isolation(false)]
    pub fn apply_run(&mut self, e: u64, end_tick: Tick, states: &Vec<ActionState<A>>)
        requires
            old(self).wf(),
            end_tick - states@.len() + 1 >= i64::MIN,
        ensures
            final(self)@ == spec_apply_run(old(self)@, e, end_tick as int, states@),
            final(self).wf(),
    {
        let ghost sv0 = self@;
        let n = self.records.len();
        proof {
            assert(self@.skip(0) =~= self@);
            assert(sv0.take(0) =~= Seq::<(u64, Option<BufView<A>>)>::empty());
        }
        let mut i: usize = 0;
        while i < n
            invariant
                i <= n,
                self.records@.len() == n,
                self.wf(),
                self@ == sv0,
                forall|k: int| 0 <= k < n ==> self.records@[k] == old(self).records@[k],
                spec_apply_run(sv0, e, end_tick as int, states@) == sv0.take(i as int)
                    + spec_apply_run(sv0.skip(i as int), e, end_tick as int, states@),
            decreases n - i,
        {
            proof {
                assert(sv0.skip(i as int)[0] == sv0[i as int]);
                assert(sv0.skip(i as int).drop_first() =~= sv0.skip(i + 1));
            }
            if self.records[i].entity == e {
                let mut taken: Option<InputBuffer<A>> = None;
                core::mem::swap(&mut self.records[i].input_buffer, &mut taken);
                let mut buf = match taken {
                    Some(b) => b,
                    None => InputBuffer::new(DEFAULT_HORIZON),
                };
                buf.update_from_message(end_tick, states);
                self.records[i].input_buffer = Some(buf);
                proof {
                    assert(self@ =~= sv0.update(
                        i as int,
                        (e, Some(spec_update(stored_or_fresh(sv0[i as int].1), end_tick as int,
                        states@))),
                    ));
                    assert(sv0.take(i as int) + (seq![
                        (e, Some(spec_update(stored_or_fresh(sv0[i as int].1), end_tick as int,
                        states@))),
                    ] + sv0.skip(i + 1)) =~= self@);
                }
                return ;
            }
            proof {
                assert(sv0.take(i as int) + (seq![sv0[i as int]] + spec_apply_run(
                    sv0.skip(i + 1),
                    e,
                    end_tick as int,
                    states@,
                )) =~= sv0.take(i + 1) + spec_apply_run(
                    sv0.skip(i + 1),
                    e,
                    end_tick as int,
                    states@,
                ));
            }
            i += 1;
        }
        proof {
            assert(sv0.skip(n as int) =~= Seq::<(u64, Option<BufView<A>>)>::empty());
            assert(sv0.take(n as int) =~= sv0);
        }
    }
}

/// Applies a received message: each entry's target is resolved to a local
/// entity, the entity's confirmed record is located, and the run is merged
/// into its predicted counterpart's buffer (created on first contact).
/// Entries that resolve to no known entity are dropped and counted;
/// processing of sibling entries continues, and nothing here is fatal.
#[verifier::loop_isolation(false)]
pub fn apply_input_message<A: Copy>(
    message: &InputMessage<A>,
    map: &EntityMap,
    confirmed: &ConfirmedTable,
    store: &mut PredictedStore<A>,
) -> (errors: usize)
    requires
        old(store).wf(),
        forall|k: int|
            0 <= k < message.inputs@.len()
                ==> message.end_tick - (#[trigger] message.inputs@[k]).states@.len() + 1
                    >= i64::MIN,
    ensures
        final(store).wf(),
        (final(store)@, errors as int) == spec_apply_message(
            old(store)@,
            msg_entries_view(message.inputs@),
            message.end_tick as int,
            map.pairs@,
            confirmed.records@,
        ),
{
    let ghost entries = msg_entries_view(message.inputs@);
    let ghost end: int = message.end_tick as int;
    let n = message.inputs.len();
    proof {
        assert(entries.skip(0) =~= entries);
    }
    let mut errors: usize = 0;
    let mut i: usize = 0;
    while i < n
        invariant
            i <= n,
            errors <= i,
            store.wf(),
            spec_apply_message(old(store)@, entries, end, map.pairs@, confirmed.records@)
                == (
                spec_apply_message(store@, entries.skip(i as int), end, map.pairs@,
                confirmed.records@).0,
                errors + spec_apply_message(store@, entries.skip(i as int), end, map.pairs@,
                confirmed.records@).1,
            ),
        decreases n - i,
    {
        proof {
            assert(entries.skip(i as int)[0] == entries[i as int]);
            assert(entries.skip(i as int).drop_first() =~= entries.skip(i + 1));
        }
        let entry = &message.inputs[i];
        let local = match entry.target {
            InputTarget::Entity(remote) => map.get_local(remote),
            InputTarget::PrePredictedEntity(l) => Some(l),
        };
        match local {
            None => {
                // unrecognized remote identifier: drop the entry, keep going
                errors = errors + 1;
            },
            Some(l) => match confirmed.lookup(l) {
                None => {
                    // no confirmed record for the addressed entity
                    errors = errors + 1;
                },
                Some(rec) => match rec.predicted {
                    None => {
                        // nothing predicts this entity locally: nothing to feed
                    },
                    Some(p) => {
                        store.apply_run(p, message.end_tick, &entry.states);
                    },
                },
            },
        }
        i += 1;
    }
    proof {
        assert(entries.skip(n as int) =~= Seq::<(InputTarget, Seq<ActionState<A>>)>::empty());
    }
    errors
}

} // verus!

//! Outbound message assembly: once per frame, read a redundant window from
//! each controlled entity's buffer, resolve how the remote end addresses
//! the entity, and queue one message batching all entities.

use vstd::prelude::*;

use crate::Tick;
use crate::action::ActionState;
use crate::entity_map::{spec_lookup_by_local, EntityMap};
use crate::input_buffer::{BufView, InputBuffer};
use crate::message::{spec_run, InputMessage, InputTarget, MessageBuffer, PerTargetData};

verus! {

/// Marker data for a local prediction of a replicated entity;
/// `confirmed_entity` is the local identifier of its replication-confirmed
/// counterpart, when known.
#[derive(Clone, Copy, Debug, PartialEq, Eq)]
pub struct Predicted {
    pub confirmed_entity: Option<u64>,
}

/// One locally controlled entity as message assembly sees it: its local
/// identifier, its input history, whether it is a local prediction
/// (`predicted`), and whether it was spawned locally ahead of server
/// confirmation (`pre_predicted`).
#[derive(Debug)]
pub struct ControlledEntity<A> {
    pub entity: u64,
    pub input_buffer: InputBuffer<A>,
    pub predicted: Option<Predicted>,
    pub pre_predicted: bool,
}

impl<A> ControlledEntity<A> {
    pub open spec fn wf(self) -> bool {
        self.input_buffer.wf()
    }
}

/// How the remote end addresses a controlled entity, or `None` when the
/// entity cannot be addressed yet (it is then silently left out of the
/// message; this is an expected transient state, not an error):
/// - a pre-predicted entity waits for its confirmation before it is sent at
///   all, and is then addressed by its local identifier, which the remote
///   end resolves from handshake state;
/// - any other entity is addressed by the remote identifier of its
///   confirmed counterpart (itself if confirmed, else the confirmed origin
///   recorded by its `Predicted` marker), when the identity map knows one.
pub open spec fn spec_resolve_target(
    entity: u64,
    predicted: Option<Predicted>,
    pre_predicted: bool,
    pairs: Seq<(u64, u64)>,
) -> Option<InputTarget> {
    if pre_predicted {
        if predicted is Some {
            Some(InputTarget::PrePredictedEntity(entity))
        } else {
            None
        }
    } else {
        let confirmed = match predicted {
            Some(p) => p.confirmed_entity,
            None => Some(entity),
        };
        match confirmed {
            Some(c) => match spec_lookup_by_local(pairs, c) {
                Some(remote) => Some(InputTarget::Entity(remote)),
                None => None,
            },
            None => None,
        }
    }
}

/// Resolves how the remote end addresses `entity`.
pub fn resolve_target(
    entity: u64,
    predicted: Option<Predicted>,
    pre_predicted: bool,
    map: &EntityMap,
) -> (r: Option<InputTarget>)
    ensures
        r == spec_resolve_target(entity, predicted, pre_predicted, map.pairs@),
{
    if pre_predicted {
        if predicted.is_some() {
            Some(InputTarget::PrePredictedEntity(entity))
        } else {
            None
        }
    } else {
        let confirmed = match predicted {
            Some(p) => p.confirmed_entity,
            None => Some(entity),
        };
        match confirmed {
            Some(c) => match map.get_remote(c) {
                Some(remote) => Some(InputTarget::Entity(remote)),
                None => None,
            },
            None => None,
        }
    }
}

/// The `(target, run)` pairs of an outbound message's entries.
pub open spec fn msg_entries_view<A>(
    inputs: Seq<PerTargetData<A>>,
) -> Seq<(InputTarget, Seq<ActionState<A>>)> {
    inputs.map_values(|pd: PerTargetData<A>| (pd.target, pd.states@))
}

/// The entries of the message assembled for the window of `n` ticks ending
/// at `end`: one entry per controlled entity that resolves to a target, in
/// order, carrying the run pulled from that entity's buffer. An entity that
/// resolves to no target is silently left out.
pub open spec fn spec_entries<A>(
    ents: Seq<ControlledEntity<A>>,
    pairs: Seq<(u64, u64)>,
    end: int,
    n: nat,
) -> Seq<(InputTarget, Seq<ActionState<A>>)>
    decreases ents.len(),
{
    if ents.len() == 0 {
        Seq::empty()
    } else {
        let rest = spec_entries(ents.drop_first(), pairs, end, n);
        match spec_resolve_target(ents[0].entity, ents[0].predicted, ents[0].pre_predicted,
            pairs) {
            Some(target) => seq![(target, spec_run(ents[0].input_buffer@, end, n))] + rest,
            None => rest,
        }
    }
}

/// Assembles and queues this frame's outbound message: a run of `num_tick`
/// snapshots ending at `current_tick + input_delay_ticks` for every
/// controlled entity that resolves to a target. A message is queued even
/// with zero entries — "no inputs" is itself information to the receiver.
/// While a rollback re-simulation pass is running nothing is assembled, so
/// no duplicate window is ever queued for ticks already sent.
#[verifier::loop_isolation(false)]
pub fn prepare_input_message<A: Copy>(
    entities: &Vec<ControlledEntity<A>>,
    map: &EntityMap,
    current_tick: Tick,
    input_delay_ticks: u16,
    num_tick: u16,
    in_rollback: bool,
    message_buffer: &mut MessageBuffer<A>,
)
    requires
        forall|i: int| 0 <= i < entities@.len() ==> (#[trigger] entities@[i]).wf(),
        1 <= num_tick,
        current_tick + input_delay_ticks <= i64::MAX,
        i64::MIN <= current_tick + input_delay_ticks - num_tick + 1,
    ensures
        in_rollback ==> final(message_buffer).messages@ == old(message_buffer).messages@,
        !in_rollback ==> final(message_buffer).messages@.len()
            == old(message_buffer).messages@.len() + 1
            && (forall|i: int|
            0 <= i < old(message_buffer).messages@.len()
                ==> final(message_buffer).messages@[i] == old(message_buffer).messages@[i])
            && final(message_buffer).messages@.last().end_tick
                == current_tick + input_delay_ticks
            && msg_entries_view(final(message_buffer).messages@.last().inputs@)
                == spec_entries(
                entities@,
                map.pairs@,
                current_tick + input_delay_ticks,
                num_tick as nat,
            ),
{
    if in_rollback {
        return ;
    }
    let tick: i64 = current_tick + input_delay_ticks as i64;
    let ghost end: int = tick as int;
    let ghost n_states: nat = num_tick as nat;
    let mut message = InputMessage::<A>::new(tick);
    let num = entities.len();
    proof {
        assert(entities@.skip(0) =~= entities@);
        assert(msg_entries_view(message.inputs@) =~= Seq::<
            (InputTarget, Seq<ActionState<A>>),
        >::empty());
    }
    let mut i: usize = 0;
    while i < num
        invariant
            i <= num,
            message.end_tick == tick,
            msg_entries_view(message.inputs@) + spec_entries(
                entities@.skip(i as int),
                map.pairs@,
                end,
                n_states,
            ) == spec_entries(entities@, map.pairs@, end, n_states),
        decreases num - i,
    {
        let ghost entries_before = msg_entries_view(message.inputs@);
        proof {
            assert(entities@.skip(i as int)[0] == entities@[i as int]);
            assert(entities@.skip(i as int).drop_first() =~= entities@.skip(i + 1));
        }
        let e = &entities[i];
        match resolve_target(e.entity, e.predicted, e.pre_predicted, map) {
            Some(target) => {
                message.add_inputs(num_tick, target, &e.input_buffer);
                proof {
                    assert(msg_entries_view(message.inputs@) =~= entries_before.push(
                        (target, spec_run(entities@[i as int].input_buffer@, end, n_states)),
                    ));
                    assert(entries_before.push(
                        (target, spec_run(entities@[i as int].input_buffer@, end, n_states)),
                    ) + spec_entries(entities@.skip(i + 1), map.pairs@, end, n_states)
                        =~= entries_before + spec_entries(
                        entities@.skip(i as int),
                        map.pairs@,
                        end,
                        n_states,
                    ));
                }
            },
            None => {},
        }
        i += 1;
    }
    proof {
        assert(entities@.skip(num as int) =~= Seq::<ControlledEntity<A>>::empty());
        assert(msg_entries_view(message.inputs@) + Seq::<
            (InputTarget, Seq<ActionState<A>>),
        >::empty() =~= msg_entries_view(message.inputs@));
    }
    message_buffer.push(message);
}

/// Gating of pre-predicted entities: one whose confirmation signal has not
/// flipped yet resolves to no target at all, and once it flips the entity
/// resolves to its pre-predicted address.
pub proof fn lemma_pre_predicted_gating(
    entity: u64,
    predicted: Option<Predicted>,
    pre_predicted: bool,
    pairs: Seq<(u64, u64)>,
)
    ensures
        pre_predicted && predicted is None ==> spec_resolve_target(
            entity,
            predicted,
            pre_predicted,
            pairs,
        ) is None,
        pre_predicted && predicted is Some ==> spec_resolve_target(
            entity,
            predicted,
            pre_predicted,
            pairs,
        ) == Some(InputTarget::PrePredictedEntity(entity)),
{
}

/// While entity `id` is pre-predicted and unconfirmed, no entry of any
/// assembled message addresses it: its inputs stay out of outbound traffic
/// until the confirmation signal flips.
pub proof fn lemma_pre_predicted_absent<A>(
    ents: Seq<ControlledEntity<A>>,
    pairs: Seq<(u64, u64)>,
    end: int,
    n: nat,
    id: u64,
)
    requires
        forall|i: int|
            0 <= i < ents.len() && (#[trigger] ents[i]).entity == id
                ==> ents[i].pre_predicted && ents[i].predicted is None,
    ensures
        forall|k: int|
            0 <= k < spec_entries(ents, pairs, end, n).len()
                ==> (#[trigger] spec_entries(ents, pairs, end, n)[k]).0
                    != InputTarget::PrePredictedEntity(id),
    decreases ents.len(),
{
    if ents.len() > 0 {
        let rest_ents = ents.drop_first();
        assert forall|i: int|
            0 <= i < rest_ents.len() && (#[trigger] rest_ents[i]).entity == id implies
            rest_ents[i].pre_predicted && rest_ents[i].predicted is None by {
            assert(rest_ents[i] == ents[i + 1]);
        }
        lemma_pre_predicted_absent(rest_ents, pairs, end, n, id);
        let rest = spec_entries(rest_ents, pairs, end, n);
        let whole = spec_entries(ents, pairs, end, n);
        match spec_resolve_target(ents[0].entity, ents[0].predicted, ents[0].pre_predicted,
            pairs) {
            Some(target) => {
                assert(target != InputTarget::PrePredictedEntity(id));
                assert forall|k: int|
                    0 <= k < whole.len() implies (#[trigger] whole[k]).0
                    != InputTarget::PrePredictedEntity(id) by {
                    if k > 0 {
                        assert(whole[k] == rest[k - 1]);
                    }
                }
            },
            None => {},
        }
    }
}

/// Once a pre-predicted entity's confirmation signal has flipped, every
/// assembly cycle includes its run, addressed by its pre-predicted local
/// identifier.
pub proof fn lemma_pre_predicted_present<A>(
    ents: Seq<ControlledEntity<A>>,
    pairs: Seq<(u64, u64)>,
    end: int,
    n: nat,
    i: int,
)
    requires
        0 <= i < ents.len(),
        ents[i].pre_predicted,
        ents[i].predicted is Some,
    ensures
        exists|k: int|
            0 <= k < spec_entries(ents, pairs, end, n).len()
                && #[trigger] spec_entries(ents, pairs, end, n)[k] == (
            InputTarget::PrePredictedEntity(ents[i].entity),
            spec_run(ents[i].input_buffer@, end, n),
            ),
    decreases ents.len(),
{
    let whole = spec_entries(ents, pairs, end, n);
    let rest = spec_entries(ents.drop_first(), pairs, end, n);
    let head = spec_resolve_target(ents[0].entity, ents[0].predicted, ents[0].pre_predicted,
        pairs);
    if i == 0 {
        assert(whole[0] == (
            InputTarget::PrePredictedEntity(ents[0].entity),
            spec_run(ents[0].input_buffer@, end, n),
        ));
    } else {
        assert(ents.drop_first()[i - 1] == ents[i]);
        lemma_pre_predicted_present(ents.drop_first(), pairs, end, n, i - 1);
        let k0 = choose|k: int|
            0 <= k < rest.len() && #[trigger] rest[k] == (
                InputTarget::PrePredictedEntity(ents[i].entity),
                spec_run(ents[i].input_buffer@, end, n),
            );
        match head {
            Some(target) => {
                assert(whole[k0 + 1] == rest[k0]);
            },
            None => {
                assert(whole[k0] == rest[k0]);
            },
        }
    }
}

} // verus!

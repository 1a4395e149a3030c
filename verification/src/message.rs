//! Outbound input messages: addressing targets, redundant runs of
//! snapshots, and the per-frame queue of assembled-but-unsent messages.

use vstd::prelude::*;

use crate::Tick;
use crate::action::ActionState;
use crate::input_buffer::{spec_read, BufView, InputBuffer};

verus! {

/// How the remote end should address the entity an input run is for.
#[derive(Clone, Copy, Debug, PartialEq, Eq, Structural)]
pub enum InputTarget {
    /// An entity the remote end already knows through replication; carries
    /// the remote identifier.
    Entity(u64),
    /// A locally spawned entity whose counterpart the remote end resolves
    /// from prior handshake state; carries the local identifier.
    PrePredictedEntity(u64),
}

/// The snapshot a message carries for tick `t` of a run read from buffer
/// model `m`: the buffered snapshot where the window reaches `t`
/// (fill-forward included), the "no input" snapshot where the history has
/// expired or never started.
pub open spec fn run_state<A>(m: BufView<A>, t: int) -> ActionState<A> {
    match spec_read(m, t) {
        Some(s) => s,
        None => ActionState { value: None },
    }
}

/// The redundant run of `n` snapshots ending at tick `end`, oldest first.
pub open spec fn spec_run<A>(m: BufView<A>, end: int, n: nat) -> Seq<ActionState<A>> {
    Seq::new(n, |i: int| run_state(m, end - n + 1 + i))
}

/// One entity's entry in an outbound message: the addressing target and a
/// redundant run of snapshots, oldest first.
#[derive(Debug)]
pub struct PerTargetData<A> {
    pub target: InputTarget,
    pub states: Vec<ActionState<A>>,
}

/// One outbound unit: the newest tick covered, and one redundant run per
/// addressed entity, each covering the window that ends at `end_tick`.
#[derive(Debug)]
pub struct InputMessage<A> {
    pub end_tick: Tick,
    pub inputs: Vec<PerTargetData<A>>,
}

impl<A> InputMessage<A> {
    /// An outbound message for the window ending at `tick`, with no entity
    /// entries yet. A message with zero entries is still meaningful to the
    /// receiver: it says "no inputs", as opposed to "packet lost".
    pub fn new(tick: Tick) -> (r: Self)
        ensures
            r.end_tick == tick,
            r.inputs@.len() == 0,
    {
        InputMessage { end_tick: tick, inputs: Vec::new() }
    }
}

impl<A: Copy> InputMessage<A> {
    /// Appends one entity's entry: a run of `num_tick` snapshots pulled
    /// from its buffer, ending at this message's `end_tick`, oldest first.
    /// Ticks ahead of the buffer repeat its newest snapshot (fill-forward);
    /// ticks whose history has expired, or an empty buffer, yield the
    /// "no input" snapshot.
    #[verifier::loop_isolation(false)]
    pub fn add_inputs(&mut self, num_tick: u16, target: InputTarget, buffer: &InputBuffer<A>)
        requires
            buffer.wf(),
            1 <= num_tick,
            i64::MIN <= old(self).end_tick - num_tick + 1,
        ensures
            final(self).end_tick == old(self).end_tick,
            final(self).inputs@.len() == old(self).inputs@.len() + 1,
            forall|i: int|
                0 <= i < old(self).inputs@.len()
                    ==> final(self).inputs@[i] == old(self).inputs@[i],
            final(self).inputs@.last().target == target,
            final(self).inputs@.last().states@
                == spec_run(buffer@, old(self).end_tick as int, num_tick as nat),
    {
        let ghost run = spec_run(buffer@, self.end_tick as int, num_tick as nat);
        let n: usize = num_tick as usize;
        let mut states: Vec<ActionState<A>> = Vec::new();
        let mut i: usize = 0;
        while i < n
            invariant
                i <= n,
                states@.len() == i,
                forall|j: int| 0 <= j < i ==> states@[j] == run[j],
            decreases n - i,
        {
            let t: i64 = (self.end_tick as i128 - n as i128 + 1 + i as i128) as i64;
            let s = match buffer.read(t) {
                Ok(s) => s,
                Err(_) => ActionState::none(),
            };
            states.push(s);
            i += 1;
        }
        proof {
            assert(states@ =~= run);
        }
        self.inputs.push(PerTargetData { target, states });
    }
}

/// Queue of assembled-but-unsent outbound messages. It is filled once per
/// frame by message assembly and drained once per frame by transmission;
/// tick-snap events re-label the end ticks of whatever still sits in it.
#[derive(Debug)]
pub struct MessageBuffer<A> {
    pub messages: Vec<InputMessage<A>>,
}

impl<A> MessageBuffer<A> {
    /// Queues one assembled message.
    pub fn push(&mut self, message: InputMessage<A>)
        ensures
            final(self).messages@ == old(self).messages@.push(message),
    {
        self.messages.push(message);
    }

    /// Hands out every queued message, in assembly order, leaving the
    /// queue empty for the next frame.
    pub fn drain(&mut self) -> (r: Vec<InputMessage<A>>)
        ensures
            r@ == old(self).messages@,
            final(self).messages@.len() == 0,
    {
        let mut out: Vec<InputMessage<A>> = Vec::new();
        core::mem::swap(&mut self.messages, &mut out);
        out
    }

    /// Number of queued messages.
    pub fn len(&self) -> (r: usize)
        ensures
            r as int == self.messages@.len(),
    {
        self.messages.len()
    }

    /// Re-labels the end tick of every still-queued message by `delta`
    /// after the shared clock snapped; the runs themselves are unchanged.
    /// Messages already handed to the transport are not here any more and
    /// keep the labels that were correct when they were sent.
    #[verifier::loop_isolation(false)]
    pub fn apply_tick_delta(&mut self, delta: i64)
        requires
            forall|i: int|
                0 <= i < old(self).messages@.len()
                    ==> i64::MIN <= (#[trigger] old(self).messages@[i]).end_tick + delta
                        <= i64::MAX,
        ensures
            final(self).messages@.len() == old(self).messages@.len(),
            forall|i: int|
                0 <= i < old(self).messages@.len()
                    ==> (#[trigger] final(self).messages@[i]).end_tick
                        == old(self).messages@[i].end_tick + delta
                        && final(self).messages@[i].inputs == old(self).messages@[i].inputs,
    {
        let n = self.messages.len();
        let mut i: usize = 0;
        while i < n
            invariant
                i <= n,
                self.messages@.len() == n,
                forall|j: int|
                    i <= j < n ==> #[trigger] self.messages@[j] == old(self).messages@[j],
                forall|j: int|
                    0 <= j < i
                        ==> (#[trigger] self.messages@[j]).end_tick
                            == old(self).messages@[j].end_tick + delta
                            && self.messages@[j].inputs == old(self).messages@[j].inputs,
            decreases n - i,
        {
            let e: i64 = self.messages[i].end_tick;
            let shifted: i64 = ((e as i128) + (delta as i128)) as i64;
            self.messages[i].end_tick = shifted;
            i += 1;
        }
    }
}

impl<A> Default for MessageBuffer<A> {
    /// Defaults to an empty queue.
    fn default() -> (r: Self)
        ensures
            r.messages@.len() == 0,
    {
        MessageBuffer { messages: Vec::new() }
    }
}

/// Number of trailing ticks of input each outbound message resends: enough
/// ticks to span one send interval, plus one, times the redundancy factor —
/// so the loss of `redundancy_factor - 1` consecutive messages leaves no
/// tick uncovered at the receiver.
pub fn redundancy_window(
    send_interval_ns: u64,
    tick_duration_ns: u64,
    redundancy_factor: u16,
) -> (n: u16)
    requires
        0 < tick_duration_ns,
        1 <= redundancy_factor,
        (send_interval_ns / tick_duration_ns + 1) * redundancy_factor <= u16::MAX,
    ensures
        n as int == (send_interval_ns as int / tick_duration_ns as int + 1)
            * redundancy_factor as int,
        1 <= n,
{
    proof {
        let q = send_interval_ns as int / tick_duration_ns as int;
        assert(q + 1 <= (q + 1) * redundancy_factor as int) by (nonlinear_arith)
            requires
                1 <= redundancy_factor as int,
                0 <= q,
        ;
    }
    let per_interval: u64 = send_interval_ns / tick_duration_ns + 1;
    let base: u16 = per_interval as u16;
    base * redundancy_factor
}

} // verus!

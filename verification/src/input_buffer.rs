//! Tick-indexed history of input snapshots for one controlled entity.
//!
//! The buffer is an ordered window of snapshots with an explicit
//! `start_tick` (tick of element 0). Ticks are contiguous: a tick that was
//! never written explicitly holds a copy of the nearest earlier snapshot
//! (fill-forward), so a query inside the window never finds a hole. The
//! window is capped at `horizon` entries; writing past the cap evicts the
//! oldest entries and advances `start_tick`.

use vstd::prelude::*;

use crate::Tick;
use crate::action::ActionState;

verus! {

/// Default bound on how many ticks of history a buffer retains.
pub const DEFAULT_HORIZON: usize = 64;

/// Failure of a history query: the requested tick is older than the
/// buffer's retained window (or the buffer holds no history at all).
#[derive(Clone, Copy, Debug, PartialEq, Eq, Structural)]
pub enum BufferError {
    HistoryExpired,
}

/// Mathematical model of an input buffer: the tick of the oldest retained
/// entry (if any), the retained snapshots in tick order, and the retention
/// bound.
#[verifier::ext_equal]
pub ghost struct BufView<A> {
    pub start: Option<int>,
    pub entries: Seq<ActionState<A>>,
    pub horizon: int,
}

impl<A> BufView<A> {
    pub open spec fn wf(self) -> bool {
        &&& 1 <= self.horizon
        &&& self.entries.len() <= self.horizon
        &&& (self.start is Some <==> self.entries.len() > 0)
        &&& (self.start is Some ==> i64::MIN <= self.start->0
            && self.start->0 + self.entries.len() - 1 <= i64::MAX)
    }

    /// Tick of the newest retained entry; meaningful only when non-empty.
    pub open spec fn end(self) -> int {
        self.start->0 + self.entries.len() - 1
    }

    /// Whether tick `t` lies inside the retained window.
    pub open spec fn contains(self, t: int) -> bool {
        self.start is Some && self.start->0 <= t <= self.end()
    }

    /// Retained snapshot at tick `t`; meaningful only when `contains(t)`.
    pub open spec fn entry(self, t: int) -> ActionState<A> {
        self.entries[t - self.start->0]
    }

    pub open spec fn empty(horizon: int) -> BufView<A> {
        BufView { start: None, entries: Seq::empty(), horizon }
    }
}

/// What a read of tick `t` yields: `None` when the history has expired (or
/// was never started), otherwise the retained snapshot at `t`, repeating
/// the newest entry for ticks beyond it (fill-forward).
pub open spec fn spec_read<A>(m: BufView<A>, t: int) -> Option<ActionState<A>> {
    if m.start is None {
        None
    } else if t < m.start->0 {
        None
    } else if t >= m.end() {
        Some(m.entries.last())
    } else {
        Some(m.entries[t - m.start->0])
    }
}

/// The buffer after `write(t, s)`:
/// - an empty buffer starts its window at `t`;
/// - a tick before the window is ignored (history is never rewritten);
/// - a tick inside the window overwrites that slot;
/// - a tick past the window extends it, repeating the previous newest entry
///   across the gap, then drops the oldest entries so that at most
///   `horizon` remain.
pub open spec fn spec_write<A>(m: BufView<A>, t: int, s: ActionState<A>) -> BufView<A> {
    if m.start is None {
        BufView { start: Some(t), entries: seq![s], horizon: m.horizon }
    } else if t < m.start->0 {
        m
    } else if t <= m.end() {
        BufView {
            start: m.start,
            entries: m.entries.update(t - m.start->0, s),
            horizon: m.horizon,
        }
    } else {
        let extended = m.entries + Seq::new((t - m.end() - 1) as nat, |i: int| m.entries.last())
            + seq![s];
        let dropped: int = if extended.len() > m.horizon {
            extended.len() - m.horizon
        } else {
            0
        };
        BufView {
            start: Some(m.start->0 + dropped),
            entries: extended.skip(dropped),
            horizon: m.horizon,
        }
    }
}

/// Writing preserves well-formedness.
pub proof fn lemma_write_wf<A>(m: BufView<A>, t: int, s: ActionState<A>)
    requires
        m.wf(),
        i64::MIN <= t <= i64::MAX,
    ensures
        spec_write(m, t, s).wf(),
{
    let r = spec_write(m, t, s);
    if m.start is Some && t > m.end() {
        let extended = m.entries + Seq::new((t - m.end() - 1) as nat, |i: int| m.entries.last())
            + seq![s];
        assert(extended.len() == m.entries.len() + (t - m.end() - 1) + 1);
        assert(r.start->0 + r.entries.len() - 1 == t);
    }
}

/// Whether a snapshot arriving over the network for tick `t` is accepted:
/// only when the buffer does not already hold an entry at or past `t`.
/// Locally known history is preferred over network data; on an equal tick
/// the existing entry is kept (documented policy choice).
pub open spec fn accepts<A>(m: BufView<A>, t: int) -> bool {
    m.start is None || t > m.end()
}

/// The buffer after merging a redundant run received over the network:
/// the run's snapshots, oldest first, for ticks `run_tick`, `run_tick + 1`,
/// ..., each written only where `accepts` allows it.
pub open spec fn spec_update_run<A>(
    m: BufView<A>,
    run_tick: int,
    states: Seq<ActionState<A>>,
) -> BufView<A>
    decreases states.len(),
{
    if states.len() == 0 {
        m
    } else {
        let m1 = if accepts(m, run_tick) {
            spec_write(m, run_tick, states[0])
        } else {
            m
        };
        spec_update_run(m1, run_tick + 1, states.drop_first())
    }
}

/// The buffer after merging a run whose newest snapshot is for `end_tick`.
pub open spec fn spec_update<A>(
    m: BufView<A>,
    end_tick: int,
    states: Seq<ActionState<A>>,
) -> BufView<A> {
    spec_update_run(m, end_tick - states.len() + 1, states)
}

/// Tick-indexed input history with fill-forward and a bounded horizon.
#[derive(Debug)]
pub struct InputBuffer<A> {
    /// Tick of the first element of `buffer`; `None` while no snapshot was
    /// ever stored.
    pub start_tick: Option<Tick>,
    /// Retained snapshots, one per tick, oldest first.
    pub buffer: Vec<ActionState<A>>,
    /// Maximum number of retained entries.
    pub horizon: usize,
}

impl<A> View for InputBuffer<A> {
    type V = BufView<A>;

    open spec fn view(&self) -> BufView<A> {
        BufView {
            start: match self.start_tick {
                Some(t) => Some(t as int),
                None => None,
            },
            entries: self.buffer@,
            horizon: self.horizon as int,
        }
    }
}

impl<A> InputBuffer<A> {
    pub open spec fn wf(self) -> bool {
        self@.wf()
    }

    /// An empty buffer retaining at most `horizon` ticks of history.
    pub fn new(horizon: usize) -> (r: Self)
        requires
            1 <= horizon,
        ensures
            r@ == BufView::<A>::empty(horizon as int),
            r.wf(),
    {
        let r = InputBuffer { start_tick: None, buffer: Vec::new(), horizon };
        proof {
            assert(r@ =~= BufView::<A>::empty(horizon as int));
        }
        r
    }

}

impl<A: Copy> InputBuffer<A> {
    /// `write(t, s)` inserts or overwrites the snapshot at tick `t`,
    /// extending the window forward (repeating the previous newest entry
    /// across any gap) and evicting the oldest entries past the horizon.
    /// A tick before the window is ignored: history is never rewritten.
    #[verifier::loop_isolation(false)]
    pub fn write(&mut self, tick: Tick, state: ActionState<A>)
        requires
            old(self).wf(),
        ensures
            final(self)@ == spec_write(old(self)@, tick as int, state),
            final(self).wf(),
    {
        proof {
            lemma_write_wf(old(self)@, tick as int, state);
        }
        let ghost m = old(self)@;
        match self.start_tick {
            None => {
                self.start_tick = Some(tick);
                self.buffer.push(state);
                proof {
                    assert(self@ =~= spec_write(m, tick as int, state));
                }
            },
            Some(start) => {
                if tick < start {
                    // too old: history before the window is never rewritten
                } else {
                    let len = self.buffer.len();
                    let d: i128 = tick as i128 - start as i128;
                    if d < len as i128 {
                        let idx: usize = d as usize;
                        self.buffer[idx] = state;
                        proof {
                            assert(self@ =~= spec_write(m, tick as int, state));
                        }
                    } else {
                        let ghost ext = m.entries + Seq::new(
                            (tick - m.end() - 1) as nat,
                            |i: int| m.entries.last(),
                        ) + seq![state];
                        let ghost dropped: int = if ext.len() > m.horizon {
                            ext.len() - m.horizon
                        } else {
                            0
                        };
                        let last = self.buffer[len - 1];
                        let ns_wide: i128 = tick as i128 - self.horizon as i128 + 1;
                        let new_start: i64 = if ns_wide > start as i128 {
                            ns_wide as i64
                        } else {
                            start
                        };
                        proof {
                            assert(new_start as int == m.start->0 + dropped);
                        }
                        let count: usize = (tick as i128 - new_start as i128 + 1) as usize;
                        proof {
                            assert(count as int == ext.len() - dropped);
                        }
                        let mut out: Vec<ActionState<A>> = Vec::new();
                        let mut i: usize = 0;
                        while i < count
                            invariant
                                i <= count,
                                out@.len() == i,
                                forall|j: int| 0 <= j < i ==> out@[j] == ext[dropped + j],
                            decreases count - i,
                        {
                            let off: i128 = new_start as i128 + i as i128 - start as i128;
                            let val = if off < len as i128 {
                                self.buffer[off as usize]
                            } else if i + 1 == count {
                                state
                            } else {
                                last
                            };
                            out.push(val);
                            i += 1;
                        }
                        self.buffer = out;
                        self.start_tick = Some(new_start);
                        proof {
                            assert(self@.entries =~= spec_write(m, tick as int, state).entries);
                            assert(self@ =~= spec_write(m, tick as int, state));
                        }
                    }
                }
            },
        }
    }

    /// Whether an incoming snapshot for tick `t` would be accepted.
    fn accepts_incoming(&self, t: Tick) -> (b: bool)
        requires
            self.wf(),
        ensures
            b == accepts(self@, t as int),
    {
        match self.start_tick {
            None => true,
            Some(start) => {
                t as i128 > start as i128 + self.buffer.len() as i128 - 1
            },
        }
    }

    /// Merges a redundant run received over the network. The run's
    /// snapshots, oldest first, cover the ticks up to and including
    /// `end_tick`; each is written only where the buffer does not already
    /// hold an entry at or past its tick, so stale network data never
    /// overwrites locally known history.
    #[verifier::loop_isolation(false)]
    pub fn update_from_message(&mut self, end_tick: Tick, states: &Vec<ActionState<A>>)
        requires
            old(self).wf(),
            end_tick - states@.len() + 1 >= i64::MIN,
        ensures
            final(self)@ == spec_update(old(self)@, end_tick as int, states@),
            final(self).wf(),
    {
        let ghost m0 = self@;
        let ghost rt: int = end_tick as int - states@.len() + 1;
        let n = states.len();
        proof {
            assert(states@.skip(0) =~= states@);
        }
        let mut i: usize = 0;
        while i < n
            invariant
                i <= n,
                self.wf(),
                spec_update_run(self@, rt + i, states@.skip(i as int))
                    == spec_update_run(m0, rt, states@),
            decreases n - i,
        {
            let ghost m_before = self@;
            let t: i64 = (end_tick as i128 - (n - 1 - i) as i128) as i64;
            if self.accepts_incoming(t) {
                self.write(t, states[i]);
            }
            proof {
                assert(states@.skip(i as int).drop_first() =~= states@.skip(i + 1));
                assert(states@.skip(i as int)[0] == states@[i as int]);
                assert(spec_update_run(m_before, rt + i, states@.skip(i as int))
                    == spec_update_run(self@, rt + i + 1, states@.skip(i + 1)));
            }
            i += 1;
        }
        proof {
            assert(states@.skip(n as int) =~= Seq::<ActionState<A>>::empty());
        }
    }

    /// `read(t)` for `t` at or past `start_tick` never fails: a tick past
    /// the newest entry yields that newest entry (fill-forward). A tick
    /// before `start_tick` fails: that history has expired, and the caller
    /// must treat the input as unknown, never as fatal.
    pub fn read(&self, tick: Tick) -> (r: Result<ActionState<A>, BufferError>)
        requires
            self.wf(),
        ensures
            r == match spec_read(self@, tick as int) {
                Some(s) => Ok::<ActionState<A>, BufferError>(s),
                None => Err::<ActionState<A>, BufferError>(BufferError::HistoryExpired),
            },
    {
        match self.start_tick {
            None => Err(BufferError::HistoryExpired),
            Some(start) => {
                if tick < start {
                    Err(BufferError::HistoryExpired)
                } else {
                    let len = self.buffer.len();
                    let d = tick as i128 - start as i128;
                    if d >= len as i128 - 1 {
                        Ok(self.buffer[len - 1])
                    } else {
                        Ok(self.buffer[d as usize])
                    }
                }
            },
        }
    }
}

/// The buffer after a tick-snap of `delta`: the same snapshots, re-labelled
/// so that the window starts `delta` ticks later.
pub open spec fn spec_shift<A>(m: BufView<A>, delta: int) -> BufView<A> {
    BufView {
        start: match m.start {
            Some(s) => Some(s + delta),
            None => None,
        },
        entries: m.entries,
        horizon: m.horizon,
    }
}

impl<A> InputBuffer<A> {
    /// Re-labels the whole window by `delta` ticks after the shared clock
    /// snapped. The snapshots themselves are unchanged.
    pub fn apply_tick_delta(&mut self, delta: i64)
        requires
            old(self).wf(),
            old(self)@.start is Some ==> i64::MIN <= old(self)@.start->0 + delta
                && old(self)@.start->0 + old(self)@.entries.len() - 1 + delta <= i64::MAX,
        ensures
            final(self)@ == spec_shift(old(self)@, delta as int),
            final(self).wf(),
    {
        match self.start_tick {
            None => {
                proof {
                    assert(self@ =~= spec_shift(old(self)@, delta as int));
                }
            },
            Some(start) => {
                let shifted: i64 = ((start as i128) + (delta as i128)) as i64;
                self.start_tick = Some(shifted);
                proof {
                    assert(self@ =~= spec_shift(old(self)@, delta as int));
                }
            },
        }
    }

    /// Tick of the newest retained snapshot, if any.
    pub fn end_tick(&self) -> (r: Option<Tick>)
        requires
            self.wf(),
        ensures
            match r {
                Some(t) => self@.start is Some && t as int == self@.end(),
                None => self@.start is None,
            },
    {
        match self.start_tick {
            None => None,
            Some(start) => {
                let e: i64 = ((start as i128) + (self.buffer.len() as i128) - 1) as i64;
                Some(e)
            },
        }
    }

    /// Number of retained snapshots.
    pub fn len(&self) -> (r: usize)
        ensures
            r as int == self@.entries.len(),
    {
        self.buffer.len()
    }
}

impl<A> Default for InputBuffer<A> {
    /// Defaults to an empty buffer with the default horizon.
    fn default() -> (r: Self)
        ensures
            r@ == BufView::<A>::empty(DEFAULT_HORIZON as int),
            r.wf(),
    {
        Self::new(DEFAULT_HORIZON)
    }
}

} // verus!

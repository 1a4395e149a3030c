//! Laws of the input buffer: fill-forward reads and no-regression merges.

use vstd::prelude::*;

use crate::action::ActionState;
use crate::input_buffer::{
    accepts, spec_read, spec_update, spec_update_run, spec_write, BufView,
};

verus! {

/// Facts about a write past the current window: the window's end moves to
/// the written tick, its start advances just enough to respect the horizon,
/// every tick retained from before keeps its snapshot, the gap is filled
/// with copies of the previous newest snapshot, and the written tick holds
/// the new one.
pub proof fn lemma_write_extend<A>(m: BufView<A>, w: int, s: ActionState<A>)
    requires
        m.wf(),
        m.start is Some,
        w > m.end(),
    ensures
        spec_write(m, w, s).start is Some,
        spec_write(m, w, s).start->0 == if m.start->0 >= w - m.horizon + 1 {
            m.start->0
        } else {
            w - m.horizon + 1
        },
        spec_write(m, w, s).end() == w,
        spec_write(m, w, s).horizon == m.horizon,
        forall|t: int|
            m.contains(t) && spec_write(m, w, s).contains(t)
                ==> spec_write(m, w, s).entry(t) == m.entry(t),
        forall|t: int|
            spec_write(m, w, s).start->0 <= t < w && t > m.end()
                ==> spec_write(m, w, s).entry(t) == m.entries.last(),
        spec_write(m, w, s).entry(w) == s,
        spec_write(m, w, s).entries.last() == s,
        spec_write(m, w, s).entries.len() <= m.horizon,
        spec_write(m, w, s).entries.len() > 0,
{
    let r = spec_write(m, w, s);
    let ext = m.entries + Seq::new((w - m.end() - 1) as nat, |i: int| m.entries.last())
        + seq![s];
    let dropped: int = if ext.len() > m.horizon {
        ext.len() - m.horizon
    } else {
        0
    };
    assert(ext.len() == m.entries.len() + (w - m.end() - 1) + 1);
    assert(r.entries =~= ext.skip(dropped));
    assert forall|i: int| 0 <= i < r.entries.len() implies r.entries[i] == ext[dropped + i] by {
    }
    assert(r.start->0 == m.start->0 + dropped);
    assert(r.entries.last() == ext[ext.len() - 1]);
    assert(ext[ext.len() - 1] == s);
    assert forall|t: int| m.contains(t) && r.contains(t) implies r.entry(t) == m.entry(t) by {
        assert(r.entry(t) == ext[t - m.start->0]);
        assert(ext[t - m.start->0] == m.entries[t - m.start->0]);
    }
    assert forall|t: int| r.start->0 <= t < w && t > m.end() implies r.entry(t)
        == m.entries.last() by {
        assert(r.entry(t) == ext[t - m.start->0]);
    }
    assert(r.entry(w) == ext[w - m.start->0]);
}

/// Merging a run never moves the window backwards: its start and end ticks
/// only grow.
pub proof fn lemma_update_run_monotone<A>(m: BufView<A>, rt: int, states: Seq<ActionState<A>>)
    requires
        m.wf(),
        m.start is Some,
        i64::MIN <= rt,
        rt + states.len() - 1 <= i64::MAX,
    ensures
        spec_update_run(m, rt, states).wf(),
        spec_update_run(m, rt, states).start is Some,
        spec_update_run(m, rt, states).start->0 >= m.start->0,
        spec_update_run(m, rt, states).end() >= m.end(),
    decreases states.len(),
{
    if states.len() > 0 {
        let m1 = if accepts(m, rt) {
            spec_write(m, rt, states[0])
        } else {
            m
        };
        if accepts(m, rt) {
            crate::input_buffer::lemma_write_wf(m, rt, states[0]);
            lemma_write_extend(m, rt, states[0]);
        }
        lemma_update_run_monotone(m1, rt + 1, states.drop_first());
    }
}

/// No-regression law: merging a redundant run received over the network
/// never changes a tick the buffer already holds — local history wins over
/// (possibly stale) network data, and an equal tick keeps the existing
/// entry.
pub proof fn lemma_update_run_no_regression<A>(
    m: BufView<A>,
    rt: int,
    states: Seq<ActionState<A>>,
    t: int,
)
    requires
        m.wf(),
        i64::MIN <= rt,
        rt + states.len() - 1 <= i64::MAX,
        m.contains(t),
        spec_update_run(m, rt, states).contains(t),
    ensures
        spec_update_run(m, rt, states).entry(t) == m.entry(t),
    decreases states.len(),
{
    if states.len() > 0 {
        let m1 = if accepts(m, rt) {
            spec_write(m, rt, states[0])
        } else {
            m
        };
        if accepts(m, rt) {
            crate::input_buffer::lemma_write_wf(m, rt, states[0]);
            lemma_write_extend(m, rt, states[0]);
        }
        lemma_update_run_monotone(m1, rt + 1, states.drop_first());
        assert(m1.contains(t));
        if accepts(m, rt) {
            assert(m1.entry(t) == m.entry(t));
        }
        lemma_update_run_no_regression(m1, rt + 1, states.drop_first(), t);
    }
}

/// No-regression law, stated for a run whose newest snapshot is `end_tick`
/// (the form `update_from_message` uses).
pub proof fn lemma_update_no_regression<A>(
    m: BufView<A>,
    end_tick: int,
    states: Seq<ActionState<A>>,
    t: int,
)
    requires
        m.wf(),
        i64::MIN <= end_tick - states.len() + 1,
        end_tick <= i64::MAX,
        m.contains(t),
        spec_update(m, end_tick, states).contains(t),
    ensures
        spec_update(m, end_tick, states).entry(t) == m.entry(t),
{
    lemma_update_run_no_regression(m, end_tick - states.len() + 1, states, t);
}

/// Whether a sequence of `(tick, snapshot)` writes is in capture order:
/// ticks never decrease (a repeated tick overwrites its snapshot).
pub open spec fn ticks_monotone<A>(ws: Seq<(int, ActionState<A>)>) -> bool {
    forall|i: int, j: int| 0 <= i <= j < ws.len() ==> (#[trigger] ws[i]).0 <= (#[trigger] ws[j]).0
}

/// The buffer after the given writes, applied in order.
pub open spec fn apply_writes<A>(m: BufView<A>, ws: Seq<(int, ActionState<A>)>) -> BufView<A>
    decreases ws.len(),
{
    if ws.len() == 0 {
        m
    } else {
        spec_write(apply_writes(m, ws.drop_last()), ws.last().0, ws.last().1)
    }
}

/// The snapshot of the latest write at or before tick `t`, if any.
pub open spec fn last_write_at_or_before<A>(
    ws: Seq<(int, ActionState<A>)>,
    t: int,
) -> Option<ActionState<A>>
    decreases ws.len(),
{
    if ws.len() == 0 {
        None
    } else if ws.last().0 <= t {
        Some(ws.last().1)
    } else {
        last_write_at_or_before(ws.drop_last(), t)
    }
}

proof fn lemma_fill_forward_inner<A>(m0: BufView<A>, ws: Seq<(int, ActionState<A>)>)
    requires
        m0.wf(),
        m0.start is None,
        ticks_monotone(ws),
        ws.len() > 0,
        i64::MIN <= ws[0].0,
        ws.last().0 <= i64::MAX,
    ensures
        apply_writes(m0, ws).wf(),
        apply_writes(m0, ws).start is Some,
        apply_writes(m0, ws).end() == ws.last().0,
        apply_writes(m0, ws).horizon == m0.horizon,
        forall|t: int|
            apply_writes(m0, ws).start->0 <= t
                ==> spec_read(apply_writes(m0, ws), t) == last_write_at_or_before(ws, t),
    decreases ws.len(),
{
    let mm = apply_writes(m0, ws);
    let w = ws.last();
    if ws.len() == 1 {
        assert(mm == spec_write(m0, w.0, w.1));
        crate::input_buffer::lemma_write_wf(m0, w.0, w.1);
        assert(mm.entries =~= seq![w.1]);
        assert forall|t: int| mm.start->0 <= t implies spec_read(mm, t)
            == last_write_at_or_before(ws, t) by {
            assert(spec_read(mm, t) == Some(w.1));
        }
    } else {
        let prev = ws.drop_last();
        assert(prev[0] == ws[0]);
        assert(prev.last() == ws[ws.len() - 2]);
        lemma_fill_forward_inner(m0, prev);
        let mp = apply_writes(m0, prev);
        assert(mm == spec_write(mp, w.0, w.1));
        crate::input_buffer::lemma_write_wf(mp, w.0, w.1);
        assert(prev.last().0 <= w.0);
        if w.0 <= mp.end() {
            // a repeated capture tick: overwrite the newest slot
            assert(w.0 == mp.end());
            assert(mm.entries == mp.entries.update(w.0 - mp.start->0, w.1));
            assert forall|t: int| mm.start->0 <= t implies spec_read(mm, t)
                == last_write_at_or_before(ws, t) by {
                if t >= w.0 {
                    assert(mm.entries.last() == w.1);
                    assert(spec_read(mm, t) == Some(w.1));
                } else {
                    assert(mm.entries[t - mm.start->0] == mp.entries[t - mp.start->0]);
                    assert(spec_read(mm, t) == spec_read(mp, t));
                    assert(last_write_at_or_before(ws, t) == last_write_at_or_before(prev, t));
                }
            }
        } else {
            lemma_write_extend(mp, w.0, w.1);
            assert forall|t: int| mm.start->0 <= t implies spec_read(mm, t)
                == last_write_at_or_before(ws, t) by {
                if t >= w.0 {
                    assert(spec_read(mm, t) == Some(w.1));
                } else {
                    assert(t >= mp.start->0);
                    assert(last_write_at_or_before(ws, t) == last_write_at_or_before(prev, t));
                    if t <= mp.end() {
                        assert(mp.contains(t) && mm.contains(t));
                        assert(mm.entry(t) == mp.entry(t));
                        if t == mp.end() {
                            assert(mp.entry(t) == mp.entries.last());
                            assert(spec_read(mp, t) == Some(mp.entries.last()));
                        } else {
                            assert(spec_read(mp, t) == Some(mp.entry(t)));
                        }
                        assert(spec_read(mm, t) == Some(mm.entry(t)));
                    } else {
                        // inside the gap: filled with the previous newest snapshot
                        assert(mm.entry(t) == mp.entries.last());
                        assert(spec_read(mp, t) == Some(mp.entries.last()));
                        assert(spec_read(mm, t) == Some(mm.entry(t)));
                    }
                }
            }
        }
    }
}

/// Fill-forward law: after any capture-ordered sequence of writes, reading
/// any tick `t` at or past the buffer's start yields the snapshot of the
/// latest write at or before `t`. A lost or absent write for a tick is
/// invisible as long as one earlier write is retained.
///
/// Capture order matters: a write that jumps back and overwrites the middle
/// of the window changes that slot only, so later slots no longer reflect
/// "the latest write at or before" their tick.
pub proof fn lemma_fill_forward<A>(m0: BufView<A>, ws: Seq<(int, ActionState<A>)>, t: int)
    requires
        m0.wf(),
        m0.start is None,
        ticks_monotone(ws),
        ws.len() > 0,
        i64::MIN <= ws[0].0,
        ws.last().0 <= i64::MAX,
        apply_writes(m0, ws).start->0 <= t,
    ensures
        spec_read(apply_writes(m0, ws), t) == last_write_at_or_before(ws, t),
        spec_read(apply_writes(m0, ws), t) is Some,
{
    lemma_fill_forward_inner(m0, ws);
}

} // verus!

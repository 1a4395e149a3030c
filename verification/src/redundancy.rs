//! Redundancy law: why resending a window of trailing ticks in every
//! message lets the receiver survive consecutive packet loss.
//!
//! Messages are indexed by assembly cycle. Cycle `j`'s message covers the
//! `w` ticks ending at `e0 + j * d`, where `d` is how far the end tick
//! advances between consecutive cycles. The window `w` produced by
//! `redundancy_window` is `redundancy_factor` times the span of one send
//! interval, so as long as one of every `redundancy_factor` consecutive
//! messages is delivered, the delivered windows overlap and every tick up
//! to the newest delivered end is covered by some delivered message.

use vstd::prelude::*;

verus! {

/// The end tick of the message assembled at cycle `j`.
pub open spec fn cycle_end(e0: int, d: int, j: int) -> int {
    e0 + j * d
}

/// Whether the message of cycle `j` covers tick `t` with window `w`.
pub open spec fn covers(e0: int, d: int, w: int, j: int, t: int) -> bool {
    cycle_end(e0, d, j) - w + 1 <= t <= cycle_end(e0, d, j)
}

/// Some cycle among `i, i + 1, ..., i + rf - 1` is delivered.
pub open spec fn window_has_delivery(delivered: Set<int>, rf: int, i: int) -> bool {
    exists|j: int| i <= j < i + rf && delivered.contains(j)
}

/// At least one of every `rf` consecutive cycles in `0 ..= n` is delivered.
pub open spec fn one_of_each_delivered(delivered: Set<int>, rf: int, n: int) -> bool {
    forall|i: int|
        0 <= i && i + rf <= n + 1 ==> #[trigger] window_has_delivery(delivered, rf, i)
}

/// The earliest delivered cycle, at or before `jd`, whose end tick is still
/// at or past `t`.
proof fn find_min_covering(e0: int, d: int, delivered: Set<int>, jd: int, t: int) -> (j: int)
    requires
        delivered.contains(jd),
        0 <= jd,
        t <= cycle_end(e0, d, jd),
    ensures
        0 <= j <= jd,
        delivered.contains(j),
        t <= cycle_end(e0, d, j),
        forall|j2: int|
            0 <= j2 < j && delivered.contains(j2) ==> cycle_end(e0, d, j2) < t,
    decreases jd,
{
    if exists|j2: int| 0 <= j2 < jd && delivered.contains(j2) && t <= cycle_end(e0, d, j2) {
        let j2 = choose|j2: int|
            0 <= j2 < jd && delivered.contains(j2) && t <= cycle_end(e0, d, j2);
        find_min_covering(e0, d, delivered, j2, t)
    } else {
        jd
    }
}

/// Redundancy law: with window `w` at least `rf` times the per-cycle end
/// advance `d`, and one of every `rf` consecutive messages delivered, every
/// tick from the very first end tick up to any delivered end tick lies in
/// the window of some delivered message — losing `rf - 1` consecutive
/// messages leaves no gap at the receiver.
pub proof fn lemma_redundancy_coverage(
    e0: int,
    d: int,
    w: int,
    rf: int,
    n: int,
    delivered: Set<int>,
    jd: int,
    t: int,
)
    requires
        1 <= d,
        1 <= rf,
        rf * d <= w,
        0 <= n,
        one_of_each_delivered(delivered, rf, n),
        delivered.contains(jd),
        0 <= jd <= n,
        e0 <= t <= cycle_end(e0, d, jd),
    ensures
        exists|j: int|
            0 <= j <= n && delivered.contains(j) && #[trigger] covers(e0, d, w, j, t),
{
    let j = find_min_covering(e0, d, delivered, jd, t);
    if j >= rf {
        // some delivered cycle sits in the rf cycles just before j, and by
        // minimality its end tick is below t, so j's window reaches back to t
        assert(window_has_delivery(delivered, rf, j - rf));
        let j3 = choose|j3: int| j - rf <= j3 < j - rf + rf && delivered.contains(j3);
        assert(cycle_end(e0, d, j3) < t);
        assert(j * d - j3 * d <= rf * d) by (nonlinear_arith)
            requires
                j - j3 <= rf,
                1 <= d,
        ;
        assert(cycle_end(e0, d, j) - w + 1 <= t);
        assert(covers(e0, d, w, j, t));
    } else {
        // one of the first rf cycles: its window reaches back past e0
        assert(j * d <= (rf - 1) * d) by (nonlinear_arith)
            requires
                j <= rf - 1,
                1 <= d,
        ;
        assert((rf - 1) * d + d == rf * d) by (nonlinear_arith);
        assert(cycle_end(e0, d, j) - w + 1 <= e0);
        assert(covers(e0, d, w, j, t));
    }
}

/// The window `redundancy_window` derives — `rf` times the number of ticks
/// spanning one send interval — satisfies the redundancy law's premise for
/// any per-cycle end advance `d` of at most one send interval's span.
pub proof fn lemma_window_spans_interval(q: int, rf: int, d: int)
    requires
        0 <= q,
        1 <= rf,
        1 <= d <= q + 1,
    ensures
        rf * d <= (q + 1) * rf,
{
    assert(rf * d <= (q + 1) * rf) by (nonlinear_arith)
        requires
            1 <= rf,
            1 <= d <= q + 1,
    ;
}

} // verus!

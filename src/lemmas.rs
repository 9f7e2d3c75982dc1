use vstd::prelude::*;

use crate::layer::{closed, entered, eviction_record, exited, Latency};
use crate::timing::{Timing, NANOS_PER_MILLI};

verus! {

/// The total length of the intervals `(enter, exit)`.
pub open spec fn interval_sum(intervals: Seq<(u64, u64)>) -> int
    decreases intervals.len(),
{
    if intervals.len() == 0 {
        0
    } else {
        interval_sum(intervals.drop_last()) + (intervals.last().1 - intervals.last().0)
    }
}

/// The table after `id` was entered and exited once per interval, with
/// `parents[i]` current right after the `i`-th exit.
pub open spec fn run_intervals(
    m: Map<u64, Timing>,
    id: u64,
    intervals: Seq<(u64, u64)>,
    parents: Seq<Option<u64>>,
) -> Map<u64, Timing>
    decreases intervals.len(),
{
    if intervals.len() == 0 {
        m
    } else {
        let n = intervals.len() - 1;
        let m1 = run_intervals(m, id, intervals.drop_last(), parents);
        exited(entered(m1, id, intervals[n].0), id, parents[n], intervals[n].1)
    }
}

proof fn lemma_interval_sum_grows(intervals: Seq<(u64, u64)>)
    requires
        forall|i: int| 0 <= i < intervals.len() ==> #[trigger] intervals[i].0 <= intervals[i].1,
    ensures
        interval_sum(intervals) >= 0,
        intervals.len() > 0 ==> interval_sum(intervals.drop_last()) <= interval_sum(intervals),
    decreases intervals.len(),
{
    if intervals.len() > 0 {
        let n = intervals.len() - 1;
        assert forall|i: int| 0 <= i < intervals.drop_last().len() implies #[trigger] intervals.drop_last()[i].0
            <= intervals.drop_last()[i].1 by {
            assert(intervals.drop_last()[i] == intervals[i]);
        }
        lemma_interval_sum_grows(intervals.drop_last());
        assert(intervals[n].0 <= intervals[n].1);
    }
}

/// After any number of completed entered/exited pairs on a live span that
/// was outside an interval, its busy time has grown by exactly the total
/// length of those intervals, however long the span sat idle between them
/// and whatever span was current after each exit.
pub proof fn lemma_busy_is_interval_sum(
    m: Map<u64, Timing>,
    id: u64,
    intervals: Seq<(u64, u64)>,
    parents: Seq<Option<u64>>,
    now: u64,
)
    requires
        m.contains_key(id),
        m[id].enter is None,
        intervals.len() <= parents.len(),
        forall|i: int| 0 <= i < intervals.len() ==> #[trigger] intervals[i].0 <= intervals[i].1,
        m[id].busy + interval_sum(intervals) <= u64::MAX,
    ensures
        run_intervals(m, id, intervals, parents).contains_key(id),
        run_intervals(m, id, intervals, parents)[id].enter is None,
        run_intervals(m, id, intervals, parents)[id].busy == m[id].busy + interval_sum(intervals),
        run_intervals(m, id, intervals, parents)[id].spec_busy(now) == m[id].busy + interval_sum(
            intervals,
        ),
    decreases intervals.len(),
{
    if intervals.len() > 0 {
        let n = intervals.len() - 1;
        let prefix = intervals.drop_last();
        assert forall|i: int| 0 <= i < prefix.len() implies #[trigger] prefix[i].0 <= prefix[i].1 by {
            assert(prefix[i] == intervals[i]);
        }
        lemma_interval_sum_grows(intervals);
        lemma_interval_sum_grows(prefix);
        lemma_busy_is_interval_sum(m, id, prefix, parents, now);
        assert(intervals[n].0 <= intervals[n].1);
    }
}

/// When a child exits with its parent current, the parent gains one pending
/// child, the child records that parent, and the interval just ended is
/// added to the child's busy time.
pub proof fn lemma_child_exit_records_parent(
    m: Map<u64, Timing>,
    p: u64,
    c: u64,
    e: u64,
    now: u64,
)
    requires
        m.contains_key(p),
        m.contains_key(c),
        p != c,
        m[p].p_count < usize::MAX,
        m[c].enter == Some(e),
        e <= now,
        m[c].busy + (now - e) <= u64::MAX,
    ensures
        exited(m, c, Some(p), now)[p].p_count == m[p].p_count + 1,
        exited(m, c, Some(p), now)[c].parent == Some(p),
        exited(m, c, Some(p), now)[c].enter is None,
        exited(m, c, Some(p), now)[c].busy == m[c].busy + (now - e),
{
}

/// A span that closes while children are still pending on it stays in the
/// table, marked as closing, with its pending count unchanged.
pub proof fn lemma_close_with_pending_children_defers(m: Map<u64, Timing>, p: u64, now: u64)
    requires
        m.contains_key(p),
        m[p].p_count > 0,
        m[p].parent != Some(p),
    ensures
        closed(m, p, now).0.contains_key(p),
        closed(m, p, now).0[p].closing,
        closed(m, p, now).0[p].p_count == m[p].p_count,
{
}

/// When the last pending child of a closing span is evicted, that span is
/// evicted in the same close: both leave the table, and the stall records
/// of both evictions come out, the parent's first.
pub proof fn lemma_last_child_eviction_cascades(m: Map<u64, Timing>, p: u64, c: u64, now: u64)
    requires
        m.contains_key(p),
        m.contains_key(c),
        p != c,
        m[p].closing,
        m[p].p_count == 1,
        m[c].parent == Some(p),
        m[c].p_count == 0,
    ensures
        !closed(m, c, now).0.contains_key(p),
        !closed(m, c, now).0.contains_key(c),
        closed(m, c, now).0 == m.remove(p).remove(c),
        closed(m, c, now).1 == eviction_record(p, m[p], now) + eviction_record(c, m[c], now),
{
}

/// An eviction leaves exactly one stall record where the span lived longer
/// than one millisecond, and none otherwise; the record carries the span's
/// id, metadata and lifespan.
pub proof fn lemma_eviction_record(id: u64, t: Timing, now: u64)
    ensures
        eviction_record(id, t, now).len() == (if t.spec_elapsed(now) > NANOS_PER_MILLI {
            1int
        } else {
            0int
        }),
        t.spec_elapsed(now) > NANOS_PER_MILLI ==> eviction_record(id, t, now)[0] == (Latency {
            id,
            metadata: t.metadata,
            latency: t.spec_elapsed(now),
        }),
{
}

/// A top-level span with no pending child is evicted by its close, and
/// leaves one stall record where it lived longer than one millisecond.
pub proof fn lemma_close_top_level_evicts(m: Map<u64, Timing>, id: u64, now: u64)
    requires
        m.contains_key(id),
        m[id].parent is None,
        m[id].p_count == 0,
    ensures
        closed(m, id, now).0 == m.remove(id),
        closed(m, id, now).1 == eviction_record(id, m[id], now),
{
    assert(seq![] + eviction_record(id, m[id], now) =~= eviction_record(id, m[id], now));
}

} // verus!

use std::collections::HashMap;
use vstd::prelude::*;

use crate::timing::{sat_add, sat_sub, SpanMeta, Timing, NANOS_PER_MILLI};
use vstd::std_specs::iter::IteratorSpec;

verus! {

broadcast use vstd::std_specs::hash::group_hash_axioms;

/// A span that was evicted after living longer than the retention floor.
#[derive(Clone, Copy)]
pub struct Latency {
    pub id: u64,
    pub metadata: &'static SpanMeta,
    /// Nanoseconds from creation to eviction.
    pub latency: u64,
}

/// The span table: one timing record per live span id.
pub struct TimingLayer {
    timings: HashMap<u64, Timing>,
}

/// What an eviction of `t`, stored under `id`, leaves in the stall ledger: one
/// record where the span lived longer than one millisecond, none otherwise.
pub open spec fn eviction_record(id: u64, t: Timing, now: u64) -> Seq<Latency> {
    let lifespan = t.spec_elapsed(now);
    if lifespan > NANOS_PER_MILLI {
        seq![Latency { id, metadata: t.metadata, latency: lifespan }]
    } else {
        seq![]
    }
}

/// The table after `id` was created at `now`; a live `id` is replaced.
pub open spec fn created(m: Map<u64, Timing>, id: u64, metadata: &'static SpanMeta, now: u64) -> Map<
    u64,
    Timing,
> {
    m.insert(id, Timing::fresh(metadata, now))
}

/// The table after `id` was entered at `now`.
pub open spec fn entered(m: Map<u64, Timing>, id: u64, now: u64) -> Map<u64, Timing> {
    if m.contains_key(id) {
        m.insert(id, Timing { enter: Some(now), ..m[id] })
    } else {
        m
    }
}

/// `n + 1`, held at `usize::MAX`.
pub open spec fn inc_pending(n: usize) -> usize {
    if n < usize::MAX {
        (n + 1) as usize
    } else {
        n
    }
}

/// One more pending child on `parent`, where it is live.
pub open spec fn add_pending(m: Map<u64, Timing>, parent: Option<u64>) -> Map<u64, Timing> {
    match parent {
        Some(p) => if m.contains_key(p) {
            m.insert(p, Timing { p_count: inc_pending(m[p].p_count), ..m[p] })
        } else {
            m
        },
        None => m,
    }
}

/// `t` after an exit at `now` with `parent` current: the open interval is
/// folded into the busy time and the parent is replaced.
pub open spec fn exited_record(t: Timing, parent: Option<u64>, now: u64) -> Timing {
    Timing {
        parent,
        enter: None,
        busy: match t.enter {
            Some(e) => sat_add(t.busy, sat_sub(now, e)),
            None => t.busy,
        },
        ..t
    }
}

/// The table after `id` exited at `now`, with `parent` the span current
/// right after the exit. An exit of a span that is not live changes nothing.
pub open spec fn exited(m: Map<u64, Timing>, id: u64, parent: Option<u64>, now: u64) -> Map<
    u64,
    Timing,
> {
    if m.contains_key(id) {
        let m1 = add_pending(m, parent);
        m1.insert(id, exited_record(m1[id], parent, now))
    } else {
        m
    }
}

/// Step one of a close: the parent of the closing span loses one pending
/// child, and is evicted where that was its last one and it had closed.
pub open spec fn release_parent(m: Map<u64, Timing>, parent: Option<u64>, now: u64) -> (Map<
    u64,
    Timing,
>, Seq<Latency>) {
    match parent {
        Some(p) => if m.contains_key(p) && m[p].p_count > 0 {
            if m[p].p_count == 1 && m[p].closing {
                (m.remove(p), eviction_record(p, m[p], now))
            } else {
                (m.insert(p, Timing { p_count: (m[p].p_count - 1) as usize, ..m[p] }), seq![])
            }
        } else {
            (m, seq![])
        },
        None => (m, seq![]),
    }
}

/// The table after `id` closed at `now`, and the stall records its
/// evictions produced.
pub open spec fn closed(m: Map<u64, Timing>, id: u64, now: u64) -> (Map<u64, Timing>, Seq<
    Latency,
>) {
    if !m.contains_key(id) {
        (m, seq![])
    } else {
        let own = m[id].p_count;
        let (m1, out) = release_parent(m, m[id].parent, now);
        if !m1.contains_key(id) {
            (m1, out)
        } else if own == 0 {
            (m1.remove(id), out + eviction_record(id, m1[id], now))
        } else {
            (m1.insert(id, Timing { closing: true, ..m1[id] }), out)
        }
    }
}

impl View for TimingLayer {
    type V = Map<u64, Timing>;

    closed spec fn view(&self) -> Map<u64, Timing> {
        self.timings@
    }
}

impl TimingLayer {
    pub fn new() -> (r: TimingLayer)
        ensures
            r@ == Map::<u64, Timing>::empty(),
    {
        TimingLayer { timings: HashMap::new() }
    }

    /// The record of `id`, where it is live.
    pub fn get(&self, id: u64) -> (r: Option<Timing>)
        ensures
            r == (if self@.contains_key(id) {
                Some(self@[id])
            } else {
                None
            }),
    {
        match self.timings.get(&id) {
            Some(t) => Some(*t),
            None => None,
        }
    }

    /// The span `id` was created at `now`.
    pub fn new_span(&mut self, id: u64, metadata: &'static SpanMeta, now: u64)
        ensures
            final(self)@ == created(old(self)@, id, metadata, now),
    {
        self.timings.insert(id, Timing::new(metadata, now));
    }

    /// The span `id` was entered at `now`.
    pub fn on_enter(&mut self, id: u64, now: u64)
        ensures
            final(self)@ == entered(old(self)@, id, now),
    {
        if let Some(t) = self.get(id) {
            self.timings.insert(id, Timing { enter: Some(now), ..t });
        }
    }

    /// The span `id` exited at `now`; `parent` is the span current right
    /// after the exit. Each exit counts one pending child on the parent,
    /// while the child's eviction releases only one: a child exited twice
    /// under the same parent leaves that parent pending for good.
    pub fn on_exit(&mut self, id: u64, parent: Option<u64>, now: u64)
        ensures
            final(self)@ == exited(old(self)@, id, parent, now),
    {
        if self.get(id).is_some() {
            if let Some(p) = parent {
                if let Some(pt) = self.get(p) {
                    self.timings.insert(p, Timing { p_count: pt.p_count.saturating_add(1), ..pt });
                }
            }
            if let Some(t) = self.get(id) {
                let busy = match t.enter {
                    Some(e) => t.busy.saturating_add(now.saturating_sub(e)),
                    None => t.busy,
                };
                self.timings.insert(id, Timing { parent, enter: None, busy, ..t });
            }
        }
    }

    /// Removes `id`, giving its stall record where it lived longer than one
    /// millisecond.
    fn evict(&mut self, id: u64, now: u64, out: &mut Vec<Latency>)
        requires
            old(self)@.contains_key(id),
        ensures
            final(self)@ == old(self)@.remove(id),
            final(out)@ == old(out)@ + eviction_record(id, old(self)@[id], now),
    {
        let t = self.timings.remove(&id);
        if let Some(t) = t {
            let latency = now.saturating_sub(t.start);
            if latency > NANOS_PER_MILLI {
                out.push(Latency { id, metadata: t.metadata, latency });
            }
        }
        proof {
            assert(out@ =~= old(out)@ + eviction_record(id, old(self)@[id], now));
        }
    }

    /// The span `id` closed at `now`. It is evicted at once where no child
    /// is pending on it, else marked as closing; its parent loses one pending
    /// child and is evicted where that was the last one and it had closed.
    /// Returns the stall records of the evictions.
    pub fn on_close(&mut self, id: u64, now: u64) -> (r: Vec<Latency>)
        ensures
            (final(self)@, r@) == closed(old(self)@, id, now),
    {
        let mut out: Vec<Latency> = Vec::new();
        let t = match self.get(id) {
            Some(t) => t,
            None => return out,
        };
        if let Some(p) = t.parent {
            if let Some(pt) = self.get(p) {
                if pt.p_count > 0 {
                    if pt.p_count == 1 && pt.closing {
                        self.evict(p, now, &mut out);
                    } else {
                        self.timings.insert(p, Timing { p_count: pt.p_count - 1, ..pt });
                    }
                }
            }
        }
        if let Some(t1) = self.get(id) {
            if t.p_count == 0 {
                self.evict(id, now, &mut out);
            } else {
                self.timings.insert(id, Timing { closing: true, ..t1 });
            }
        }
        out
    }

    /// An owned point-in-time copy of the table.
    pub fn snapshot(&self) -> (r: TimingLayer)
        ensures
            r@ == self@,
    {
        TimingLayer { timings: self.timings.clone() }
    }

    /// The entries of the table, in no particular order.
    pub fn entries(&self) -> (r: Vec<(u64, Timing)>)
        ensures
            is_snapshot(r@, self@),
    {
        let mut out: Vec<(u64, Timing)> = Vec::new();
        let ghost items = vstd::std_specs::hash::spec_hash_map_iter(&self.timings).remaining();
        for (k, v) in it: self.timings.iter()
            invariant
                it.seq() == items,
                out@.len() == it.index(),
                forall|i: int|
                    0 <= i < out@.len() ==> out@[i] == (*items[i].0, *items[i].1),
        {
            out.push((*k, *v));
        }
        proof {
            let m = self@;
            assert forall|k: u64| #[trigger] m.contains_key(k) implies exists|i: int|
                0 <= i < out@.len() && out@[i].0 == k by {
                assert(items.contains((&k, &m[k])));
                let i = choose|i: int| 0 <= i < items.len() && items[i] == (&k, &m[k]);
                assert(out@[i].0 == k);
            }
            assert forall|i: int, j: int| 0 <= i < j < out@.len() implies out@[i].0 != out@[j].0 by {
                if out@[i].0 == out@[j].0 {
                    assert(m.contains_key(*items[i].0) && m[*items[i].0] == *items[i].1);
                    assert(m.contains_key(*items[j].0) && m[*items[j].0] == *items[j].1);
                    assert(items[i] == items[j]);
                }
            }
        }
        out
    }
}

/// `s` lists each entry of `m` once.
pub open spec fn is_snapshot(s: Seq<(u64, Timing)>, m: Map<u64, Timing>) -> bool {
    &&& s.len() == m.dom().len()
    &&& forall|i: int| 0 <= i < s.len() ==> #[trigger] m.contains_key(s[i].0) && m[s[i].0] == s[i].1
    &&& forall|i: int, j: int| 0 <= i < j < s.len() ==> s[i].0 != s[j].0
    &&& forall|k: u64| #[trigger] m.contains_key(k) ==> exists|i: int| 0 <= i < s.len() && s[i].0 == k
}

/// The stall ledger: stall records in the order of their evictions.
pub struct StallLedger {
    entries: Vec<Latency>,
}

impl View for StallLedger {
    type V = Seq<Latency>;

    closed spec fn view(&self) -> Seq<Latency> {
        self.entries@
    }
}

impl StallLedger {
    pub fn new() -> (r: StallLedger)
        ensures
            r@ == Seq::<Latency>::empty(),
    {
        StallLedger { entries: Vec::new() }
    }

    /// Appends the records of some evictions.
    pub fn record(&mut self, evicted: Vec<Latency>)
        ensures
            final(self)@ == old(self)@ + evicted@,
    {
        let mut evicted = evicted;
        self.entries.append(&mut evicted);
    }

    /// Takes every record out.
    pub fn drain(&mut self) -> (r: Vec<Latency>)
        ensures
            r@ == old(self)@,
            final(self)@ == Seq::<Latency>::empty(),
    {
        let mut r: Vec<Latency> = Vec::new();
        r.append(&mut self.entries);
        proof {
            assert(r@ =~= old(self)@);
        }
        r
    }
}

} // verus!

use vstd::prelude::*;

verus! {

/// Nanoseconds in one millisecond.
pub const NANOS_PER_MILLI: u64 = 1_000_000;

/// `a - b`, or zero where `b` exceeds `a`.
pub open spec fn sat_sub(a: u64, b: u64) -> u64 {
    if a >= b {
        (a - b) as u64
    } else {
        0
    }
}

/// `a + b`, or `u64::MAX` where the sum does not fit.
pub open spec fn sat_add(a: u64, b: u64) -> u64 {
    if a + b <= u64::MAX {
        (a + b) as u64
    } else {
        u64::MAX
    }
}

/// The immutable descriptor of a span's call site.
pub struct SpanMeta {
    pub name: String,
    pub file: Option<String>,
    pub line: Option<u32>,
}

/// The bookkeeping record of one live span. Instants and durations are
/// nanoseconds on one monotonic clock.
#[derive(Clone, Copy)]
pub struct Timing {
    /// When the span was created.
    pub start: u64,
    /// When the span was last entered, while it is inside an entered interval.
    pub enter: Option<u64>,
    /// The sum of all completed entered intervals.
    pub busy: u64,
    pub metadata: &'static SpanMeta,
    /// The span that was current right after the latest exit of this one.
    pub parent: Option<u64>,
    /// Set once this span closed while children were still pending.
    pub closing: bool,
    /// Child exits seen against this span, not yet matched by a child eviction.
    pub p_count: usize,
}

impl Timing {
    /// A record for a span created at `now`.
    pub open spec fn fresh(metadata: &'static SpanMeta, now: u64) -> Timing {
        Timing {
            start: now,
            enter: None,
            busy: 0,
            metadata,
            parent: None,
            closing: false,
            p_count: 0,
        }
    }

    pub open spec fn spec_elapsed(self, now: u64) -> u64 {
        sat_sub(now, self.start)
    }

    /// Busy time at `now`: the completed intervals plus the open one, if any.
    pub open spec fn spec_busy(self, now: u64) -> u64 {
        sat_add(
            self.busy,
            match self.enter {
                Some(e) => sat_sub(now, e),
                None => 0,
            },
        )
    }

    pub open spec fn spec_idle(self, now: u64) -> u64 {
        sat_sub(self.spec_elapsed(now), self.spec_busy(now))
    }

    /// Idle excess ("ice").
    pub open spec fn spec_ice(self, now: u64) -> u64 {
        sat_sub(self.spec_idle(now), self.spec_busy(now))
    }

    /// Busy excess ("flame").
    pub open spec fn spec_flame(self, now: u64) -> u64 {
        sat_sub(self.spec_busy(now), self.spec_idle(now))
    }

    pub fn new(metadata: &'static SpanMeta, now: u64) -> (r: Timing)
        ensures
            r == Timing::fresh(metadata, now),
    {
        Timing {
            start: now,
            enter: None,
            busy: 0,
            metadata,
            parent: None,
            closing: false,
            p_count: 0,
        }
    }

    /// Time since creation.
    pub fn elapsed(&self, now: u64) -> (r: u64)
        ensures
            r == self.spec_elapsed(now),
    {
        now.saturating_sub(self.start)
    }

    pub fn busy(&self, now: u64) -> (r: u64)
        ensures
            r == self.spec_busy(now),
    {
        let open = match self.enter {
            Some(e) => now.saturating_sub(e),
            None => 0,
        };
        self.busy.saturating_add(open)
    }

    pub fn idle(&self, now: u64) -> (r: u64)
        ensures
            r == self.spec_idle(now),
    {
        self.elapsed(now).saturating_sub(self.busy(now))
    }

    pub fn ice(&self, now: u64) -> (r: u64)
        ensures
            r == self.spec_ice(now),
            r == 0 || self.spec_flame(now) == 0,
    {
        self.idle(now).saturating_sub(self.busy(now))
    }

    pub fn flame(&self, now: u64) -> (r: u64)
        ensures
            r == self.spec_flame(now),
            r == 0 || self.spec_ice(now) == 0,
    {
        self.busy(now).saturating_sub(self.idle(now))
    }
}

/// Idle excess and busy excess are never both positive.
pub proof fn lemma_ice_flame_exclusive(t: Timing, now: u64)
    ensures
        t.spec_ice(now) == 0 || t.spec_flame(now) == 0,
{
}

} // verus!

//! Span stall detection: a lifecycle tracker that keeps per-span timing
//! records, defers the eviction of a closed span until its children are
//! gone, and a reporter that ranks the live spans by how long they sit idle.
pub mod layer;
pub mod lemmas;
pub mod report;
pub mod timing;

pub use layer::{Latency, StallLedger, TimingLayer};
pub use timing::{SpanMeta, Timing};
pub use report::{
    ancestors, breadcrumb, dedup, rank, slow_spans, worst_latencies, SlowLine, SlowSpan, MAX_RANKED,
};

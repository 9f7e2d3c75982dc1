use observability::{
    ancestors, breadcrumb, dedup, rank, slow_spans, worst_latencies, Latency, SpanMeta,
    StallLedger, Timing, TimingLayer, MAX_RANKED,
};

const MS: u64 = 1_000_000;

fn meta(name: &str) -> &'static SpanMeta {
    Box::leak(Box::new(SpanMeta {
        name: name.to_string(),
        file: Some("src/work.rs".to_string()),
        line: Some(12),
    }))
}

#[test]
fn fresh_timing_is_all_idle() {
    let t = Timing::new(meta("a"), 100);
    assert_eq!(t.start, 100);
    assert_eq!(t.enter, None);
    assert_eq!(t.p_count, 0);
    assert!(!t.closing);
    assert_eq!(t.elapsed(130), 30);
    assert_eq!(t.busy(130), 0);
    assert_eq!(t.idle(130), 30);
    assert_eq!(t.ice(130), 30);
    assert_eq!(t.flame(130), 0);
}

#[test]
fn metrics_count_the_open_interval() {
    let mut t = Timing::new(meta("a"), 0);
    t.busy = 10;
    t.enter = Some(50);
    // elapsed 80, busy 10 + 30 = 40, idle 40
    assert_eq!(t.busy(80), 40);
    assert_eq!(t.idle(80), 40);
    assert_eq!(t.ice(80), 0);
    assert_eq!(t.flame(80), 0);
    // elapsed 100, busy 60, idle 40
    assert_eq!(t.busy(100), 60);
    assert_eq!(t.idle(100), 40);
    assert_eq!(t.ice(100), 0);
    assert_eq!(t.flame(100), 20);
}

#[test]
fn clock_before_start_saturates() {
    let t = Timing::new(meta("a"), 100);
    assert_eq!(t.elapsed(40), 0);
    assert_eq!(t.idle(40), 0);
    assert_eq!(t.ice(40), 0);
}

#[test]
fn ice_and_flame_never_both_positive() {
    let m = meta("a");
    for busy in [0u64, 5, 50, 500] {
        for enter in [None, Some(10u64), Some(400)] {
            for now in [0u64, 20, 100, 1000] {
                let mut t = Timing::new(m, 0);
                t.busy = busy;
                t.enter = enter;
                assert_eq!(t.ice(now).min(t.flame(now)), 0);
            }
        }
    }
}

#[test]
fn busy_is_the_sum_of_intervals() {
    let mut layer = TimingLayer::new();
    layer.new_span(1, meta("a"), 0);
    let intervals = [(10u64, 15u64), (100, 130), (1000, 1001), (5000, 5000)];
    for (enter, exit) in intervals {
        layer.on_enter(1, enter);
        layer.on_exit(1, None, exit);
    }
    let t = layer.get(1).unwrap();
    assert_eq!(t.enter, None);
    assert_eq!(t.busy, 36);
    assert_eq!(t.busy(9_000_000), 36);
}

#[test]
fn enter_and_exit_of_an_unknown_span_do_nothing() {
    let mut layer = TimingLayer::new();
    layer.on_enter(7, 10);
    layer.on_exit(7, Some(8), 20);
    assert!(layer.get(7).is_none());
    assert!(layer.on_close(7, 30).is_empty());
    assert!(layer.entries().is_empty());
}

#[test]
fn exit_of_an_unknown_span_leaves_a_live_parent_alone() {
    let mut layer = TimingLayer::new();
    layer.new_span(8, meta("p"), 0);
    layer.on_exit(7, Some(8), 20);
    assert!(layer.get(7).is_none());
    assert_eq!(layer.get(8).unwrap().p_count, 0);
}

#[test]
fn creating_a_live_id_again_replaces_the_record() {
    let mut layer = TimingLayer::new();
    layer.new_span(1, meta("a"), 0);
    layer.on_enter(1, 5);
    layer.new_span(1, meta("b"), 9);
    let t = layer.get(1).unwrap();
    assert_eq!(t.start, 9);
    assert_eq!(t.enter, None);
    assert_eq!(t.metadata.name, "b");
    assert_eq!(layer.entries().len(), 1);
}

#[test]
fn exit_sets_parent_and_counts_a_pending_child() {
    let mut layer = TimingLayer::new();
    layer.new_span(1, meta("p"), 0);
    layer.new_span(2, meta("c"), 0);
    layer.on_enter(2, 10);
    layer.on_exit(2, Some(1), 20);
    assert_eq!(layer.get(2).unwrap().parent, Some(1));
    assert_eq!(layer.get(1).unwrap().p_count, 1);
    layer.on_enter(2, 30);
    layer.on_exit(2, Some(1), 40);
    assert_eq!(layer.get(1).unwrap().p_count, 2);
    assert_eq!(layer.get(2).unwrap().busy, 20);
}

#[test]
fn parent_is_replaced_on_each_exit() {
    let mut layer = TimingLayer::new();
    layer.new_span(1, meta("p"), 0);
    layer.new_span(2, meta("q"), 0);
    layer.new_span(3, meta("c"), 0);
    layer.on_exit(3, Some(1), 10);
    layer.on_exit(3, Some(2), 20);
    assert_eq!(layer.get(3).unwrap().parent, Some(2));
    layer.on_exit(3, None, 30);
    assert_eq!(layer.get(3).unwrap().parent, None);
}

#[test]
fn top_level_span_is_evicted_on_close() {
    let mut layer = TimingLayer::new();
    let a = meta("A");
    layer.new_span(1, a, 0);
    layer.on_enter(1, 0);
    layer.on_exit(1, None, 10 * MS);
    let out = layer.on_close(1, 10 * MS);
    assert!(layer.get(1).is_none());
    assert_eq!(out.len(), 1);
    assert_eq!(out[0].id, 1);
    assert_eq!(out[0].metadata.name, "A");
    assert_eq!(out[0].latency, 10 * MS);
    let mut ledger = StallLedger::new();
    ledger.record(out);
    let drained = ledger.drain();
    assert_eq!(drained.len(), 1);
    assert_eq!(drained[0].metadata.name, "A");
    assert_eq!(drained[0].latency, 10 * MS);
    assert!(ledger.drain().is_empty());
}

#[test]
fn short_spans_leave_no_stall_record() {
    let mut layer = TimingLayer::new();
    layer.new_span(1, meta("a"), 0);
    assert!(layer.on_close(1, MS).is_empty());
    assert!(layer.get(1).is_none());
    layer.new_span(2, meta("b"), 0);
    let out = layer.on_close(2, MS + 1);
    assert_eq!(out.len(), 1);
    assert_eq!(out[0].latency, MS + 1);
}

#[test]
fn closing_parent_waits_for_its_child() {
    let mut layer = TimingLayer::new();
    layer.new_span(1, meta("P"), 0);
    layer.new_span(2, meta("C"), MS);
    layer.on_enter(2, MS);
    layer.on_exit(2, Some(1), 2 * MS);
    assert_eq!(layer.get(1).unwrap().p_count, 1);
    assert_eq!(layer.get(2).unwrap().parent, Some(1));

    let out = layer.on_close(1, 3 * MS);
    assert!(out.is_empty());
    let p = layer.get(1).unwrap();
    assert!(p.closing);
    assert_eq!(p.p_count, 1);

    let snap = layer.snapshot();
    let lines = slow_spans(&snap, 3 * MS);
    let c_line = lines.iter().find(|l| l.metadata.name == "C").unwrap();
    assert_eq!(c_line.ancestry, "P: ");

    let out = layer.on_close(2, 5 * MS);
    assert!(layer.get(1).is_none());
    assert!(layer.get(2).is_none());
    assert_eq!(out.len(), 2);
    assert_eq!(out[0].metadata.name, "P");
    assert_eq!(out[0].latency, 5 * MS);
    assert_eq!(out[1].metadata.name, "C");
    assert_eq!(out[1].latency, 4 * MS);
}

#[test]
fn parent_that_did_not_close_only_loses_a_pending_child() {
    let mut layer = TimingLayer::new();
    layer.new_span(1, meta("P"), 0);
    layer.new_span(2, meta("C"), 0);
    layer.on_exit(2, Some(1), 10);
    let out = layer.on_close(2, 20);
    assert!(out.is_empty());
    let p = layer.get(1).unwrap();
    assert_eq!(p.p_count, 0);
    assert!(!p.closing);
}

#[test]
fn re_exited_child_keeps_parent_pending() {
    let mut layer = TimingLayer::new();
    layer.new_span(1, meta("P"), 0);
    layer.new_span(2, meta("C"), 0);
    layer.on_exit(2, Some(1), 10);
    layer.on_exit(2, Some(1), 20);
    layer.on_close(1, 30);
    layer.on_close(2, 40);
    let p = layer.get(1).unwrap();
    assert!(p.closing);
    assert_eq!(p.p_count, 1);
}

#[test]
fn snapshot_is_independent_of_later_events() {
    let mut layer = TimingLayer::new();
    layer.new_span(1, meta("a"), 0);
    let snap = layer.snapshot();
    layer.on_close(1, 10);
    assert!(layer.get(1).is_none());
    assert!(snap.get(1).is_some());
    assert_eq!(snap.entries().len(), 1);
}

#[test]
fn dedup_keeps_the_worst_of_each_name() {
    let mut layer = TimingLayer::new();
    let s = meta("same");
    // At now = 100 ms, a span created at `now - x` and never entered has ice x.
    let now = 100 * MS;
    layer.new_span(1, s, now - 5 * MS);
    layer.new_span(2, s, now - 50 * MS);
    layer.new_span(3, s, now - MS);
    layer.new_span(4, meta("other"), now - 7 * MS);
    let d = dedup(&layer.entries(), now);
    assert_eq!(d.len(), 2);
    let same = d.iter().find(|x| x.timing.metadata.name == "same").unwrap();
    assert_eq!(same.id, 2);
    assert_eq!(same.count, 3);
    assert_eq!(same.timing.ice(now), 50 * MS);
    let other = d.iter().find(|x| x.timing.metadata.name == "other").unwrap();
    assert_eq!(other.count, 1);

    let lines = slow_spans(&layer, now);
    assert_eq!(lines.len(), 2);
    assert_eq!(lines[0].metadata.name, "same");
    assert_eq!(lines[0].count, 3);
    assert_eq!(lines[0].ice, 50 * MS);
    assert_eq!(lines[0].idle, 50 * MS);
    assert_eq!(lines[0].busy, 0);
    assert_eq!(lines[0].flame, 0);
    assert_eq!(lines[1].metadata.name, "other");
    assert_eq!(lines[1].ice, 7 * MS);
}

#[test]
fn rank_orders_and_caps_at_the_limit() {
    let mut layer = TimingLayer::new();
    let now = 1_000_000u64;
    for i in 0..250u64 {
        layer.new_span(i + 1, meta(&format!("span{}", i)), now - (i * 37 % 250) * 10);
    }
    let d = dedup(&layer.entries(), now);
    assert_eq!(d.len(), 250);
    let r = rank(d, now);
    assert_eq!(r.len(), MAX_RANKED);
    for w in r.windows(2) {
        assert!(w[0].timing.ice(now) >= w[1].timing.ice(now));
    }
    assert_eq!(r[0].timing.ice(now), 2490);
    assert_eq!(r[MAX_RANKED - 1].timing.ice(now), 500);
}

#[test]
fn rank_keeps_all_of_a_short_list() {
    let mut layer = TimingLayer::new();
    layer.new_span(1, meta("x"), 90);
    layer.new_span(2, meta("y"), 10);
    layer.new_span(3, meta("z"), 50);
    let r = rank(dedup(&layer.entries(), 100), 100);
    let names: Vec<&str> = r.iter().map(|s| s.timing.metadata.name.as_str()).collect();
    assert_eq!(names, vec!["y", "z", "x"]);
}

#[test]
fn latencies_come_out_worst_first() {
    let m = meta("l");
    let ls: Vec<Latency> = [3u64, 9, 1, 9, 4]
        .iter()
        .enumerate()
        .map(|(i, l)| Latency { id: i as u64, metadata: m, latency: *l })
        .collect();
    let r = worst_latencies(ls);
    let got: Vec<u64> = r.iter().map(|l| l.latency).collect();
    assert_eq!(got, vec![9, 9, 4, 3, 1]);
    assert!(worst_latencies(Vec::new()).is_empty());
}

#[test]
fn ancestry_runs_oldest_first() {
    let mut layer = TimingLayer::new();
    layer.new_span(1, meta("root"), 0);
    layer.new_span(2, meta("mid"), 0);
    layer.new_span(3, meta("leaf"), 0);
    layer.on_exit(2, Some(1), 5);
    layer.on_exit(3, Some(2), 6);
    let up = ancestors(&layer, layer.get(3).unwrap().parent, 3);
    let names: Vec<&str> = up.iter().map(|m| m.name.as_str()).collect();
    assert_eq!(names, vec!["root", "mid"]);
    assert_eq!(breadcrumb(&up), "root: mid: ");
    assert_eq!(breadcrumb(&Vec::new()), "");
}

#[test]
fn ancestry_stops_on_a_cycle() {
    let mut layer = TimingLayer::new();
    layer.new_span(1, meta("a"), 0);
    layer.new_span(2, meta("b"), 0);
    layer.on_exit(1, Some(2), 5);
    layer.on_exit(2, Some(1), 6);
    let up = ancestors(&layer, Some(1), 2);
    assert_eq!(up.len(), 2);
    let lines = slow_spans(&layer, 10);
    assert_eq!(lines.len(), 2);
}

#[test]
fn ancestry_stops_at_an_evicted_parent() {
    let mut layer = TimingLayer::new();
    layer.new_span(2, meta("b"), 0);
    layer.on_exit(2, Some(99), 6);
    let up = ancestors(&layer, layer.get(2).unwrap().parent, 10);
    assert!(up.is_empty());
}

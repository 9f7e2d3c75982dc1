use vstd::multiset::Multiset;
use vstd::prelude::*;

use crate::layer::{is_snapshot, Latency, TimingLayer};
use crate::timing::{SpanMeta, Timing};
use vstd::string::StringExecFns;

verus! {

broadcast use vstd::seq_lib::group_to_multiset_ensures;

/// Most slow spans that one report ranks.
pub const MAX_RANKED: usize = 200;

/// The worst span of one name in a snapshot, with how many spans bear the name.
#[derive(Clone, Copy)]
pub struct SlowSpan {
    pub id: u64,
    pub timing: Timing,
    pub count: usize,
}

pub open spec fn name_of(t: Timing) -> Seq<char> {
    t.metadata.name@
}

/// How many entries of `s` bear the name `name`.
pub open spec fn count_named(s: Seq<(u64, Timing)>, name: Seq<char>) -> nat
    decreases s.len(),
{
    if s.len() == 0 {
        0
    } else {
        count_named(s.drop_last(), name) + if name_of(s.last().1) == name {
            1nat
        } else {
            0nat
        }
    }
}

/// `r` holds, for each name in `s`, one entry of `s` of greatest idle excess
/// at `now` among those of the name, with the number of entries of the name.
pub open spec fn is_dedup(r: Seq<SlowSpan>, s: Seq<(u64, Timing)>, now: u64) -> bool {
    &&& forall|i: int, j: int|
        0 <= i < j < r.len() ==> name_of(r[i].timing) != name_of(r[j].timing)
    &&& forall|j: int|
        0 <= j < r.len() ==> exists|k: int|
            0 <= k < s.len() && s[k] == (#[trigger] r[j].id, r[j].timing)
    &&& forall|j: int|
        0 <= j < r.len() ==> #[trigger] r[j].count == count_named(s, name_of(r[j].timing))
    &&& forall|k: int, j: int|
        #![trigger s[k], r[j]]
        0 <= k < s.len() && 0 <= j < r.len() && name_of(s[k].1) == name_of(r[j].timing)
            ==> s[k].1.spec_ice(now) <= r[j].timing.spec_ice(now)
    &&& forall|k: int|
        0 <= k < s.len() ==> exists|j: int|
            0 <= j < r.len() && name_of(#[trigger] s[k].1) == name_of(r[j].timing)
}

/// Collapses the entries of a snapshot by name, keeping the one of each
/// name that has been idle in excess the longest.
pub fn dedup(entries: &Vec<(u64, Timing)>, now: u64) -> (r: Vec<SlowSpan>)
    ensures
        is_dedup(r@, entries@, now),
{
    let mut out: Vec<SlowSpan> = Vec::new();
    let mut i: usize = 0;
    while i < entries.len()
        invariant
            i <= entries@.len(),
            is_dedup(out@, entries@.take(i as int), now),
            forall|j: int| 0 <= j < out@.len() ==> #[trigger] out@[j].count <= i,
        decreases entries@.len() - i,
    {
        let ghost pre = entries@.take(i as int);
        let ghost post = entries@.take(i as int + 1);
        assert(post.drop_last() =~= pre);
        let (id, t) = entries[i];
        let ice = t.ice(now);
        let mut j: usize = 0;
        let mut found = false;
        while j < out.len() && !found
            invariant
                j <= out@.len(),
                found ==> j < out@.len() && name_of(out@[j as int].timing) == name_of(t),
                forall|q: int| 0 <= q < j && !found ==> name_of(out@[q].timing) != name_of(t),
            decreases out@.len() - j, if found { 0int } else { 1int },
        {
            if out[j].timing.metadata.name == t.metadata.name {
                found = true;
            } else {
                j = j + 1;
            }
        }
        let ghost old_out = out@;
        if found {
            let cur = out[j];
            if ice > cur.timing.ice(now) {
                out.set(j, SlowSpan { id, timing: t, count: cur.count + 1 });
            } else {
                out.set(j, SlowSpan { count: cur.count + 1, ..cur });
            }
            proof {
                assert forall|q: int| 0 <= q < out@.len() && q != j implies #[trigger] out@[q].count
                    == count_named(post, name_of(out@[q].timing)) by {
                    assert(out@[q] == old_out[q]);
                }
                assert(out@[j as int].count == count_named(post, name_of(out@[j as int].timing)));
                assert forall|q: int| 0 <= q < out@.len() implies exists|k: int|
                    0 <= k < post.len() && post[k] == (#[trigger] out@[q].id, out@[q].timing) by {
                    if q == j && ice > cur.timing.spec_ice(now) {
                        assert(post[i as int] == (id, t));
                    } else {
                        let k = choose|k: int|
                            0 <= k < pre.len() && pre[k] == (old_out[q].id, old_out[q].timing);
                        assert(post[k] == pre[k]);
                    }
                }
                assert forall|k: int| 0 <= k < post.len() implies exists|q: int|
                    0 <= q < out@.len() && name_of(#[trigger] post[k].1) == name_of(
                        out@[q].timing,
                    ) by {
                    if k < i {
                        assert(post[k] == pre[k]);
                        let q = choose|q: int|
                            0 <= q < old_out.len() && name_of(pre[k].1) == name_of(
                                old_out[q].timing,
                            );
                        assert(name_of(out@[q].timing) == name_of(old_out[q].timing));
                    } else {
                        assert(name_of(out@[j as int].timing) == name_of(post[k].1));
                    }
                }
                assert forall|k: int, q: int|
                    #![trigger post[k], out@[q]]
                    0 <= k < post.len() && 0 <= q < out@.len() && name_of(post[k].1) == name_of(
                        out@[q].timing,
                    ) implies post[k].1.spec_ice(now) <= out@[q].timing.spec_ice(now) by {
                    if k < i {
                        assert(post[k] == pre[k]);
                        assert(name_of(out@[q].timing) == name_of(old_out[q].timing));
                    }
                }
            }
        } else {
            out.push(SlowSpan { id, timing: t, count: 1 });
            proof {
                assert forall|q: int| 0 <= q < out@.len() implies #[trigger] out@[q].count
                    == count_named(post, name_of(out@[q].timing)) by {
                    if q < old_out.len() {
                        assert(out@[q] == old_out[q]);
                    } else {
                        assert forall|k: int| 0 <= k < pre.len() implies name_of(pre[k].1)
                            != name_of(t) by {
                            if name_of(pre[k].1) == name_of(t) {
                                let q2 = choose|q2: int|
                                    0 <= q2 < old_out.len() && name_of(#[trigger] pre[k].1)
                                        == name_of(old_out[q2].timing);
                                assert(name_of(old_out[q2].timing) != name_of(t));
                            }
                        }
                        lemma_count_named_absent(pre, name_of(t));
                    }
                }
                assert forall|q: int| 0 <= q < out@.len() implies exists|k: int|
                    0 <= k < post.len() && post[k] == (#[trigger] out@[q].id, out@[q].timing) by {
                    if q == old_out.len() {
                        assert(post[i as int] == (id, t));
                    } else {
                        let k = choose|k: int|
                            0 <= k < pre.len() && pre[k] == (old_out[q].id, old_out[q].timing);
                        assert(post[k] == pre[k]);
                    }
                }
                assert forall|k: int| 0 <= k < post.len() implies exists|q: int|
                    0 <= q < out@.len() && name_of(#[trigger] post[k].1) == name_of(
                        out@[q].timing,
                    ) by {
                    if k < i {
                        assert(post[k] == pre[k]);
                        let q = choose|q: int|
                            0 <= q < old_out.len() && name_of(pre[k].1) == name_of(
                                old_out[q].timing,
                            );
                        assert(out@[q] == old_out[q]);
                    } else {
                        assert(name_of(out@[old_out.len() as int].timing) == name_of(post[k].1));
                    }
                }
                assert forall|k: int, q: int|
                    #![trigger post[k], out@[q]]
                    0 <= k < post.len() && 0 <= q < out@.len() && name_of(post[k].1) == name_of(
                        out@[q].timing,
                    ) implies post[k].1.spec_ice(now) <= out@[q].timing.spec_ice(now) by {
                    if k < i {
                        assert(post[k] == pre[k]);
                        if q == old_out.len() {
                            let q2 = choose|q2: int|
                                0 <= q2 < old_out.len() && name_of(#[trigger] pre[k].1)
                                    == name_of(old_out[q2].timing);
                            assert(name_of(old_out[q2].timing) != name_of(t));
                        } else {
                            assert(out@[q] == old_out[q]);
                        }
                    }
                }
            }
        }
        i = i + 1;
    }
    assert(entries@.take(entries@.len() as int) =~= entries@);
    out
}

/// `s` runs from the greatest idle excess at `now` to the least.
pub open spec fn ranked_by_ice(s: Seq<SlowSpan>, now: u64) -> bool {
    forall|i: int, j: int|
        #![trigger s[i], s[j]]
        0 <= i < j < s.len() ==> s[j].timing.spec_ice(now) <= s[i].timing.spec_ice(now)
}

/// `r` is the first `MAX_RANKED` of `spans` ordered from the greatest idle
/// excess at `now` down: a part of `spans`, of `MAX_RANKED` entries where there
/// are so many, ordered, and no entry left out exceeds one taken.
pub open spec fn is_ranking(r: Seq<SlowSpan>, spans: Seq<SlowSpan>, now: u64) -> bool {
    &&& r.len() == if spans.len() < MAX_RANKED {
        spans.len()
    } else {
        MAX_RANKED as nat
    }
    &&& ranked_by_ice(r, now)
    &&& r.to_multiset().subset_of(spans.to_multiset())
    &&& forall|x: SlowSpan, j: int|
        0 <= j < r.len() && r.to_multiset().count(x) < #[trigger] spans.to_multiset().count(x)
            ==> x.timing.spec_ice(now) <= #[trigger] r[j].timing.spec_ice(now)
}

/// Index of an entry of greatest idle excess at `now`.
fn index_of_max_ice(v: &Vec<SlowSpan>, now: u64) -> (r: usize)
    requires
        v@.len() > 0,
    ensures
        r < v@.len(),
        forall|k: int| 0 <= k < v@.len() ==> v@[k].timing.spec_ice(now) <= #[trigger] v@[r as int].timing.spec_ice(now),
{
    let mut best: usize = 0;
    let mut best_ice = v[0].timing.ice(now);
    let mut i: usize = 1;
    while i < v.len()
        invariant
            1 <= i <= v@.len(),
            best < v@.len(),
            best_ice == v@[best as int].timing.spec_ice(now),
            forall|k: int| 0 <= k < i ==> v@[k].timing.spec_ice(now) <= best_ice,
        decreases v@.len() - i,
    {
        let ice = v[i].timing.ice(now);
        if ice > best_ice {
            best = i;
            best_ice = ice;
        }
        i = i + 1;
    }
    best
}

/// Orders the spans from the greatest idle excess down and keeps the first
/// `MAX_RANKED`.
pub fn rank(spans: Vec<SlowSpan>, now: u64) -> (r: Vec<SlowSpan>)
    ensures
        is_ranking(r@, spans@, now),
{
    let ghost all = spans@;
    let mut rest = spans;
    let mut out: Vec<SlowSpan> = Vec::new();
    while out.len() < MAX_RANKED && rest.len() > 0
        invariant
            out@.len() <= MAX_RANKED,
            out@.len() + rest@.len() == all.len(),
            out@.to_multiset().add(rest@.to_multiset()) == all.to_multiset(),
            ranked_by_ice(out@, now),
            forall|a: int, b: int|
                0 <= a < out@.len() && 0 <= b < rest@.len() ==> #[trigger] rest@[b].timing.spec_ice(now)
                    <= #[trigger] out@[a].timing.spec_ice(now),
        decreases rest@.len(),
    {
        let k = index_of_max_ice(&rest, now);
        let ghost old_rest = rest@;
        let ghost old_out = out@;
        let x = rest.remove(k);
        out.push(x);
        proof {
            assert(old_rest.remove(k as int) == rest@);
            assert(out@.to_multiset().add(rest@.to_multiset()) =~= all.to_multiset());
            assert forall|a: int, b: int|
                0 <= a < out@.len() && 0 <= b < rest@.len() implies #[trigger] rest@[b].timing.spec_ice(now)
                    <= #[trigger] out@[a].timing.spec_ice(now) by {
                if b < k {
                    assert(rest@[b] == old_rest[b]);
                } else {
                    assert(rest@[b] == old_rest[b + 1]);
                }
                if a < old_out.len() {
                    assert(out@[a] == old_out[a]);
                }
            }
            assert forall|i: int, j: int|
                #![trigger out@[i], out@[j]]
                0 <= i < j < out@.len() implies out@[j].timing.spec_ice(now) <= out@[i].timing.spec_ice(now) by {
                if j < old_out.len() {
                    assert(out@[j] == old_out[j]);
                    assert(out@[i] == old_out[i]);
                } else {
                    assert(out@[i] == old_out[i]);
                    assert(out@[j] == old_rest[k as int]);
                }
            }
        }
    }
    proof {
        assert forall|x: SlowSpan, j: int|
            0 <= j < out@.len() && out@.to_multiset().count(x) < #[trigger] all.to_multiset().count(x)
                implies x.timing.spec_ice(now) <= #[trigger] out@[j].timing.spec_ice(now) by {
            assert(rest@.to_multiset().count(x) > 0);
            assert(rest@.contains(x));
            let b = choose|b: int| 0 <= b < rest@.len() && rest@[b] == x;
            assert(rest@[b].timing.spec_ice(now) <= out@[j].timing.spec_ice(now));
        }
    }
    out
}

/// `s` runs from the longest lifespan to the shortest.
pub open spec fn worst_first(s: Seq<Latency>) -> bool {
    forall|i: int, j: int| #![trigger s[i], s[j]] 0 <= i < j < s.len() ==> s[j].latency <= s[i].latency
}

/// Merges two runs ordered from the longest lifespan down into one.
fn merge_worst_first(a: Vec<Latency>, b: Vec<Latency>) -> (r: Vec<Latency>)
    requires
        worst_first(a@),
        worst_first(b@),
    ensures
        r@.to_multiset() == a@.to_multiset().add(b@.to_multiset()),
        worst_first(r@),
{
    let mut out: Vec<Latency> = Vec::new();
    let mut i: usize = 0;
    let mut j: usize = 0;
    while i < a.len() || j < b.len()
        invariant
            i <= a@.len(),
            j <= b@.len(),
            worst_first(a@),
            worst_first(b@),
            worst_first(out@),
            out@.len() == i + j,
            out@.to_multiset() == a@.take(i as int).to_multiset().add(
                b@.take(j as int).to_multiset(),
            ),
            out@.len() > 0 && i < a@.len() ==> a@[i as int].latency <= out@.last().latency,
            out@.len() > 0 && j < b@.len() ==> b@[j as int].latency <= out@.last().latency,
        decreases a@.len() + b@.len() - i - j,
    {
        let ghost old_out = out@;
        let take_a = j >= b.len() || (i < a.len() && a[i].latency >= b[j].latency);
        if take_a {
            out.push(a[i]);
            proof {
                assert(a@.take(i as int + 1) =~= a@.take(i as int).push(a@[i as int]));
            }
            i = i + 1;
        } else {
            out.push(b[j]);
            proof {
                assert(b@.take(j as int + 1) =~= b@.take(j as int).push(b@[j as int]));
            }
            j = j + 1;
        }
        proof {
            assert forall|x: int, y: int|
                #![trigger out@[x], out@[y]]
                0 <= x < y < out@.len() implies out@[y].latency <= out@[x].latency by {
                if y < old_out.len() {
                    assert(out@[x] == old_out[x] && out@[y] == old_out[y]);
                } else if x < old_out.len() - 1 {
                    assert(out@[x] == old_out[x]);
                    assert(old_out[old_out.len() - 1].latency <= old_out[x].latency);
                } else if x == old_out.len() - 1 {
                    assert(out@[x] == old_out.last());
                }
            }
            assert(out@.to_multiset() =~= a@.take(i as int).to_multiset().add(
                b@.take(j as int).to_multiset(),
            ));
        }
    }
    proof {
        assert(a@.take(i as int) =~= a@);
        assert(b@.take(j as int) =~= b@);
    }
    out
}

/// Orders drained stall records from the longest lifespan down.
pub fn worst_latencies(latencies: Vec<Latency>) -> (r: Vec<Latency>)
    ensures
        r@.to_multiset() == latencies@.to_multiset(),
        worst_first(r@),
    decreases latencies@.len(),
{
    let mut left = latencies;
    if left.len() <= 1 {
        return left;
    }
    let ghost all = left@;
    let mid = left.len() / 2;
    let right = left.split_off(mid);
    proof {
        assert(all =~= left@ + right@);
        vstd::seq_lib::lemma_multiset_commutative(left@, right@);
    }
    let left = worst_latencies(left);
    let right = worst_latencies(right);
    merge_worst_first(left, right)
}

/// The metadata of the spans reached by following parent links from
/// `parent` through `m`, at most `fuel` of them, oldest ancestor first.
pub open spec fn ancestors_of(m: Map<u64, Timing>, parent: Option<u64>, fuel: nat) -> Seq<
    &'static SpanMeta,
>
    decreases fuel,
{
    match parent {
        Some(p) => if fuel > 0 && m.contains_key(p) {
            ancestors_of(m, m[p].parent, (fuel - 1) as nat).push(m[p].metadata)
        } else {
            seq![]
        },
        None => seq![],
    }
}

/// Each name followed by `": "`.
pub open spec fn breadcrumb_of(s: Seq<&'static SpanMeta>) -> Seq<char>
    decreases s.len(),
{
    if s.len() == 0 {
        seq![]
    } else {
        breadcrumb_of(s.drop_last()) + s.last().name@ + seq![':', ' ']
    }
}

/// Follows parent links from `parent` through the snapshot, at most `fuel`
/// steps, so that a cycle of links ends the walk too.
pub fn ancestors(snap: &TimingLayer, parent: Option<u64>, fuel: usize) -> (r: Vec<
    &'static SpanMeta,
>)
    ensures
        r@ == ancestors_of(snap@, parent, fuel as nat),
{
    let mut out: Vec<&'static SpanMeta> = Vec::new();
    let mut cur = parent;
    let mut left = fuel;
    while left > 0
        invariant
            ancestors_of(snap@, parent, fuel as nat) == ancestors_of(snap@, cur, left as nat)
                + out@,
        ensures
            ancestors_of(snap@, parent, fuel as nat) =~= out@,
        decreases left,
    {
        let p = match cur {
            Some(p) => p,
            None => break,
        };
        let t = match snap.get(p) {
            Some(t) => t,
            None => break,
        };
        let ghost old_out = out@;
        out.insert(0, t.metadata);
        proof {
            let rest = ancestors_of(snap@, t.parent, (left - 1) as nat);
            assert(rest.push(t.metadata) + old_out =~= rest + out@);
        }
        cur = t.parent;
        left = left - 1;
    }
    out
}

/// The breadcrumb of an ancestry: each name followed by `": "`.
pub fn breadcrumb(ancestors: &Vec<&'static SpanMeta>) -> (r: String)
    ensures
        r@ == breadcrumb_of(ancestors@),
{
    let mut r = String::new();
    let mut i: usize = 0;
    while i < ancestors.len()
        invariant
            i <= ancestors@.len(),
            r@ == breadcrumb_of(ancestors@.take(i as int)),
        decreases ancestors@.len() - i,
    {
        proof {
            reveal_strlit(": ");
            assert(ancestors@.take(i as int + 1).drop_last() =~= ancestors@.take(i as int));
        }
        r.append(ancestors[i].name.as_str());
        r.append(": ");
        i = i + 1;
    }
    assert(ancestors@.take(i as int) =~= ancestors@);
    r
}

/// One line of the slow-span report.
pub struct SlowLine {
    /// How many live spans bear the name.
    pub count: usize,
    /// The names of the ancestors, oldest first, each followed by `": "`.
    pub ancestry: String,
    pub metadata: &'static SpanMeta,
    pub idle: u64,
    pub busy: u64,
    pub ice: u64,
    pub flame: u64,
}

/// `line` reports `s` at `now`, with its ancestry through `m`.
pub open spec fn reports(line: SlowLine, s: SlowSpan, m: Map<u64, Timing>, now: u64) -> bool {
    &&& line.count == s.count
    &&& line.metadata == s.timing.metadata
    &&& line.ancestry@ == breadcrumb_of(ancestors_of(m, s.timing.parent, m.dom().len()))
    &&& line.idle == s.timing.spec_idle(now)
    &&& line.busy == s.timing.spec_busy(now)
    &&& line.ice == s.timing.spec_ice(now)
    &&& line.flame == s.timing.spec_flame(now)
}

/// The slow-span report of a snapshot at `now`: the spans collapsed by name,
/// the worst of each name kept, the first `MAX_RANKED` from the greatest idle
/// excess down, each with its ancestry.
pub fn slow_spans(snap: &TimingLayer, now: u64) -> (r: Vec<SlowLine>)
    ensures
        exists|e: Seq<(u64, Timing)>, d: Seq<SlowSpan>, k: Seq<SlowSpan>|
            {
                &&& is_snapshot(e, snap@)
                &&& is_dedup(d, e, now)
                &&& is_ranking(k, d, now)
                &&& r@.len() == k.len()
                &&& forall|i: int| 0 <= i < k.len() ==> reports(#[trigger] r@[i], k[i], snap@, now)
            },
{
    let entries = snap.entries();
    let fuel = entries.len();
    let d = dedup(&entries, now);
    let ghost dv = d@;
    let k = rank(d, now);
    let mut out: Vec<SlowLine> = Vec::new();
    let mut i: usize = 0;
    while i < k.len()
        invariant
            i <= k@.len(),
            fuel == snap@.dom().len(),
            out@.len() == i,
            forall|q: int| 0 <= q < i ==> reports(#[trigger] out@[q], k@[q], snap@, now),
        decreases k@.len() - i,
    {
        let s = k[i];
        let up = ancestors(snap, s.timing.parent, fuel);
        out.push(
            SlowLine {
                count: s.count,
                ancestry: breadcrumb(&up),
                metadata: s.timing.metadata,
                idle: s.timing.idle(now),
                busy: s.timing.busy(now),
                ice: s.timing.ice(now),
                flame: s.timing.flame(now),
            },
        );
        proof {
            assert forall|q: int| 0 <= q < i + 1 implies reports(#[trigger] out@[q], k@[q], snap@, now) by {
            }
        }
        i = i + 1;
    }
    assert(is_snapshot(entries@, snap@) && is_dedup(dv, entries@, now) && is_ranking(k@, dv, now));
    out
}

proof fn lemma_count_named_absent(s: Seq<(u64, Timing)>, name: Seq<char>)
    requires
        forall|k: int| 0 <= k < s.len() ==> name_of(#[trigger] s[k].1) != name,
    ensures
        count_named(s, name) == 0,
    decreases s.len(),
{
    if s.len() > 0 {
        lemma_count_named_absent(s.drop_last(), name);
    }
}

} // verus!

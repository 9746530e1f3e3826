//! Request-time policy stages, as free functions over a graph.
use vstd::prelude::*;
use crate::graph::{
    deadend_filtered, hidden_at, in_rollout, lemma_filter_idempotent, lemma_filter_subset,
    rollout_end, rollout_minutes, rollout_start, rollout_value, throttled, CincinnatiPayload, Graph,
};
use crate::parse::PPB;
use crate::wariness::{fnv1a, wariness, wariness_of};
use vstd::string::StringSliceAdditionalSpecFns;

verus! {

/// Prunes outgoing edges from dead-end nodes.
pub fn filter_deadends(input: Graph) -> (r: Graph)
    ensures
        r.nodes@ == input.nodes@,
        r.edges@ == deadend_filtered(input.nodes@, input.edges@),
{
    input.filter_deadends()
}

/// The graph offered to the client with UUID `node_uuid`: rollout throttling
/// at the client's wariness, then dead-end filtering.
pub fn graph_for_client(graph: Graph, node_uuid: &str) -> (r: Graph)
    ensures
        r.nodes@ == graph.nodes@,
        exists|now: i64| r.edges@ == deadend_filtered(
            graph.nodes@,
            throttled(graph.nodes@, graph.edges@, wariness_of(fnv1a(node_uuid.spec_bytes())), now as int),
        ),
{
    let w = wariness(node_uuid);
    filter_deadends(graph.throttle_rollouts(w))
}

/// Both policy stages together keep every node and only drop edges.
pub proof fn policy_only_prunes(nodes: Seq<CincinnatiPayload>, edges: Seq<(u64, u64)>, w: int, now: int)
    ensures
        forall|e: (u64, u64)| #[trigger] deadend_filtered(nodes, throttled(nodes, edges, w, now)).contains(e) ==> edges.contains(e),
        deadend_filtered(nodes, throttled(nodes, edges, w, now)).len() <= edges.len(),
{
    let t = throttled(nodes, edges, w, now);
    lemma_filter_subset(edges, |e: (u64, u64)| !crate::graph::enters_hidden(nodes, w, now, e));
    lemma_filter_subset(t, |e: (u64, u64)| !crate::graph::leaves_deadend(nodes, e));
    edges.lemma_filter_len(|e: (u64, u64)| !crate::graph::enters_hidden(nodes, w, now, e));
    t.lemma_filter_len(|e: (u64, u64)| !crate::graph::leaves_deadend(nodes, e));
}

/// Filtering dead ends twice is filtering once; throttling twice at the same
/// wariness within the same second is throttling once.
pub proof fn policy_idempotent(nodes: Seq<CincinnatiPayload>, edges: Seq<(u64, u64)>, w: int, now: int)
    ensures
        deadend_filtered(nodes, deadend_filtered(nodes, edges)) == deadend_filtered(nodes, edges),
        throttled(nodes, throttled(nodes, edges, w, now), w, now) == throttled(nodes, edges, w, now),
{
    lemma_filter_idempotent(edges, |e: (u64, u64)| !crate::graph::leaves_deadend(nodes, e));
    lemma_filter_idempotent(edges, |e: (u64, u64)| !crate::graph::enters_hidden(nodes, w, now, e));
}

/// From time `t` on, and only from then, node `n` is offered to a client of wariness `w`.
pub open spec fn revealed_from(n: CincinnatiPayload, w: int, t: int) -> bool {
    forall|now: int| i64::MIN <= now <= i64::MAX ==> (#[trigger] hidden_at(n, w, now) <==> now < t)
}

proof fn lemma_ceil_div(a: int, b: int, x: int)
    requires
        a > 0,
        b > 0,
        x >= 0,
    ensures
        (b * x < a) == (x < (a + b - 1) / b),
{
    let k = (a + b - 1) / b;
    let r = (a + b - 1) % b;
    assert(a + b - 1 == k * b + r && 0 <= r < b) by {
        vstd::arithmetic::div_mod::lemma_fundamental_div_mod(a + b - 1, b);
    }
    if x < k {
        assert(b * x < a) by (nonlinear_arith)
            requires x < k, a + b - 1 == k * b + r, 0 <= r < b, b > 0;
    } else {
        assert(b * x >= a) by (nonlinear_arith)
            requires x >= k, a + b - 1 == k * b + r, 0 <= r < b, b > 0;
    }
}

/// A node rolled out with a duration is hidden from a client of wariness
/// `0 < w < 1` up to a single time within the ramp, and offered from then on.
pub proof fn rollout_reveals_once(n: CincinnatiPayload, w: int)
    requires
        in_rollout(n),
        rollout_minutes(n) is Some,
        0 < w < PPB,
    ensures
        exists|t: int| rollout_start(n) <= t <= rollout_end(rollout_start(n), rollout_minutes(n)->0) && #[trigger] revealed_from(n, w, t),
        forall|t1: int, t2: int|
            i64::MIN <= t1 <= i64::MAX && i64::MIN <= t2 <= i64::MAX && #[trigger] revealed_from(n, w, t1) && #[trigger] revealed_from(n, w, t2) ==> t1 == t2,
{
    let start = rollout_start(n);
    let s = rollout_value(n);
    let end = rollout_end(start, rollout_minutes(n)->0);
    let d = end - start;
    let a = (w - s) * d;
    let b = PPB - s;
    match crate::graph::meta(n, crate::metadata::START_EPOCH@) {
        Some(text) => crate::parse::lemma_parse_i64_range(text),
        None => {},
    }
    assert(d >= 0);
    let t = if a <= 0 { start } else { start + (a + b - 1) / b };
    if a > 0 {
        assert(w - s > 0 && d > 0) by (nonlinear_arith)
            requires a == (w - s) * d, a > 0, d >= 0;
        assert(b > 0);
        assert(a < b * d) by (nonlinear_arith)
            requires a == (w - s) * d, b == PPB - s, w < PPB, d > 0;
        lemma_ceil_div(a, b, d);
        assert((a + b - 1) / b >= 0) by (nonlinear_arith)
            requires a > 0, b > 0;
    }
    assert forall|now: int| i64::MIN <= now <= i64::MAX implies (#[trigger] hidden_at(n, w, now) <==> now < t) by {
        if start <= now <= end {
            let x = now - start;
            if a > 0 {
                lemma_ceil_div(a, b, x);
                assert(b * x == (PPB - s) * (now - start));
            } else if b >= 0 {
                assert(b * x >= 0) by (nonlinear_arith)
                    requires b >= 0, x >= 0;
            } else {
                assert((PPB - s) * (now - start) >= (PPB - s) * d) by (nonlinear_arith)
                    requires PPB - s < 0, 0 <= now - start <= d;
                assert((w - s) * d <= (PPB - s) * d) by (nonlinear_arith)
                    requires w < PPB, d >= 0;
            }
        }
    }
    assert(revealed_from(n, w, t));
    assert forall|t1: int, t2: int|
        i64::MIN <= t1 <= i64::MAX && i64::MIN <= t2 <= i64::MAX && #[trigger] revealed_from(n, w, t1) && #[trigger] revealed_from(n, w, t2) implies t1 == t2 by {
        if t1 < t2 {
            assert(hidden_at(n, w, t1) <==> t1 < t2);
        } else if t2 < t1 {
            assert(hidden_at(n, w, t2) <==> t2 < t1);
        }
    }
}

} // verus!

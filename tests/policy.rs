use dumnati::graph::{CincinnatiPayload, Graph};
use dumnati::metadata::{DEADEND, DURATION, START_EPOCH, START_VALUE};
use dumnati::parse::PPB;
use dumnati::policy::{filter_deadends, graph_for_client};

fn node(version: &str, meta: &[(&str, &str)]) -> CincinnatiPayload {
    CincinnatiPayload {
        version: version.to_string(),
        metadata: meta
            .iter()
            .map(|(k, v)| (k.to_string(), v.to_string()))
            .collect(),
        payload: format!("c{}", version),
    }
}

/// Node 0 is rolled out from 1000 over 10 minutes from 0.0; edge (1, 0) leads to it.
fn ramp_graph() -> Graph {
    Graph {
        nodes: vec![
            node(
                "new",
                &[
                    (START_EPOCH, "1000"),
                    (START_VALUE, "0.0"),
                    (DURATION, "10"),
                ],
            ),
            node("old", &[]),
        ],
        edges: vec![(1, 0)],
    }
}

fn deadend_graph() -> Graph {
    Graph {
        nodes: vec![
            node("c", &[]),
            node("b", &[(DEADEND, "true")]),
            node("a", &[]),
        ],
        edges: vec![(2, 1), (1, 0), (2, 0)],
    }
}

#[test]
fn deadend_outgoing_edges_are_pruned() {
    let g = deadend_graph().filter_deadends();
    assert_eq!(g.nodes.len(), 3);
    assert_eq!(g.edges, vec![(2, 1), (2, 0)]);
}

#[test]
fn policy_filter_deadends_matches_method() {
    let g = filter_deadends(deadend_graph());
    assert_eq!(g.edges, vec![(2, 1), (2, 0)]);
}

#[test]
fn deadend_flag_other_than_true_is_ignored() {
    let g = Graph {
        nodes: vec![node("b", &[]), node("a", &[(DEADEND, "false")])],
        edges: vec![(1, 0)],
    };
    assert_eq!(g.filter_deadends().edges, vec![(1, 0)]);
}

#[test]
fn filter_deadends_is_idempotent() {
    let once = deadend_graph().filter_deadends();
    let twice = once.snapshot().filter_deadends();
    assert_eq!(once.edges, twice.edges);
}

#[test]
fn ramp_midpoint_keeps_low_wariness() {
    let g = ramp_graph().throttle_rollouts_at(400_000_000, 1300);
    assert_eq!(g.edges, vec![(1, 0)]);
}

#[test]
fn ramp_midpoint_hides_high_wariness() {
    let g = ramp_graph().throttle_rollouts_at(600_000_000, 1300);
    assert!(g.edges.is_empty());
}

#[test]
fn ramp_midpoint_exact_half_is_offered() {
    let g = ramp_graph().throttle_rollouts_at(500_000_000, 1300);
    assert_eq!(g.edges, vec![(1, 0)]);
    let g = ramp_graph().throttle_rollouts_at(500_000_001, 1300);
    assert!(g.edges.is_empty());
}

#[test]
fn before_start_hides_every_client() {
    let g = ramp_graph().throttle_rollouts_at(1, 999);
    assert!(g.edges.is_empty());
}

#[test]
fn after_end_hides_no_client() {
    let g = ramp_graph().throttle_rollouts_at(PPB, 1601);
    assert_eq!(g.edges, vec![(1, 0)]);
}

#[test]
fn without_duration_rollout_stays_at_start_value() {
    let g = Graph {
        nodes: vec![
            node("new", &[(START_EPOCH, "1000"), (START_VALUE, "0.3")]),
            node("old", &[]),
        ],
        edges: vec![(1, 0)],
    };
    let late = g.snapshot().throttle_rollouts_at(300_000_000, 1_000_000_000);
    assert_eq!(late.edges, vec![(1, 0)]);
    let wary = g.throttle_rollouts_at(300_000_001, 1_000_000_000);
    assert!(wary.edges.is_empty());
}

#[test]
fn unreadable_rollout_fields_use_defaults() {
    // Epoch unreadable: 0; value unreadable: 0; duration unreadable: none.
    let g = Graph {
        nodes: vec![
            node(
                "new",
                &[(START_EPOCH, "soon"), (START_VALUE, "half"), (DURATION, "x")],
            ),
            node("old", &[]),
        ],
        edges: vec![(1, 0)],
    };
    let out = g.throttle_rollouts_at(1_000, 5);
    assert!(out.edges.is_empty());
}

#[test]
fn zero_duration_is_one_minute() {
    let g = Graph {
        nodes: vec![
            node(
                "new",
                &[(START_EPOCH, "1000"), (START_VALUE, "0"), (DURATION, "0")],
            ),
            node("old", &[]),
        ],
        edges: vec![(1, 0)],
    };
    // Half-way through a one-minute ramp.
    let mid = g.snapshot().throttle_rollouts_at(500_000_000, 1030);
    assert_eq!(mid.edges, vec![(1, 0)]);
    let early = g.throttle_rollouts_at(500_000_001, 1030);
    assert!(early.edges.is_empty());
}

#[test]
fn node_outside_rollout_is_never_hidden() {
    let g = Graph {
        nodes: vec![node("new", &[]), node("old", &[])],
        edges: vec![(1, 0)],
    };
    assert_eq!(g.throttle_rollouts_at(PPB, i64::MIN).edges, vec![(1, 0)]);
}

#[test]
fn throttling_twice_in_same_second_is_throttling_once() {
    let once = ramp_graph().throttle_rollouts_at(450_000_000, 1300);
    let twice = once.snapshot().throttle_rollouts_at(450_000_000, 1300);
    assert_eq!(once.edges, twice.edges);
}

#[test]
fn policy_keeps_nodes_and_only_drops_edges() {
    let mut g = deadend_graph();
    g.nodes[0] = node(
        "c",
        &[(START_EPOCH, "1000"), (START_VALUE, "0.0"), (DURATION, "10")],
    );
    let input_edges = g.edges.clone();
    let versions: Vec<String> = g.nodes.iter().map(|n| n.version.clone()).collect();
    let out = g.throttle_rollouts_at(600_000_000, 1300).filter_deadends();
    let out_versions: Vec<String> = out.nodes.iter().map(|n| n.version.clone()).collect();
    assert_eq!(versions, out_versions);
    assert_eq!(out.edges, vec![(2, 1)]);
    assert!(out.edges.iter().all(|e| input_edges.contains(e)));
}

#[test]
fn ramp_reveals_node_once() {
    let w = 250_000_000;
    let visible: Vec<bool> = (990..1700)
        .map(|now| !ramp_graph().throttle_rollouts_at(w, now).edges.is_empty())
        .collect();
    let first = visible.iter().position(|v| *v).unwrap();
    assert!(visible[..first].iter().all(|v| !*v));
    assert!(visible[first..].iter().all(|v| *v));
    // A quarter of the way through the ramp: 1000 + 150.
    assert_eq!(990 + first as i64, 1150);
}

#[test]
fn rollout_long_finished_is_offered_now() {
    let g = Graph {
        nodes: vec![
            node("new", &[(START_EPOCH, "1000"), (START_VALUE, "0.0"), (DURATION, "1")]),
            node("old", &[]),
        ],
        edges: vec![(1, 0)],
    };
    assert_eq!(g.throttle_rollouts(PPB).edges, vec![(1, 0)]);
}

#[test]
fn rollout_far_in_future_is_hidden_now() {
    let g = Graph {
        nodes: vec![
            node("new", &[(START_EPOCH, "9000000000000"), (START_VALUE, "1")]),
            node("old", &[]),
        ],
        edges: vec![(1, 0)],
    };
    assert!(g.throttle_rollouts(1_000).edges.is_empty());
}

#[test]
fn client_graph_applies_both_stages() {
    let mut g = deadend_graph();
    g.nodes[0] = node("c", &[(START_EPOCH, "9000000000000"), (START_VALUE, "1")]);
    let out = graph_for_client(g, "some-uuid");
    assert_eq!(out.nodes.len(), 3);
    assert_eq!(out.edges, vec![(2, 1)]);
}

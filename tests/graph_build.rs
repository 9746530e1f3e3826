use dumnati::error::ServiceError;
use dumnati::graph::Graph;
use dumnati::metadata::{
    get, Release, ReleaseCommit, UpdateDeadend, UpdateRollout, Updates, AGE_INDEX, DEADEND,
    DEADEND_REASON, DURATION, SCHEME, START_EPOCH, START_VALUE,
};

fn release(version: &str, arch: &str, checksum: &str) -> Release {
    Release {
        commits: vec![ReleaseCommit {
            architecture: arch.to_string(),
            checksum: checksum.to_string(),
        }],
        version: version.to_string(),
        metadata: String::new(),
    }
}

fn no_updates() -> Updates {
    Updates {
        barriers: vec![],
        deadends: vec![],
        rollouts: vec![],
    }
}

fn meta<'a>(g: &'a Graph, i: usize, key: &str) -> Option<&'a str> {
    get(&g.nodes[i].metadata, key).map(|s| s.as_str())
}

#[test]
fn empty_inputs_give_empty_graph() {
    let g = Graph::from_metadata(vec![], no_updates(), "x86_64").unwrap();
    assert!(g.nodes.is_empty());
    assert!(g.edges.is_empty());
}

#[test]
fn deadend_annotation_uses_generic_reason() {
    let mut updates = no_updates();
    updates.deadends.push(UpdateDeadend {
        version: "A".to_string(),
        reason: String::new(),
    });
    let g = Graph::from_metadata(vec![release("A", "x86_64", "cA")], updates, "x86_64").unwrap();
    assert_eq!(g.nodes.len(), 1);
    assert_eq!(meta(&g, 0, DEADEND), Some("true"));
    assert_eq!(meta(&g, 0, DEADEND_REASON), Some("generic"));
}

#[test]
fn deadend_reason_first_match_wins() {
    let mut updates = no_updates();
    updates.deadends.push(UpdateDeadend {
        version: "A".to_string(),
        reason: "broken".to_string(),
    });
    updates.deadends.push(UpdateDeadend {
        version: "A".to_string(),
        reason: "other".to_string(),
    });
    let g = Graph::from_metadata(
        vec![release("A", "x86_64", "cA"), release("B", "x86_64", "cB")],
        updates,
        "x86_64",
    )
    .unwrap();
    assert_eq!(meta(&g, 0, DEADEND_REASON), Some("broken"));
    assert_eq!(meta(&g, 1, DEADEND), None);
    assert_eq!(meta(&g, 1, DEADEND_REASON), None);
}

#[test]
fn nodes_carry_scheme_age_index_and_payload() {
    let releases: Vec<Release> = (0..12)
        .map(|i| release(&format!("v{}", i), "x86_64", &format!("c{}", i)))
        .collect();
    let g = Graph::from_metadata(releases, no_updates(), "x86_64").unwrap();
    assert_eq!(g.nodes.len(), 12);
    for i in 0..12 {
        assert_eq!(meta(&g, i, SCHEME), Some("checksum"));
        assert_eq!(meta(&g, i, AGE_INDEX), Some(i.to_string().as_str()));
        assert_eq!(g.nodes[i].version, format!("v{}", i));
        assert_eq!(g.nodes[i].payload, format!("c{}", i));
        assert_eq!(g.nodes[i].metadata.len(), 2);
    }
    assert!(g.edges.is_empty());
}

#[test]
fn commit_is_selected_by_architecture() {
    let r = Release {
        commits: vec![
            ReleaseCommit {
                architecture: "aarch64".to_string(),
                checksum: "arm".to_string(),
            },
            ReleaseCommit {
                architecture: "x86_64".to_string(),
                checksum: "intel".to_string(),
            },
        ],
        version: "A".to_string(),
        metadata: String::new(),
    };
    let g = Graph::from_metadata(vec![r], no_updates(), "x86_64").unwrap();
    assert_eq!(g.nodes[0].payload, "intel");
}

#[test]
fn missing_arch_commit_fails_with_first_version() {
    let releases = vec![
        release("A", "x86_64", "cA"),
        release("B", "aarch64", "cB"),
        release("C", "s390x", "cC"),
    ];
    let err = Graph::from_metadata(releases, no_updates(), "x86_64").err().unwrap();
    assert_eq!(err, ServiceError::MissingArchCommit("B".to_string()));
}

#[test]
fn release_without_commits_fails() {
    let r = Release {
        commits: vec![],
        version: "A".to_string(),
        metadata: String::new(),
    };
    let err = Graph::from_metadata(vec![r], no_updates(), "x86_64").err().unwrap();
    assert_eq!(err, ServiceError::MissingArchCommit("A".to_string()));
}

#[test]
fn rollout_fields_are_copied_verbatim_last_writer_wins() {
    let mut updates = no_updates();
    updates.rollouts.push(UpdateRollout {
        version: "A".to_string(),
        start_epoch: "1000".to_string(),
        start_value: "0.0".to_string(),
        duration_minutes: Some("10".to_string()),
    });
    updates.rollouts.push(UpdateRollout {
        version: "A".to_string(),
        start_epoch: "2000".to_string(),
        start_value: "0.50".to_string(),
        duration_minutes: None,
    });
    updates.rollouts.push(UpdateRollout {
        version: "B".to_string(),
        start_epoch: "3000".to_string(),
        start_value: "0.1".to_string(),
        duration_minutes: None,
    });
    let g = Graph::from_metadata(vec![release("A", "x86_64", "cA")], updates, "x86_64").unwrap();
    assert_eq!(meta(&g, 0, START_EPOCH), Some("2000"));
    assert_eq!(meta(&g, 0, START_VALUE), Some("0.50"));
    assert_eq!(meta(&g, 0, DURATION), Some("10"));
}

#[test]
fn rollout_without_duration_omits_key() {
    let mut updates = no_updates();
    updates.rollouts.push(UpdateRollout {
        version: "A".to_string(),
        start_epoch: "1000".to_string(),
        start_value: "0.25".to_string(),
        duration_minutes: None,
    });
    let g = Graph::from_metadata(vec![release("A", "x86_64", "cA")], updates, "x86_64").unwrap();
    assert_eq!(meta(&g, 0, START_EPOCH), Some("1000"));
    assert_eq!(meta(&g, 0, DURATION), None);
}

#[test]
fn default_graph_is_empty() {
    let g = Graph::default();
    assert!(g.nodes.is_empty() && g.edges.is_empty());
}

#[test]
fn metadata_keys_are_namespaced() {
    assert_eq!(SCHEME, "org.fedoraproject.coreos.scheme");
    assert_eq!(AGE_INDEX, "org.fedoraproject.coreos.releases.age_index");
    assert_eq!(DEADEND, "org.fedoraproject.coreos.updates.deadend");
    assert_eq!(DEADEND_REASON, "org.fedoraproject.coreos.updates.deadend_reason");
    assert_eq!(START_EPOCH, "org.fedoraproject.coreos.updates.start_epoch");
    assert_eq!(START_VALUE, "org.fedoraproject.coreos.updates.start_value");
    assert_eq!(DURATION, "org.fedoraproject.coreos.updates.duration_minutes");
}

#[test]
fn metadata_insert_replaces_existing_key() {
    let mut m: Vec<(String, String)> = vec![];
    dumnati::metadata::insert(&mut m, "k".to_string(), "1".to_string());
    dumnati::metadata::insert(&mut m, "j".to_string(), "2".to_string());
    dumnati::metadata::insert(&mut m, "k".to_string(), "3".to_string());
    assert_eq!(m.len(), 2);
    assert_eq!(get(&m, "k").map(|s| s.as_str()), Some("3"));
    assert_eq!(get(&m, "j").map(|s| s.as_str()), Some("2"));
    assert_eq!(get(&m, "x"), None);
}

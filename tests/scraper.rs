use dumnati::error::ServiceError;
use dumnati::graph::{CincinnatiPayload, Graph};
use dumnati::metadata::{Release, ReleaseCommit, Updates};
use dumnati::scraper::{GetCachedGraph, Scraper, REFRESH_INTERVAL_SECS};

fn updates() -> Updates {
    Updates {
        barriers: vec![],
        deadends: vec![],
        rollouts: vec![],
    }
}

fn releases(arch: &str) -> Vec<Release> {
    vec![
        Release {
            commits: vec![ReleaseCommit {
                architecture: arch.to_string(),
                checksum: "c1".to_string(),
            }],
            version: "2".to_string(),
            metadata: String::new(),
        },
        Release {
            commits: vec![ReleaseCommit {
                architecture: arch.to_string(),
                checksum: "c0".to_string(),
            }],
            version: "1".to_string(),
            metadata: String::new(),
        },
    ]
}

#[test]
fn new_scraper_templates_urls() {
    let s = Scraper::new("testing", "x86_64").ok().unwrap();
    assert_eq!(
        s.release_index_url,
        "https://builds.coreos.fedoraproject.org/prod/streams/testing/releases.json"
    );
    assert_eq!(
        s.stream_metadata_url,
        "https://builds.coreos.fedoraproject.org/updates/testing.json"
    );
    assert!(s.graph.nodes.is_empty());
    assert_eq!(REFRESH_INTERVAL_SECS, 30);
}

#[test]
fn new_scraper_rejects_forbidden_stream() {
    assert_eq!(
        Scraper::new("te{st", "x86_64").err(),
        Some(ServiceError::InvalidStream)
    );
    assert_eq!(
        Scraper::new("$x", "x86_64").err(),
        Some(ServiceError::InvalidStream)
    );
}

#[test]
fn refresh_replaces_graph() {
    let mut s = Scraper::new("testing", "x86_64").ok().unwrap();
    let r = s.apply_refresh(Ok((releases("x86_64"), updates())));
    assert_eq!(r, Ok(2));
    assert_eq!(s.graph.nodes.len(), 2);
    assert_eq!(s.graph.nodes[0].payload, "c1");
}

#[test]
fn failed_fetch_keeps_graph() {
    let mut s = Scraper::new("testing", "x86_64").ok().unwrap();
    s.apply_refresh(Ok((releases("x86_64"), updates()))).unwrap();
    let r = s.apply_refresh(Err(ServiceError::UpstreamUnreachable));
    assert_eq!(r, Err(ServiceError::UpstreamUnreachable));
    assert_eq!(s.graph.nodes.len(), 2);
    let r = s.apply_refresh(Err(ServiceError::UpstreamMalformed));
    assert_eq!(r, Err(ServiceError::UpstreamMalformed));
    assert_eq!(s.graph.nodes.len(), 2);
}

#[test]
fn failed_build_keeps_graph() {
    let mut s = Scraper::new("testing", "x86_64").ok().unwrap();
    s.apply_refresh(Ok((releases("x86_64"), updates()))).unwrap();
    let r = s.apply_refresh(Ok((releases("aarch64"), updates())));
    assert_eq!(r, Err(ServiceError::MissingArchCommit("2".to_string())));
    assert_eq!(s.graph.nodes[0].payload, "c1");
}

#[test]
fn cached_graph_for_configured_arch_and_stream() {
    let mut s = Scraper::new("testing", "x86_64").ok().unwrap();
    s.apply_refresh(Ok((releases("x86_64"), updates()))).unwrap();
    let g = s.get_cached_graph(&GetCachedGraph::default()).ok().unwrap();
    assert_eq!(g.nodes.len(), 2);
    assert_eq!(g.nodes[1].version, "1");
    assert_eq!(g.nodes[1].metadata, s.graph.nodes[1].metadata);
}

#[test]
fn cached_graph_for_other_stream_is_refused() {
    let s = Scraper::new("testing", "x86_64").ok().unwrap();
    let msg = GetCachedGraph {
        basearch: "x86_64".to_string(),
        stream: "stable".to_string(),
    };
    assert_eq!(
        s.get_cached_graph(&msg).err(),
        Some(ServiceError::CacheMissForArchStream)
    );
    let msg = GetCachedGraph {
        basearch: "aarch64".to_string(),
        stream: "testing".to_string(),
    };
    assert_eq!(
        s.get_cached_graph(&msg).err(),
        Some(ServiceError::CacheMissForArchStream)
    );
}

#[test]
fn default_request_asks_for_testing_on_x86_64() {
    let m = GetCachedGraph::default();
    assert_eq!(m.basearch, "x86_64");
    assert_eq!(m.stream, "testing");
}

#[test]
fn snapshot_copies_nodes_and_edges() {
    let g = Graph {
        nodes: vec![CincinnatiPayload {
            version: "a".to_string(),
            metadata: vec![("k".to_string(), "v".to_string())],
            payload: "p".to_string(),
        }],
        edges: vec![(0, 0)],
    };
    let c = g.snapshot();
    assert_eq!(c.nodes[0].metadata, g.nodes[0].metadata);
    assert_eq!(c.nodes[0].payload, "p");
    assert_eq!(c.edges, g.edges);
}

//! The update graph: nodes annotated with release metadata, and the
//! per-request policy stages that prune its edges.
use vstd::prelude::*;
use crate::error::ServiceError;
use crate::metadata::{
    get, insert, keys_unique, lookup, Release, ReleaseCommit, UpdateDeadend, UpdateRollout, Updates,
    AGE_INDEX, DEADEND, DEADEND_REASON, DURATION, SCHEME, START_EPOCH, START_VALUE,
};
use crate::parse::{
    decimal, format_decimal, parse_i64, parse_ppb, parse_u64, spec_parse_i64, spec_parse_ppb,
    spec_parse_u64, PPB,
};

verus! {

/// One node of the update graph.
pub struct CincinnatiPayload {
    pub version: String,
    /// Metadata entries, at most one per key.
    pub metadata: Vec<(String, String)>,
    pub payload: String,
}

/// Update graph: nodes ordered newest first, edges as `(from, to)` node indices.
pub struct Graph {
    pub nodes: Vec<CincinnatiPayload>,
    pub edges: Vec<(u64, u64)>,
}

/// Value of metadata key `k` on node `n`.
pub open spec fn meta(n: CincinnatiPayload, k: Seq<char>) -> Option<Seq<char>> {
    lookup(n.metadata@, k)
}

/// A node marked as a dead end.
pub open spec fn is_deadend(n: CincinnatiPayload) -> bool {
    meta(n, DEADEND@) == Some("true"@)
}

/// The edge leaves a dead-end node.
pub open spec fn leaves_deadend(nodes: Seq<CincinnatiPayload>, e: (u64, u64)) -> bool {
    e.0 < nodes.len() && is_deadend(nodes[e.0 as int])
}

/// Edges kept by dead-end filtering.
pub open spec fn deadend_filtered(nodes: Seq<CincinnatiPayload>, edges: Seq<(u64, u64)>) -> Seq<(u64, u64)> {
    edges.filter(|e: (u64, u64)| !leaves_deadend(nodes, e))
}

/// The node is being rolled out: it has a start epoch or a start value.
pub open spec fn in_rollout(n: CincinnatiPayload) -> bool {
    meta(n, START_EPOCH@) is Some || meta(n, START_VALUE@) is Some
}

/// Rollout start in Unix seconds; 0 when absent or unreadable.
pub open spec fn rollout_start(n: CincinnatiPayload) -> int {
    match meta(n, START_EPOCH@) {
        Some(t) => match spec_parse_i64(t) {
            Some(v) => v,
            None => 0,
        },
        None => 0,
    }
}

/// Rollout start fraction in parts per billion; 0 when unreadable, 1 when absent.
pub open spec fn rollout_value(n: CincinnatiPayload) -> int {
    match meta(n, START_VALUE@) {
        Some(t) => match spec_parse_ppb(t) {
            Some(v) => v,
            None => 0,
        },
        None => PPB as int,
    }
}

/// Rollout ramp length in minutes, at least 1; none when absent or unreadable.
pub open spec fn rollout_minutes(n: CincinnatiPayload) -> Option<int> {
    match meta(n, DURATION@) {
        Some(t) => match spec_parse_u64(t) {
            Some(m) => Some(if m < 1 { 1 } else { m }),
            None => None,
        },
        None => None,
    }
}

/// End of a ramp of `minutes` from `start`, by saturating arithmetic.
pub open spec fn rollout_end(start: int, minutes: int) -> int {
    let span = if 60 * minutes > u64::MAX { u64::MAX as int } else { 60 * minutes };
    if start + span > i64::MAX { i64::MAX as int } else { start + span }
}

/// A client of wariness `w` (parts per billion) is not offered node `n` at
/// time `now`: `w` exceeds the throttling, which is 0 before the start, the
/// start value `s` from the start on, and with a duration ends at 1 after the
/// ramp, rising linearly on it as `s + (1 - s) * (now - start) / (end - start)`
/// (the comparison is made exactly, multiplied out by `end - start`).
pub open spec fn hidden_at(n: CincinnatiPayload, w: int, now: int) -> bool {
    let start = rollout_start(n);
    let s = rollout_value(n);
    in_rollout(n) && match rollout_minutes(n) {
        Some(m) => {
            let end = rollout_end(start, m);
            if now < start {
                w > 0
            } else if now > end {
                w > PPB
            } else {
                (w - s) * (end - start) > (PPB - s) * (now - start)
            }
        },
        None => if now < start {
            w > 0
        } else {
            w > s
        },
    }
}

/// The edge leads to a node hidden from the client.
pub open spec fn enters_hidden(nodes: Seq<CincinnatiPayload>, w: int, now: int, e: (u64, u64)) -> bool {
    e.1 < nodes.len() && hidden_at(nodes[e.1 as int], w, now)
}

/// Edges kept by rollout throttling.
pub open spec fn throttled(nodes: Seq<CincinnatiPayload>, edges: Seq<(u64, u64)>, w: int, now: int) -> Seq<(u64, u64)> {
    edges.filter(|e: (u64, u64)| !enters_hidden(nodes, w, now, e))
}

/// The first commit built for architecture `arch`.
pub open spec fn arch_commit(commits: Seq<ReleaseCommit>, arch: Seq<char>) -> Option<ReleaseCommit>
    decreases commits.len(),
{
    if commits.len() == 0 {
        None
    } else if commits[0].architecture@ == arch {
        Some(commits[0])
    } else {
        arch_commit(commits.drop_first(), arch)
    }
}

/// The first dead-end entry for `version`.
pub open spec fn first_deadend(deadends: Seq<UpdateDeadend>, version: Seq<char>) -> Option<UpdateDeadend>
    decreases deadends.len(),
{
    if deadends.len() == 0 {
        None
    } else if deadends[0].version@ == version {
        Some(deadends[0])
    } else {
        first_deadend(deadends.drop_first(), version)
    }
}

/// Why `version` is a dead end, if it is one: the reason given, or `"generic"`.
pub open spec fn deadend_reason_of(updates: Updates, version: Seq<char>) -> Option<Seq<char>> {
    match first_deadend(updates.deadends@, version) {
        Some(d) => Some(if d.reason@.len() == 0 { "generic"@ } else { d.reason@ }),
        None => None,
    }
}

/// The last rollout entry for `version`.
pub open spec fn last_rollout(rollouts: Seq<UpdateRollout>, version: Seq<char>) -> Option<UpdateRollout>
    decreases rollouts.len(),
{
    if rollouts.len() == 0 {
        None
    } else if rollouts.last().version@ == version {
        Some(rollouts.last())
    } else {
        last_rollout(rollouts.drop_last(), version)
    }
}

/// The duration of the last rollout entry for `version` that has one.
pub open spec fn last_duration(rollouts: Seq<UpdateRollout>, version: Seq<char>) -> Option<Seq<char>>
    decreases rollouts.len(),
{
    if rollouts.len() == 0 {
        None
    } else if rollouts.last().version@ == version && rollouts.last().duration_minutes is Some {
        Some(rollouts.last().duration_minutes->0@)
    } else {
        last_duration(rollouts.drop_last(), version)
    }
}

/// Value of key `k` once the rollout entries for `version` are copied over `prev`.
pub open spec fn with_rollouts(prev: Option<Seq<char>>, rollouts: Seq<UpdateRollout>, version: Seq<char>, k: Seq<char>) -> Option<Seq<char>> {
    if k == START_EPOCH@ {
        match last_rollout(rollouts, version) {
            Some(e) => Some(e.start_epoch@),
            None => prev,
        }
    } else if k == START_VALUE@ {
        match last_rollout(rollouts, version) {
            Some(e) => Some(e.start_value@),
            None => prev,
        }
    } else if k == DURATION@ {
        match last_duration(rollouts, version) {
            Some(d) => Some(d),
            None => prev,
        }
    } else {
        prev
    }
}

/// Value of key `k` on the node built for release `version` at age index `age`.
pub open spec fn built_meta(updates: Updates, version: Seq<char>, age: nat, k: Seq<char>) -> Option<Seq<char>> {
    if k == SCHEME@ {
        Some("checksum"@)
    } else if k == AGE_INDEX@ {
        Some(decimal(age))
    } else if k == DEADEND@ {
        if deadend_reason_of(updates, version) is Some {
            Some("true"@)
        } else {
            None
        }
    } else if k == DEADEND_REASON@ {
        deadend_reason_of(updates, version)
    } else {
        with_rollouts(None, updates.rollouts@, version, k)
    }
}

/// `n` is the node built for release `r` at age index `age`.
pub open spec fn built_node(n: CincinnatiPayload, r: Release, age: nat, updates: Updates, arch: Seq<char>) -> bool {
    &&& n.version@ == r.version@
    &&& arch_commit(r.commits@, arch) is Some
    &&& n.payload@ == arch_commit(r.commits@, arch)->0.checksum@
    &&& keys_unique(n.metadata@)
    &&& forall|k: Seq<char>| #[trigger] lookup(n.metadata@, k) == built_meta(updates, r.version@, age, k)
}

/// Every edge joins two distinct nodes of the graph.
pub open spec fn edges_valid(nodes: Seq<CincinnatiPayload>, edges: Seq<(u64, u64)>) -> bool {
    forall|i: int| 0 <= i < edges.len() ==> {
        &&& (#[trigger] edges[i]).0 < nodes.len()
        &&& edges[i].1 < nodes.len()
        &&& edges[i].0 != edges[i].1
    }
}

/// Filtering a sequence extended by one element.
pub proof fn lemma_filter_push<A>(s: Seq<A>, x: A, p: spec_fn(A) -> bool)
    ensures
        s.push(x).filter(p) == (if p(x) { s.filter(p).push(x) } else { s.filter(p) }),
{
    reveal_with_fuel(Seq::filter, 1);
    assert(s.push(x).drop_last() =~= s);
}

/// `g` is the graph assembled from `releases` and `updates` for architecture `arch`.
pub open spec fn built_graph(g: Graph, releases: Seq<Release>, updates: Updates, arch: Seq<char>) -> bool {
    &&& g.nodes@.len() == releases.len()
    &&& forall|i: int| 0 <= i < releases.len() ==> built_node(#[trigger] g.nodes@[i], releases[i], i as nat, updates, arch)
    &&& g.edges@.len() == 0
}

/// `a` carries the same version, payload and metadata as `b`.
pub open spec fn same_node(a: CincinnatiPayload, b: CincinnatiPayload) -> bool {
    a.version@ == b.version@ && a.payload@ == b.payload@ && a.metadata@ == b.metadata@
}

/// `a` and `b` have the same nodes, in the same order, and the same edges.
pub open spec fn same_graph(a: Graph, b: Graph) -> bool {
    &&& a.nodes@.len() == b.nodes@.len()
    &&& forall|i: int| 0 <= i < a.nodes@.len() ==> same_node(#[trigger] a.nodes@[i], b.nodes@[i])
    &&& a.edges@ == b.edges@
}

impl Default for Graph {
    fn default() -> (r: Graph)
        ensures
            r.nodes@.len() == 0,
            r.edges@.len() == 0,
    {
        Graph { nodes: Vec::new(), edges: Vec::new() }
    }
}

/// Every release has a commit for architecture `arch`.
pub open spec fn all_have_arch(releases: Seq<Release>, arch: Seq<char>) -> bool {
    forall|i: int| 0 <= i < releases.len() ==> (#[trigger] arch_commit(releases[i].commits@, arch)) is Some
}

/// Position of the first release without a commit for architecture `arch`.
pub open spec fn first_without_arch(releases: Seq<Release>, arch: Seq<char>) -> int
    decreases releases.len(),
{
    if releases.len() == 0 || arch_commit(releases[0].commits@, arch) is None {
        0
    } else {
        1 + first_without_arch(releases.drop_first(), arch)
    }
}

/// A filtered sequence keeps only elements of the unfiltered one.
pub proof fn lemma_filter_subset<A>(s: Seq<A>, p: spec_fn(A) -> bool)
    ensures
        forall|x: A| #[trigger] s.filter(p).contains(x) ==> s.contains(x),
    decreases s.len(),
{
    if s.len() > 0 {
        let pre = s.drop_last();
        lemma_filter_subset(pre, p);
        assert(pre.push(s.last()) =~= s);
        lemma_filter_push(pre, s.last(), p);
        assert forall|x: A| #[trigger] s.filter(p).contains(x) implies s.contains(x) by {
            if pre.filter(p).contains(x) {
                let j = choose|j: int| 0 <= j < pre.len() && pre[j] == x;
                assert(s[j] == x);
            } else {
                assert(s[s.len() - 1] == x);
            }
        }
    } else {
        reveal_with_fuel(Seq::filter, 1);
    }
}

/// Filtering twice by the same predicate is filtering once.
pub proof fn lemma_filter_idempotent<A>(s: Seq<A>, p: spec_fn(A) -> bool)
    ensures
        s.filter(p).filter(p) == s.filter(p),
    decreases s.len(),
{
    if s.len() > 0 {
        let pre = s.drop_last();
        lemma_filter_idempotent(pre, p);
        assert(pre.push(s.last()) =~= s);
        lemma_filter_push(pre, s.last(), p);
        if p(s.last()) {
            lemma_filter_push(pre.filter(p), s.last(), p);
        }
    } else {
        reveal_with_fuel(Seq::filter, 1);
        assert(s.filter(p) =~= s);
    }
}

impl Graph {
    /// Every edge joins two distinct nodes of the graph.
    pub open spec fn well_formed(&self) -> bool {
        edges_valid(self.nodes@, self.edges@)
    }

    /// Assembles the graph of `releases`, newest first, annotated from
    /// `updates`, with the commits built for `basearch`. Edges are left to a
    /// later stage: the graph has none.
    pub fn from_metadata(releases: Vec<Release>, updates: Updates, basearch: &str) -> (r: Result<Graph, ServiceError>)
        ensures
            match r {
                Ok(g) => {
                    &&& all_have_arch(releases@, basearch@)
                    &&& built_graph(g, releases@, updates, basearch@)
                    &&& g.well_formed()
                    &&& forall|i: int| 0 <= i < releases@.len() ==> {
                        &&& meta(#[trigger] g.nodes@[i], AGE_INDEX@) == Some(decimal(i as nat))
                        &&& meta(g.nodes@[i], SCHEME@) == Some("checksum"@)
                    }
                },
                Err(e) => {
                    &&& !all_have_arch(releases@, basearch@)
                    &&& e == ServiceError::MissingArchCommit(releases@[first_without_arch(releases@, basearch@)].version)
                },
            },
    {
        let arch = basearch.to_owned();
        let mut nodes: Vec<CincinnatiPayload> = Vec::new();
        assert(releases@.subrange(0, releases@.len() as int) =~= releases@);
        let mut i: usize = 0;
        while i < releases.len()
            invariant
                i <= releases@.len(),
                arch@ == basearch@,
                nodes@.len() == i,
                forall|j: int| 0 <= j < i ==> built_node(#[trigger] nodes@[j], releases@[j], j as nat, updates, basearch@),
                first_without_arch(releases@, basearch@) == i + first_without_arch(releases@.subrange(i as int, releases@.len() as int), basearch@),
            decreases releases@.len() - i,
        {
            let ghost rest = releases@.subrange(i as int, releases@.len() as int);
            proof {
                assert(rest.drop_first() =~= releases@.subrange(i + 1, releases@.len() as int));
                assert(rest[0] == releases@[i as int]);
            }
            match build_node(&releases[i], i, &updates, &arch) {
                Ok(n) => {
                    nodes.push(n);
                },
                Err(e) => {
                    return Err(e);
                },
            }
            i = i + 1;
        }
        proof {
            assert forall|j: int| 0 <= j < releases@.len() implies (#[trigger] arch_commit(releases@[j].commits@, basearch@)) is Some by {
                assert(built_node(nodes@[j], releases@[j], j as nat, updates, basearch@));
            }
            assert forall|j: int| 0 <= j < releases@.len() implies {
                &&& meta(#[trigger] nodes@[j], AGE_INDEX@) == Some(decimal(j as nat))
                &&& meta(nodes@[j], SCHEME@) == Some("checksum"@)
            } by {
                lemma_keys_distinct();
                assert(built_node(nodes@[j], releases@[j], j as nat, updates, basearch@));
                assert(lookup(nodes@[j].metadata@, AGE_INDEX@) == built_meta(updates, releases@[j].version@, j as nat, AGE_INDEX@));
                assert(lookup(nodes@[j].metadata@, SCHEME@) == built_meta(updates, releases@[j].version@, j as nat, SCHEME@));
            }
        }
        Ok(Graph { nodes, edges: Vec::new() })
    }

    /// Prunes the edges into nodes that a client of wariness `client_wariness`
    /// (parts per billion) is not offered at time `now` (Unix seconds).
    pub fn throttle_rollouts_at(self, client_wariness: u64, now: i64) -> (r: Graph)
        requires
            client_wariness <= PPB,
        ensures
            r.nodes@ == self.nodes@,
            r.edges@ == throttled(self.nodes@, self.edges@, client_wariness as int, now as int),
    {
        let graph = self;
        let mut hidden: Vec<bool> = Vec::new();
        let mut j: usize = 0;
        while j < graph.nodes.len()
            invariant
                j <= graph.nodes@.len(),
                client_wariness <= PPB,
                hidden@.len() == j,
                forall|k: int| 0 <= k < j ==> hidden@[k] == hidden_at(#[trigger] graph.nodes@[k], client_wariness as int, now as int),
            decreases graph.nodes@.len() - j,
        {
            hidden.push(node_hidden(&graph.nodes[j], client_wariness, now));
            j = j + 1;
        }
        let mut kept: Vec<(u64, u64)> = Vec::new();
        let mut i: usize = 0;
        while i < graph.edges.len()
            invariant
                i <= graph.edges@.len(),
                hidden@.len() == graph.nodes@.len(),
                forall|k: int| 0 <= k < hidden@.len() ==> hidden@[k] == hidden_at(#[trigger] graph.nodes@[k], client_wariness as int, now as int),
                kept@ == throttled(graph.nodes@, graph.edges@.subrange(0, i as int), client_wariness as int, now as int),
            decreases graph.edges@.len() - i,
        {
            let e = graph.edges[i];
            let dest = e.1;
            let drop = dest < hidden.len() as u64 && hidden[dest as usize];
            proof {
                let pre = graph.edges@.subrange(0, i as int);
                assert(graph.edges@.subrange(0, i + 1) =~= pre.push(e));
                lemma_filter_push(pre, e, |e: (u64, u64)| !enters_hidden(graph.nodes@, client_wariness as int, now as int, e));
            }
            if !drop {
                kept.push(e);
            }
            i = i + 1;
        }
        proof {
            assert(graph.edges@.subrange(0, graph.edges@.len() as int) =~= graph.edges@);
        }
        Graph { nodes: graph.nodes, edges: kept }
    }

    /// Prunes the edges into nodes that a client of wariness `client_wariness`
    /// (parts per billion) is not offered now.
    pub fn throttle_rollouts(self, client_wariness: u64) -> (r: Graph)
        requires
            client_wariness <= PPB,
        ensures
            r.nodes@ == self.nodes@,
            exists|now: i64| r.edges@ == throttled(self.nodes@, self.edges@, client_wariness as int, now as int),
    {
        let now = unix_now();
        self.throttle_rollouts_at(client_wariness, now)
    }

    /// A copy of the graph, for a reader.
    pub fn snapshot(&self) -> (r: Graph)
        ensures
            same_graph(r, *self),
    {
        let mut nodes: Vec<CincinnatiPayload> = Vec::new();
        let mut i: usize = 0;
        while i < self.nodes.len()
            invariant
                i <= self.nodes@.len(),
                nodes@.len() == i,
                forall|j: int| 0 <= j < i ==> same_node(#[trigger] nodes@[j], self.nodes@[j]),
            decreases self.nodes@.len() - i,
        {
            let n = &self.nodes[i];
            let mut metadata: Vec<(String, String)> = Vec::new();
            let mut k: usize = 0;
            while k < n.metadata.len()
                invariant
                    k <= n.metadata@.len(),
                    metadata@ == n.metadata@.subrange(0, k as int),
                decreases n.metadata@.len() - k,
            {
                let entry = (n.metadata[k].0.clone(), n.metadata[k].1.clone());
                metadata.push(entry);
                proof {
                    assert(metadata@ =~= n.metadata@.subrange(0, k + 1));
                }
                k = k + 1;
            }
            proof {
                assert(n.metadata@.subrange(0, k as int) =~= n.metadata@);
            }
            nodes.push(CincinnatiPayload { version: n.version.clone(), metadata, payload: n.payload.clone() });
            i = i + 1;
        }
        let mut edges: Vec<(u64, u64)> = Vec::new();
        let mut e: usize = 0;
        while e < self.edges.len()
            invariant
                e <= self.edges@.len(),
                edges@ == self.edges@.subrange(0, e as int),
            decreases self.edges@.len() - e,
        {
            edges.push(self.edges[e]);
            proof {
                assert(edges@ =~= self.edges@.subrange(0, e + 1));
            }
            e = e + 1;
        }
        proof {
            assert(self.edges@.subrange(0, e as int) =~= self.edges@);
        }
        Graph { nodes, edges }
    }

    /// Prunes the outgoing edges of dead-end nodes.
    pub fn filter_deadends(self) -> (r: Graph)
        ensures
            r.nodes@ == self.nodes@,
            r.edges@ == deadend_filtered(self.nodes@, self.edges@),
    {
        let graph = self;
        let dead = deadend_flags(&graph.nodes);
        let mut kept: Vec<(u64, u64)> = Vec::new();
        let mut i: usize = 0;
        while i < graph.edges.len()
            invariant
                i <= graph.edges@.len(),
                dead@.len() == graph.nodes@.len(),
                forall|j: int| 0 <= j < dead@.len() ==> dead@[j] == is_deadend(#[trigger] graph.nodes@[j]),
                kept@ == deadend_filtered(graph.nodes@, graph.edges@.subrange(0, i as int)),
            decreases graph.edges@.len() - i,
        {
            let e = graph.edges[i];
            let src = e.0;
            let drop = src < dead.len() as u64 && dead[src as usize];
            proof {
                let pre = graph.edges@.subrange(0, i as int);
                assert(graph.edges@.subrange(0, i + 1) =~= pre.push(e));
                lemma_filter_push(pre, e, |e: (u64, u64)| !leaves_deadend(graph.nodes@, e));
            }
            if !drop {
                kept.push(e);
            }
            i = i + 1;
        }
        proof {
            assert(graph.edges@.subrange(0, graph.edges@.len() as int) =~= graph.edges@);
        }
        Graph { nodes: graph.nodes, edges: kept }
    }
}

proof fn lemma_keys_distinct()
    ensures
        SCHEME@ != AGE_INDEX@,
        SCHEME@ != DEADEND@,
        SCHEME@ != DEADEND_REASON@,
        SCHEME@ != START_EPOCH@,
        SCHEME@ != START_VALUE@,
        SCHEME@ != DURATION@,
        AGE_INDEX@ != DEADEND@,
        AGE_INDEX@ != DEADEND_REASON@,
        AGE_INDEX@ != START_EPOCH@,
        AGE_INDEX@ != START_VALUE@,
        AGE_INDEX@ != DURATION@,
        DEADEND@ != DEADEND_REASON@,
        DEADEND@ != START_EPOCH@,
        DEADEND@ != START_VALUE@,
        DEADEND@ != DURATION@,
        DEADEND_REASON@ != START_EPOCH@,
        DEADEND_REASON@ != START_VALUE@,
        DEADEND_REASON@ != DURATION@,
        START_EPOCH@ != START_VALUE@,
        START_EPOCH@ != DURATION@,
        START_VALUE@ != DURATION@,
{
    reveal_strlit("org.fedoraproject.coreos.scheme");
    reveal_strlit("org.fedoraproject.coreos.releases.age_index");
    reveal_strlit("org.fedoraproject.coreos.updates.deadend");
    reveal_strlit("org.fedoraproject.coreos.updates.deadend_reason");
    reveal_strlit("org.fedoraproject.coreos.updates.duration_minutes");
    reveal_strlit("org.fedoraproject.coreos.updates.start_epoch");
    reveal_strlit("org.fedoraproject.coreos.updates.start_value");
    assert(START_EPOCH@[39] != START_VALUE@[39]);
    assert(SCHEME@.len() == 31);
    assert(AGE_INDEX@.len() == 43);
    assert(DEADEND@.len() == 40);
    assert(DEADEND_REASON@.len() == 47);
    assert(DURATION@.len() == 49);
    assert(START_EPOCH@.len() == 44);
    assert(START_VALUE@.len() == 44);
}

/// Why `release` is a dead end, if it is one.
fn deadend_reason(updates: &Updates, release: &CincinnatiPayload) -> (r: Option<String>)
    ensures
        match r {
            Some(s) => deadend_reason_of(*updates, release.version@) == Some(s@),
            None => deadend_reason_of(*updates, release.version@) is None,
        },
{
    assert(updates.deadends@.subrange(0, updates.deadends@.len() as int) =~= updates.deadends@);
    let mut i: usize = 0;
    while i < updates.deadends.len()
        invariant
            i <= updates.deadends@.len(),
            first_deadend(updates.deadends@, release.version@) == first_deadend(
                updates.deadends@.subrange(i as int, updates.deadends@.len() as int),
                release.version@,
            ),
        decreases updates.deadends@.len() - i,
    {
        let dead = &updates.deadends[i];
        let ghost rest = updates.deadends@.subrange(i as int, updates.deadends@.len() as int);
        proof {
            assert(rest.drop_first() =~= updates.deadends@.subrange(i + 1, updates.deadends@.len() as int));
            assert(rest[0] == *dead);
        }
        if dead.version == release.version {
            if dead.reason.as_str().is_empty() {
                return Some("generic".to_owned());
            }
            return Some(dead.reason.clone());
        }
        i = i + 1;
    }
    proof {
        assert(updates.deadends@.subrange(i as int, updates.deadends@.len() as int).len() == 0);
    }
    None
}

/// Copies the rollout parameters of `release` into its metadata.
fn inject_throttling_params(updates: &Updates, release: &mut CincinnatiPayload)
    requires
        keys_unique(old(release).metadata@),
    ensures
        final(release).version == old(release).version,
        final(release).payload == old(release).payload,
        keys_unique(final(release).metadata@),
        forall|k: Seq<char>| #[trigger] lookup(final(release).metadata@, k) == with_rollouts(
            lookup(old(release).metadata@, k),
            updates.rollouts@,
            old(release).version@,
            k,
        ),
{
    proof { lemma_keys_distinct(); }
    let ghost start = release.metadata@;
    let mut i: usize = 0;
    while i < updates.rollouts.len()
        invariant
            i <= updates.rollouts@.len(),
            release.version == old(release).version,
            release.payload == old(release).payload,
            start == old(release).metadata@,
            keys_unique(release.metadata@),
            forall|k: Seq<char>| #[trigger] lookup(release.metadata@, k) == with_rollouts(
                lookup(start, k),
                updates.rollouts@.subrange(0, i as int),
                release.version@,
                k,
            ),
            SCHEME@ != START_EPOCH@,
            START_EPOCH@ != START_VALUE@,
            START_EPOCH@ != DURATION@,
            START_VALUE@ != DURATION@,
        decreases updates.rollouts@.len() - i,
    {
        let entry = &updates.rollouts[i];
        let ghost pre = updates.rollouts@.subrange(0, i as int);
        let ghost md0 = release.metadata@;
        proof {
            assert(updates.rollouts@.subrange(0, i + 1).drop_last() =~= pre);
            assert(updates.rollouts@.subrange(0, i + 1).last() == *entry);
        }
        if entry.version == release.version {
            insert(&mut release.metadata, START_EPOCH.to_owned(), entry.start_epoch.clone());
            insert(&mut release.metadata, START_VALUE.to_owned(), entry.start_value.clone());
            match &entry.duration_minutes {
                Some(minutes) => {
                    insert(&mut release.metadata, DURATION.to_owned(), minutes.clone());
                },
                None => {},
            }
        }
        proof {
            let next = updates.rollouts@.subrange(0, i + 1);
            assert forall|k: Seq<char>| #[trigger] lookup(release.metadata@, k) == with_rollouts(
                lookup(start, k),
                next,
                release.version@,
                k,
            ) by {
                assert(lookup(md0, k) == with_rollouts(lookup(start, k), pre, release.version@, k));
            }
        }
        i = i + 1;
    }
    proof {
        assert(updates.rollouts@.subrange(0, i as int) =~= updates.rollouts@);
    }
}

/// Builds the node for `release` at age index `age`.
fn build_node(release: &Release, age: usize, updates: &Updates, basearch: &String) -> (r: Result<CincinnatiPayload, ServiceError>)
    ensures
        match r {
            Ok(n) => built_node(n, *release, age as nat, *updates, basearch@),
            Err(e) => arch_commit(release.commits@, basearch@) is None && e == ServiceError::MissingArchCommit(release.version),
        },
{
    proof { lemma_keys_distinct(); }
    assert(release.commits@.subrange(0, release.commits@.len() as int) =~= release.commits@);
    let mut c: usize = 0;
    while c < release.commits.len()
        invariant
            c <= release.commits@.len(),
            arch_commit(release.commits@, basearch@) == arch_commit(
                release.commits@.subrange(c as int, release.commits@.len() as int),
                basearch@,
            ),
        ensures
            c <= release.commits@.len(),
            c < release.commits@.len() ==> release.commits@[c as int].architecture@ == basearch@,
            arch_commit(release.commits@, basearch@) == arch_commit(
                release.commits@.subrange(c as int, release.commits@.len() as int),
                basearch@,
            ),
        decreases release.commits@.len() - c,
    {
        let ghost rest = release.commits@.subrange(c as int, release.commits@.len() as int);
        proof {
            assert(rest.drop_first() =~= release.commits@.subrange(c + 1, release.commits@.len() as int));
            assert(rest[0] == release.commits@[c as int]);
        }
        if release.commits[c].architecture == *basearch {
            break;
        }
        c = c + 1;
    }
    if c == release.commits.len() {
        proof {
            assert(release.commits@.subrange(c as int, release.commits@.len() as int).len() == 0);
        }
        return Err(ServiceError::MissingArchCommit(release.version.clone()));
    }
    proof {
        let rest = release.commits@.subrange(c as int, release.commits@.len() as int);
        assert(rest[0] == release.commits@[c as int]);
    }
    let mut metadata: Vec<(String, String)> = Vec::new();
    insert(&mut metadata, SCHEME.to_owned(), "checksum".to_owned());
    insert(&mut metadata, AGE_INDEX.to_owned(), format_decimal(age as u64));
    let mut current = CincinnatiPayload {
        version: release.version.clone(),
        payload: release.commits[c].checksum.clone(),
        metadata,
    };
    let ghost md1 = current.metadata@;
    match deadend_reason(updates, &current) {
        Some(reason) => {
            insert(&mut current.metadata, DEADEND.to_owned(), "true".to_owned());
            insert(&mut current.metadata, DEADEND_REASON.to_owned(), reason);
        },
        None => {},
    }
    let ghost md2 = current.metadata@;
    proof {
        assert forall|k: Seq<char>| k != START_EPOCH@ && k != START_VALUE@ && k != DURATION@ implies
            #[trigger] with_rollouts(lookup(md2, k), updates.rollouts@, release.version@, k) == lookup(md2, k) by {}
        assert forall|k: Seq<char>| k != SCHEME@ && k != AGE_INDEX@ && k != DEADEND@ && k != DEADEND_REASON@ implies
            #[trigger] lookup(md2, k) == None::<Seq<char>> by {
            assert(lookup(md1, k) == None::<Seq<char>>);
        }
    }
    inject_throttling_params(updates, &mut current);
    proof {
        assert forall|k: Seq<char>| #[trigger] lookup(current.metadata@, k) == built_meta(*updates, release.version@, age as nat, k) by {
            assert(lookup(current.metadata@, k) == with_rollouts(lookup(md2, k), updates.rollouts@, release.version@, k));
        }
    }
    Ok(current)
}

/// Relies on chrono::Utc::now and DateTime::timestamp: the current time in Unix seconds.
#[verifier::external_body]
fn unix_now() -> (r: i64) {
    chrono::Utc::now().timestamp()
}

/// Whether a client of wariness `w` is not offered node `n` at time `now`.
fn node_hidden(n: &CincinnatiPayload, w: u64, now: i64) -> (r: bool)
    requires
        w <= PPB,
    ensures
        r == hidden_at(*n, w as int, now as int),
{
    let epoch = get(&n.metadata, START_EPOCH);
    let value = get(&n.metadata, START_VALUE);
    if epoch.is_none() && value.is_none() {
        return false;
    }
    let start: i64 = match epoch {
        Some(t) => match parse_i64(t.as_str()) {
            Some(v) => v,
            None => 0,
        },
        None => 0,
    };
    let s: i64 = match value {
        Some(t) => match parse_ppb(t.as_str()) {
            Some(v) => v,
            None => 0,
        },
        None => PPB as i64,
    };
    let minutes: Option<u64> = match get(&n.metadata, DURATION) {
        Some(t) => match parse_u64(t.as_str()) {
            Some(m) => Some(if m < 1 { 1 } else { m }),
            None => None,
        },
        None => None,
    };
    match minutes {
        Some(m) => {
            let span: u64 = if m > u64::MAX / 60 { u64::MAX } else { m * 60 };
            let end_wide: i128 = start as i128 + span as i128;
            let end: i64 = if end_wide > i64::MAX as i128 { i64::MAX } else { end_wide as i64 };
            if now < start {
                w > 0
            } else if now > end {
                w > PPB
            } else {
                let d: i128 = end as i128 - start as i128;
                let x: i128 = now as i128 - start as i128;
                let ahead: i128 = w as i128 - s as i128;
                let rest: i128 = PPB as i128 - s as i128;
                assert(-0x2000_0000_0000_0000_0000_0000_0000_0000 < ahead * d < 0x2000_0000_0000_0000_0000_0000_0000_0000) by (nonlinear_arith)
                    requires
                        -0x2000_0000_0000_0000 < ahead < 0x2000_0000_0000_0000,
                        0 <= d < 0x1_0000_0000_0000_0000;
                assert(-0x2000_0000_0000_0000_0000_0000_0000_0000 < rest * x < 0x2000_0000_0000_0000_0000_0000_0000_0000) by (nonlinear_arith)
                    requires
                        -0x2000_0000_0000_0000 < rest < 0x2000_0000_0000_0000,
                        0 <= x < 0x1_0000_0000_0000_0000;
                ahead * d > rest * x
            }
        },
        None => {
            if now < start {
                w > 0
            } else {
                (w as i64) > s
            }
        },
    }
}

/// For each node, whether it is a dead end.
fn deadend_flags(nodes: &Vec<CincinnatiPayload>) -> (r: Vec<bool>)
    ensures
        r@.len() == nodes@.len(),
        forall|j: int| 0 <= j < r@.len() ==> r@[j] == is_deadend(#[trigger] nodes@[j]),
{
    let marker = "true".to_owned();
    let mut flags: Vec<bool> = Vec::new();
    let mut i: usize = 0;
    while i < nodes.len()
        invariant
            i <= nodes@.len(),
            marker@ == "true"@,
            flags@.len() == i,
            forall|j: int| 0 <= j < i ==> flags@[j] == is_deadend(#[trigger] nodes@[j]),
        decreases nodes@.len() - i,
    {
        let flag = match crate::metadata::get(&nodes[i].metadata, DEADEND) {
            Some(v) => *v == marker,
            None => false,
        };
        flags.push(flag);
        i = i + 1;
    }
    flags
}

} // verus!

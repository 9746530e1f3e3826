//! Release scraper: the state that a single refresh loop owns, and its
//! transitions. The loop itself (timers, fetches, metrics) runs outside the
//! library and hands each outcome to [`Scraper::apply_refresh`].
use vstd::prelude::*;
use crate::error::ServiceError;
use crate::graph::{all_have_arch, built_graph, first_without_arch, same_graph, Graph};
use crate::metadata::{Release, Updates, RELEASES_JSON, STREAM_JSON};
use crate::template::{has_forbidden, replace_all, stream_placeholder, substitute_stream};

verus! {

/// Seconds between two refreshes.
pub const REFRESH_INTERVAL_SECS: u64 = 30;

/// Release scraper state.
pub struct Scraper {
    /// The cached graph, as built, before any per-request policy.
    pub graph: Graph,
    pub basearch: String,
    pub stream: String,
    pub release_index_url: String,
    pub stream_metadata_url: String,
}

/// A request for the cached graph of an architecture and a stream.
pub struct GetCachedGraph {
    pub basearch: String,
    pub stream: String,
}

impl Default for GetCachedGraph {
    fn default() -> (r: GetCachedGraph)
        ensures
            r.basearch@ == "x86_64"@,
            r.stream@ == "testing"@,
    {
        GetCachedGraph { basearch: "x86_64".to_owned(), stream: "testing".to_owned() }
    }
}

impl Scraper {
    /// A scraper of `stream` for `basearch`, with an empty graph.
    pub fn new(stream: &str, basearch: &str) -> (r: Result<Scraper, ServiceError>)
        ensures
            match r {
                Ok(s) => {
                    &&& !has_forbidden(stream@)
                    &&& s.stream@ == stream@
                    &&& s.basearch@ == basearch@
                    &&& s.release_index_url@ == replace_all(RELEASES_JSON@, stream_placeholder(), stream@)
                    &&& s.stream_metadata_url@ == replace_all(STREAM_JSON@, stream_placeholder(), stream@)
                    &&& s.graph.nodes@.len() == 0
                    &&& s.graph.edges@.len() == 0
                },
                Err(e) => has_forbidden(stream@) && e == ServiceError::InvalidStream,
            },
    {
        let releases_json = match substitute_stream(RELEASES_JSON, stream) {
            Ok(url) => url,
            Err(_) => {
                return Err(ServiceError::InvalidStream);
            },
        };
        let stream_json = match substitute_stream(STREAM_JSON, stream) {
            Ok(url) => url,
            Err(_) => {
                return Err(ServiceError::InvalidStream);
            },
        };
        Ok(Scraper {
            graph: Graph::default(),
            basearch: basearch.to_owned(),
            stream: stream.to_owned(),
            release_index_url: releases_json,
            stream_metadata_url: stream_json,
        })
    }

    /// Ends a refresh with what the two fetches gave. On success of both and
    /// of the build, the new graph replaces the cached one and the number of
    /// its releases is returned; otherwise the cached graph stays.
    pub fn apply_refresh(&mut self, fetched: Result<(Vec<Release>, Updates), ServiceError>) -> (r: Result<usize, ServiceError>)
        ensures
            final(self).basearch == old(self).basearch,
            final(self).stream == old(self).stream,
            final(self).release_index_url == old(self).release_index_url,
            final(self).stream_metadata_url == old(self).stream_metadata_url,
            match fetched {
                Ok((releases, updates)) => if all_have_arch(releases@, old(self).basearch@) {
                    &&& built_graph(final(self).graph, releases@, updates, old(self).basearch@)
                    &&& r == Ok::<usize, ServiceError>(releases@.len() as usize)
                } else {
                    &&& final(self).graph == old(self).graph
                    &&& r == Err::<usize, ServiceError>(ServiceError::MissingArchCommit(
                        releases@[first_without_arch(releases@, old(self).basearch@)].version,
                    ))
                },
                Err(e) => final(self).graph == old(self).graph && r == Err::<usize, ServiceError>(e),
            },
    {
        match fetched {
            Ok((releases, updates)) => {
                match Graph::from_metadata(releases, updates, self.basearch.as_str()) {
                    Ok(graph) => {
                        let count = graph.nodes.len();
                        self.graph = graph;
                        Ok(count)
                    },
                    Err(e) => Err(e),
                }
            },
            Err(e) => Err(e),
        }
    }

    /// A copy of the cached graph, when `msg` asks for the configured
    /// architecture and stream.
    pub fn get_cached_graph(&self, msg: &GetCachedGraph) -> (r: Result<Graph, ServiceError>)
        ensures
            match r {
                Ok(g) => msg.basearch@ == self.basearch@ && msg.stream@ == self.stream@ && same_graph(g, self.graph),
                Err(e) => !(msg.basearch@ == self.basearch@ && msg.stream@ == self.stream@) && e == ServiceError::CacheMissForArchStream,
            },
    {
        if msg.basearch == self.basearch && msg.stream == self.stream {
            Ok(self.graph.snapshot())
        } else {
            Err(ServiceError::CacheMissForArchStream)
        }
    }
}

} // verus!

//! Errors of graph assembly and of the scraper.
use vstd::prelude::*;

verus! {

#[derive(Clone, Debug, PartialEq, Eq)]
pub enum ServiceError {
    /// An upstream document could not be fetched.
    UpstreamUnreachable,
    /// An upstream document could not be decoded.
    UpstreamMalformed,
    /// No commit of the release with this version matches the configured architecture.
    MissingArchCommit(String),
    /// A cached graph was asked for an architecture or stream that is not configured.
    CacheMissForArchStream,
    /// The stream name cannot be substituted into the upstream URL templates.
    InvalidStream,
}

} // verus!

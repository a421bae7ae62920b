//! Core of a media reverse proxy: it parses an incoming request path into a
//! reference to a remote media item, resolves that reference through a
//! TTL-bounded metadata cache, picks a stream URL or the best-matching
//! cover-art URL out of the metadata, and prepares the rewritten request
//! that is forwarded to the origin.

use vstd::prelude::*;

pub mod cache;
pub mod extract;
pub mod forward;
pub mod json;
pub mod parse;
pub mod resolve;
pub mod service;

verus! {

/// Every way a request can fail inside the core.
#[derive(Debug)]
pub enum ProxyError {
    /// The request path has no interpretable structure.
    MalformedRequest,
    /// The extractor failed or produced no parseable record.
    ExtractionFailed,
    /// The extractor succeeded but no record's identity matches the reference.
    NoMatchingRecord,
    /// A record lacks the named field, or the field has the wrong type.
    FieldMissing(String),
    /// No cover candidate matches the requested extension.
    NoMatchingThumbnail(String),
    /// The resolved URL does not parse as a URI.
    InvalidTargetUrl,
    /// The outbound call to the origin failed.
    UpstreamError,
}

} // verus!

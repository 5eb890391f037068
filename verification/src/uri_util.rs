//! Joining a relative path onto a base URI.
//!
//! Module-source resolution appends a relative specifier to the path of a
//! base URI: the joined path is the base path, one separator, the relative
//! path, while scheme and authority are kept. The byte-level join is the
//! library's own verified logic; reading the base path out of a URI and
//! rebuilding a URI around the joined path are the URI library's work,
//! relied on behind trusted wrappers. Invalid joined bytes are rejected as
//! a typed error, never a panic.

use vstd::prelude::*;

verus! {

/// Why a join was rejected.
#[derive(Clone, Copy, PartialEq, Eq, Structural, Debug)]
pub enum UriError {
    /// The joined bytes are not a valid path-and-query component.
    InvalidPath,
    /// The base URI's parts do not recombine around the new path.
    InvalidParts,
}

#[verifier::external_type_specification]
#[verifier::external_body]
pub struct ExUri(hyper::Uri);

#[verifier::external_type_specification]
#[verifier::external_body]
pub struct ExPathAndQuery(hyper::http::uri::PathAndQuery);

#[verifier::external_type_specification]
#[verifier::external_body]
pub struct ExInvalidUriParts(hyper::http::uri::InvalidUriParts);

/// Relies on http's `Uri::path`, re-exported by hyper: returns the path
/// component of the URI, as bytes.
#[verifier::external_body]
fn uri_path_bytes(u: &hyper::Uri) -> (r: Vec<u8>) {
    u.path().as_bytes().to_vec()
}

/// Relies on http's `PathAndQuery::from_maybe_shared`, re-exported by
/// hyper: parses bytes as a path-and-query component, rejecting invalid
/// ones rather than panicking.
#[verifier::external_body]
fn path_and_query_from_bytes(b: &Vec<u8>) -> (r: Option<hyper::http::uri::PathAndQuery>) {
    hyper::http::uri::PathAndQuery::from_maybe_shared(b.clone()).ok()
}

/// Relies on http's `Uri::from_parts`, re-exported by hyper: rebuilds a
/// URI from the base's scheme and authority around a new path-and-query;
/// `Uri::into_parts` only decomposes the base.
#[verifier::external_body]
fn uri_with_path_and_query(base: hyper::Uri, pq: hyper::http::uri::PathAndQuery) -> (r:
    Result<hyper::Uri, hyper::http::uri::InvalidUriParts>) {
    let mut parts = base.into_parts();
    parts.path_and_query = Some(pq);
    hyper::Uri::from_parts(parts)
}

/// The joined path: the base path, one separator byte, the relative path.
pub open spec fn joined_path(base: Seq<u8>, path: Seq<u8>) -> Seq<u8> {
    base + seq![47u8] + path
}

/// Appends `path` to `base` across a single separator, byte for byte.
pub fn join_path_bytes(base: &Vec<u8>, path: &Vec<u8>) -> (r: Vec<u8>)
    ensures
        r@ == joined_path(base@, path@),
{
    let mut out: Vec<u8> = Vec::new();
    let mut i: usize = 0;
    while i < base.len()
        invariant
            i <= base@.len(),
            out@ == base@.subrange(0, i as int),
        decreases base@.len() - i,
    {
        out.push(base[i]);
        i += 1;
        assert(out@ =~= base@.subrange(0, i as int));
    }
    assert(out@ =~= base@);
    out.push(47u8);
    let mut j: usize = 0;
    while j < path.len()
        invariant
            j <= path@.len(),
            out@ == base@ + seq![47u8] + path@.subrange(0, j as int),
        decreases path@.len() - j,
    {
        out.push(path[j]);
        j += 1;
        assert(out@ =~= base@ + seq![47u8] + path@.subrange(0, j as int));
    }
    assert(out@ =~= joined_path(base@, path@));
    out
}

/// Joins a relative path onto the path of a base URI: the result's path is
/// the base path, one separator, `path` — computed by the verified
/// `join_path_bytes` — with the base's scheme and authority kept. Bytes
/// that do not form a valid component are reported, never a panic.
pub fn uri_join(base: hyper::Uri, path: &Vec<u8>) -> (r: Result<hyper::Uri, UriError>) {
    let base_path = uri_path_bytes(&base);
    let joined = join_path_bytes(&base_path, path);
    match path_and_query_from_bytes(&joined) {
        None => Err(UriError::InvalidPath),
        Some(pq) => match uri_with_path_and_query(base, pq) {
            Ok(u) => Ok(u),
            Err(_) => Err(UriError::InvalidParts),
        },
    }
}

} // verus!

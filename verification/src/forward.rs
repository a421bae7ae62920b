//! Rewriting a request so it can be forwarded to the origin.
//!
//! The inbound request keeps its method, body and headers; only its target
//! changes to the resolved URL, and the `Host` header goes away so the
//! transport derives it from the new target.

use vstd::prelude::*;

use crate::json::str_eq;
use crate::ProxyError;

verus! {

/// hyper's URI type, opaque here; a parsed target is carried through to the
/// transport untouched.
#[verifier::external_type_specification]
#[verifier::external_body]
pub struct ExUri(hyper::Uri);

/// Whether `s` parses as a URI, that is, whether hyper's `Uri::from_str`
/// accepts it. The answer depends on the characters alone.
pub uninterp spec fn uri_ok(s: Seq<char>) -> bool;

/// The URI that `s` parses to when `uri_ok(s)` holds.
pub uninterp spec fn uri_of(s: Seq<char>) -> hyper::Uri;

/// Relies on hyper::Uri::from_str (http's Uri): whether and how a string
/// parses as a URI depends on its characters alone.
#[verifier::external_body]
fn parse_uri(s: &str) -> (r: Option<hyper::Uri>)
    ensures
        r is Some <==> uri_ok(s@),
        r matches Some(u) ==> u == uri_of(s@),
{
    <hyper::Uri as core::str::FromStr>::from_str(s).ok()
}

/// A rewritten request, ready to forward: the original method and headers,
/// with `Host` gone, aimed at the resolved target.
pub struct ForwardRequest {
    pub method: String,
    pub target: hyper::Uri,
    pub headers: Vec<(String, String)>,
}

/// The headers that are forwarded: every one of `hs` in order, except those
/// named `host`. (hyper hands header names over lowercased, so that one name
/// covers every spelling on the wire.)
pub open spec fn strip_host(hs: Seq<(String, String)>) -> Seq<(String, String)>
    decreases hs.len(),
{
    if hs.len() == 0 {
        Seq::<(String, String)>::empty()
    } else {
        let rest = strip_host(hs.drop_last());
        if hs.last().0@ == "host"@ {
            rest
        } else {
            rest.push(hs.last())
        }
    }
}

/// Law: what is forwarded is exactly the original header sequence with the
/// `host` entries filtered out — every other header survives, in order.
pub proof fn lemma_strip_host_is_filter(hs: Seq<(String, String)>)
    ensures
        strip_host(hs) == hs.filter(|h: (String, String)| h.0@ != "host"@),
    decreases hs.len(),
{
    reveal(Seq::filter);
    if hs.len() > 0 {
        lemma_strip_host_is_filter(hs.drop_last());
    }
}

/// Rewrites a request for forwarding: aims it at `target_url`, keeps the
/// method, and keeps every header except `Host`.
///
/// Fails with `InvalidTargetUrl` exactly when `target_url` does not parse as
/// a URI.
#[verifier::loop_isolation(false)]
pub fn build_forward(method: String, headers: Vec<(String, String)>, target_url: &String) -> (r:
    Result<ForwardRequest, ProxyError>)
    ensures
        r is Ok <==> uri_ok(target_url@),
        r matches Ok(fw) ==> fw.method == method && fw.target == uri_of(target_url@)
            && fw.headers@ == strip_host(headers@),
        r matches Err(e) ==> e == ProxyError::InvalidTargetUrl,
{
    let target = match parse_uri(target_url.as_str()) {
        Some(u) => u,
        None => {
            return Err(ProxyError::InvalidTargetUrl);
        },
    };
    let mut kept: Vec<(String, String)> = Vec::new();
    let n = headers.len();
    let mut i: usize = 0;
    while i < n
        invariant
            i <= n,
            kept@ == strip_host(headers@.take(i as int)),
        decreases n - i,
    {
        proof {
            assert(headers@.take(i + 1).drop_last() =~= headers@.take(i as int));
            assert(headers@.take(i + 1).last() == headers@[i as int]);
        }
        if !str_eq(headers[i].0.as_str(), "host") {
            kept.push((headers[i].0.clone(), headers[i].1.clone()));
            assert(kept@.last() == headers@[i as int]);
        }
        i += 1;
    }
    proof {
        assert(headers@.take(n as int) =~= headers@);
    }
    Ok(ForwardRequest { method, target, headers: kept })
}

} // verus!

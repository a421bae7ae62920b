//! The per-request resolution sequence.
//!
//! A request is resolved in at most two steps: answer from the cache, and —
//! only on a miss — absorb one freshly extracted batch and answer from that.
//! Running the extractor is the caller's job in between; everything decided
//! here is decided from the cache state and the handed-in batch alone.

use vstd::prelude::*;

use crate::cache::{good_prefix, populate_key, MetadataCache};
use crate::json::JsonVal;
use crate::parse::RequestIntent;
use crate::resolve::{intent_url_outcome, url_for_intent};
use crate::ProxyError;

verus! {

/// What the first resolution step came to.
pub enum ResolveStep {
    /// The cache held a live record; this is the URL to forward to.
    Resolved(String),
    /// A cache miss: the caller must run the extractor and come back with
    /// the batch.
    NeedsExtraction,
}

/// First step: answers from the cache when the reference is live, and asks
/// for an extraction otherwise. No extractor runs on a hit.
pub fn resolve_step(cache: &MetadataCache, intent: &RequestIntent, now: u64) -> (r: Result<
    ResolveStep,
    ProxyError,
>)
    ensures
        !cache.live(intent.reference@, now) ==> r == Ok::<ResolveStep, ProxyError>(
            ResolveStep::NeedsExtraction,
        ),
        cache.live(intent.reference@, now) ==> ({
            let (rec, inserted_at) = cache.lookup(intent.reference@)->0;
            match r {
                Ok(step) => step matches ResolveStep::Resolved(u) && intent_url_outcome(
                    rec,
                    *intent,
                    Ok(u),
                ),
                Err(e) => intent_url_outcome(rec, *intent, Err(e)),
            }
        }),
{
    match cache.get(&intent.reference, now) {
        Some(info) => match url_for_intent(info, intent) {
            Ok(url) => Ok(ResolveStep::Resolved(url)),
            Err(e) => Err(e),
        },
        None => Ok(ResolveStep::NeedsExtraction),
    }
}

/// Second step, after a miss made the caller run the extractor: absorbs the
/// batch into the cache — every record under its own key — and answers for
/// the intent out of the record now live under the reference.
///
/// Fails as the population does (`FieldMissing` on a record without an
/// identity, `NoMatchingRecord` when the batch never names the reference),
/// or as URL selection on the resolved record does.
pub fn resolve_after_extraction(
    cache: &mut MetadataCache,
    intent: &RequestIntent,
    records: Vec<JsonVal>,
    now: u64,
) -> (r: Result<String, ProxyError>)
    ensures
        final(cache).spec_ttl() == old(cache).spec_ttl(),
        forall|k: Seq<char>|
            final(cache).lookup(k) == (match populate_key(
                records@.take(good_prefix(records@)),
                k,
            ) {
                Some(rec) => Some((rec, now)),
                None => old(cache).lookup(k),
            }),
        good_prefix(records@) < records@.len() ==> (r matches Err(e)
            && e matches ProxyError::FieldMissing(f) && f@ == "original_url"@),
        good_prefix(records@) == records@.len() && !final(cache).live(intent.reference@, now)
            ==> r == Err::<String, ProxyError>(ProxyError::NoMatchingRecord),
        good_prefix(records@) == records@.len() && final(cache).live(intent.reference@, now)
            ==> ({
            let (rec, inserted_at) = final(cache).lookup(intent.reference@)->0;
            intent_url_outcome(rec, *intent, r)
        }),
{
    match cache.populate(&intent.reference, records, now) {
        Ok(()) => match cache.get(&intent.reference, now) {
            Some(info) => url_for_intent(info, intent),
            None => Err(ProxyError::NoMatchingRecord),
        },
        Err(e) => Err(e),
    }
}

} // verus!

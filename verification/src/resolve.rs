//! Reading URLs out of a metadata record.
//!
//! A record carries its own identity under `original_url`, its stream URL
//! under `url`, and its cover-art candidates under `thumbnails`. The cover
//! selection keeps the candidates that carry a usable url and preference and
//! whose url ends with the requested extension, and picks the one with the
//! highest preference; on ties the later-encountered candidate wins.

use vstd::prelude::*;

use crate::json::JsonVal;
use crate::parse::RequestIntent;
use crate::ProxyError;

verus! {

/// The canonical identity of a record: its `original_url` field, which is the
/// key it is cached under.
pub open spec fn record_key(v: JsonVal) -> Option<Seq<char>> {
    match v.spec_get("original_url"@) {
        Some(f) => f.spec_as_str(),
        None => None,
    }
}

/// The stream URL of a record: its `url` field.
pub open spec fn record_stream_url(v: JsonVal) -> Option<Seq<char>> {
    match v.spec_get("url"@) {
        Some(f) => f.spec_as_str(),
        None => None,
    }
}

/// The cover-art candidates of a record: its `thumbnails` field.
pub open spec fn record_thumbnails(v: JsonVal) -> Option<Seq<JsonVal>> {
    match v.spec_get("thumbnails"@) {
        Some(f) => f.spec_as_arr(),
        None => None,
    }
}

/// The `(url, preference)` of one thumbnail entry, or `None` when either
/// field is absent or of the wrong type (such an entry is skipped).
pub open spec fn thumb_of(v: JsonVal) -> Option<(Seq<char>, i64)> {
    let u = match v.spec_get("url"@) {
        Some(f) => f.spec_as_str(),
        None => None,
    };
    let p = match v.spec_get("preference"@) {
        Some(f) => f.spec_as_i64(),
        None => None,
    };
    if u is Some && p is Some {
        Some((u->0, p->0))
    } else {
        None
    }
}

/// Whether `s` ends with `suffix`.
pub open spec fn ends_with(s: Seq<char>, suffix: Seq<char>) -> bool {
    suffix.len() <= s.len() && s.subrange(s.len() - suffix.len(), s.len() as int) == suffix
}

/// The usable candidates for extension `ext`, in encounter order: entries
/// with a url and a preference whose url ends with `ext`.
pub open spec fn matching_thumbs(list: Seq<JsonVal>, ext: Seq<char>) -> Seq<(Seq<char>, i64)>
    decreases list.len(),
{
    if list.len() == 0 {
        Seq::<(Seq<char>, i64)>::empty()
    } else {
        let rest = matching_thumbs(list.drop_last(), ext);
        match thumb_of(list.last()) {
            Some(t) => if ends_with(t.0, ext) {
                rest.push(t)
            } else {
                rest
            },
            None => rest,
        }
    }
}

/// The winning candidate: the highest preference, and among equals the
/// later-encountered one.
pub open spec fn best_thumb(cands: Seq<(Seq<char>, i64)>) -> Option<(Seq<char>, i64)>
    decreases cands.len(),
{
    if cands.len() == 0 {
        None
    } else {
        match best_thumb(cands.drop_last()) {
            None => Some(cands.last()),
            Some(b) => if cands.last().1 >= b.1 {
                Some(cands.last())
            } else {
                Some(b)
            },
        }
    }
}

/// The position the winning candidate is taken from.
pub open spec fn best_index(cands: Seq<(Seq<char>, i64)>) -> int
    decreases cands.len(),
{
    if cands.len() <= 1 {
        0
    } else {
        let rb = best_thumb(cands.drop_last())->0;
        if cands.last().1 >= rb.1 {
            cands.len() - 1
        } else {
            best_index(cands.drop_last())
        }
    }
}

/// Law: the winner stands at `best_index`; no candidate beats its
/// preference, and every candidate after it stays strictly below — so on
/// equal preference, the later-encountered candidate is the winner.
pub proof fn lemma_best_thumb_is_max_last(cands: Seq<(Seq<char>, i64)>)
    requires
        cands.len() > 0,
    ensures
        0 <= best_index(cands) < cands.len(),
        cands[best_index(cands)] == best_thumb(cands)->0,
        forall|i: int|
            0 <= i < cands.len() ==> (#[trigger] cands[i]).1 <= (best_thumb(cands)->0).1,
        forall|j: int|
            best_index(cands) < j < cands.len() ==> (#[trigger] cands[j]).1 < (best_thumb(
                cands,
            )->0).1,
    decreases cands.len(),
{
    let b = best_thumb(cands)->0;
    if cands.len() > 1 {
        let rest = cands.drop_last();
        lemma_best_thumb_is_max_last(rest);
        let rb = best_thumb(rest)->0;
        assert(forall|j: int| 0 <= j < rest.len() ==> #[trigger] rest[j] == cands[j]);
        if cands.last().1 >= rb.1 {
            assert(b == cands.last());
            assert forall|i: int| 0 <= i < cands.len() implies (#[trigger] cands[i]).1 <= b.1 by {
                if i < cands.len() - 1 {
                    assert(rest[i].1 <= rb.1);
                }
            }
        } else {
            assert(b == rb);
            assert forall|i: int| 0 <= i < cands.len() implies (#[trigger] cands[i]).1 <= b.1 by {
                if i < cands.len() - 1 {
                    assert(rest[i].1 <= rb.1);
                }
            }
            assert forall|j: int|
                best_index(cands) < j < cands.len() implies (#[trigger] cands[j]).1 < b.1 by {
                if j < cands.len() - 1 {
                    assert(rest[j].1 < rb.1);
                }
            }
        }
    }
}

/// Whether `s` ends with `suffix`, character for character.
pub fn str_ends_with(s: &str, suffix: &str) -> (r: bool)
    ensures
        r == ends_with(s@, suffix@),
{
    let n = s.unicode_len();
    let m = suffix.unicode_len();
    if m > n {
        return false;
    }
    let mut i: usize = 0;
    while i < m
        invariant
            i <= m,
            m <= n,
            n == s@.len(),
            m == suffix@.len(),
            forall|j: int| 0 <= j < i ==> s@[n - m + j] == suffix@[j],
        decreases m - i,
    {
        if s.get_char(n - m + i) != suffix.get_char(i) {
            proof {
                assert(s@.subrange(n - m, n as int)[i as int] == s@[n - m + i]);
            }
            return false;
        }
        i += 1;
    }
    proof {
        assert(s@.subrange(n - m, n as int) =~= suffix@);
    }
    true
}

/// The cache key of a record, taken from its `original_url` field.
///
/// Fails with `FieldMissing("original_url")` exactly when the field is absent
/// or not a string.
pub fn key_from_info(info: &JsonVal) -> (r: Result<String, ProxyError>)
    ensures
        r is Ok <==> record_key(*info) is Some,
        r matches Ok(k) ==> record_key(*info) == Some(k@),
        r matches Err(e) ==> e matches ProxyError::FieldMissing(f) && f@ == "original_url"@,
{
    match info.get_field("original_url") {
        Some(v) => match v.as_str() {
            Some(s) => Ok(s.clone()),
            None => Err(ProxyError::FieldMissing("original_url".to_owned())),
        },
        None => Err(ProxyError::FieldMissing("original_url".to_owned())),
    }
}

/// The contract of stream resolution: the result is the record's `url`
/// field, or `FieldMissing("url")` when that field is absent or no string.
pub open spec fn stream_url_outcome(info: JsonVal, r: Result<String, ProxyError>) -> bool {
    &&& (r is Ok <==> record_stream_url(info) is Some)
    &&& (r matches Ok(u) ==> record_stream_url(info) == Some(u@))
    &&& (r matches Err(e) ==> e matches ProxyError::FieldMissing(f) && f@ == "url"@)
}

/// The contract of cover resolution: the result is the url of the winning
/// candidate among the record's thumbnails for the extension — or
/// `FieldMissing("thumbnails")` when the field is absent or no array, or
/// `NoMatchingThumbnail` when no usable candidate's url ends with the
/// extension.
pub open spec fn cover_url_outcome(
    info: JsonVal,
    ext: Seq<char>,
    r: Result<String, ProxyError>,
) -> bool {
    &&& (record_thumbnails(info) is None ==> (r matches Err(e)
        && e matches ProxyError::FieldMissing(f) && f@ == "thumbnails"@))
    &&& (record_thumbnails(info) matches Some(list) ==> match best_thumb(
        matching_thumbs(list, ext),
    ) {
        Some(t) => r matches Ok(u) && u@ == t.0,
        None => r matches Err(e) && (e matches ProxyError::NoMatchingThumbnail(x) && x@ == ext),
    })
}

/// The stream URL of a record, taken from its `url` field.
///
/// Fails with `FieldMissing("url")` exactly when the field is absent or not a
/// string.
pub fn stream_url_from_info(info: &JsonVal) -> (r: Result<String, ProxyError>)
    ensures
        stream_url_outcome(*info, r),
{
    match info.get_field("url") {
        Some(v) => match v.as_str() {
            Some(s) => Ok(s.clone()),
            None => Err(ProxyError::FieldMissing("url".to_owned())),
        },
        None => Err(ProxyError::FieldMissing("url".to_owned())),
    }
}

/// The best cover-art URL of a record for the requested extension.
///
/// Fails with `FieldMissing("thumbnails")` when the `thumbnails` field is
/// absent or not an array, and with `NoMatchingThumbnail` when no usable
/// candidate's url ends with the extension; otherwise returns the url of the
/// winning candidate.
pub fn cover_url_from_info(info: &JsonVal, cover_ext: &str) -> (r: Result<String, ProxyError>)
    ensures
        cover_url_outcome(*info, cover_ext@, r),
{
    let thumbs: &Vec<JsonVal> = match info.get_field("thumbnails") {
        Some(v) => match v.as_array() {
            Some(a) => a,
            None => {
                return Err(ProxyError::FieldMissing("thumbnails".to_owned()));
            },
        },
        None => {
            return Err(ProxyError::FieldMissing("thumbnails".to_owned()));
        },
    };

    let n = thumbs.len();
    let mut best: Option<(String, i64)> = None;
    let mut i: usize = 0;
    while i < n
        invariant
            i <= n,
            n == thumbs@.len(),
            record_thumbnails(*info) == Some(thumbs@),
            best is None ==> best_thumb(matching_thumbs(thumbs@.take(i as int), cover_ext@))
                is None,
            best matches Some(b) ==> best_thumb(matching_thumbs(thumbs@.take(i as int), cover_ext@))
                == Some((b.0@, b.1)),
        decreases n - i,
    {
        proof {
            assert(thumbs@.take(i + 1).drop_last() =~= thumbs@.take(i as int));
            assert(thumbs@.take(i + 1).last() == thumbs@[i as int]);
        }
        let entry = &thumbs[i];
        let url_opt = match entry.get_field("url") {
            Some(v) => v.as_str(),
            None => None,
        };
        let pref_opt = match entry.get_field("preference") {
            Some(v) => v.as_i64(),
            None => None,
        };
        match (url_opt, pref_opt) {
            (Some(u), Some(p)) => {
                assert(thumb_of(thumbs@[i as int]) == Some((u@, p)));
                if str_ends_with(u.as_str(), cover_ext) {
                    let ghost cands = matching_thumbs(thumbs@.take(i + 1), cover_ext@);
                    proof {
                        assert(cands.drop_last() =~= matching_thumbs(
                            thumbs@.take(i as int),
                            cover_ext@,
                        ));
                        assert(cands.last() == (u@, p));
                    }
                    let replace = match &best {
                        None => true,
                        Some(b) => p >= b.1,
                    };
                    if replace {
                        best = Some((u.clone(), p));
                    }
                }
            },
            _ => {
                assert(thumb_of(thumbs@[i as int]) is None);
            },
        }
        i += 1;
    }
    proof {
        assert(thumbs@.take(n as int) =~= thumbs@);
    }
    match best {
        Some(b) => Ok(b.0),
        None => Err(ProxyError::NoMatchingThumbnail(cover_ext.to_owned())),
    }
}

/// The contract of URL selection for a whole request intent: cover
/// resolution when the intent wants cover art, stream resolution otherwise.
pub open spec fn intent_url_outcome(
    info: JsonVal,
    intent: RequestIntent,
    r: Result<String, ProxyError>,
) -> bool {
    if intent.wants_cover {
        cover_url_outcome(info, intent.cover_extension@, r)
    } else {
        stream_url_outcome(info, r)
    }
}

/// The URL a request intent asks for: the best cover URL for the requested
/// extension when the intent wants cover art, the stream URL otherwise.
pub fn url_for_intent(info: &JsonVal, intent: &RequestIntent) -> (r: Result<String, ProxyError>)
    ensures
        intent_url_outcome(*info, *intent, r),
{
    if intent.wants_cover {
        cover_url_from_info(info, intent.cover_extension.as_str())
    } else {
        stream_url_from_info(info)
    }
}

} // verus!

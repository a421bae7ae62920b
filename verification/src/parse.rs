//! Parsing of the incoming request path.
//!
//! A path `/<reference>` asks for the media stream of `<reference>`; a path
//! `/<reference>/cover.<ext>` asks for its cover art with extension `<ext>`.
//! Anything else is malformed.

use vstd::prelude::*;

use crate::ProxyError;

verus! {

/// What a request path asks for, derived once per request.
///
/// `cover_extension` is empty unless `wants_cover` is true.
pub struct RequestIntent {
    pub reference: String,
    pub wants_cover: bool,
    pub cover_extension: String,
}

/// Index of the last '/' in `p`, or -1 if `p` holds none.
pub open spec fn last_slash_index(p: Seq<char>) -> int
    decreases p.len(),
{
    if p.len() == 0 {
        -1
    } else if p[p.len() - 1] == '/' {
        p.len() - 1
    } else {
        last_slash_index(p.drop_last())
    }
}

/// The suffix after the last '/', or empty if there is no '/'.
pub open spec fn suffix_of(p: Seq<char>) -> Seq<char> {
    if last_slash_index(p) >= 0 {
        p.subrange(last_slash_index(p) + 1, p.len() as int)
    } else {
        Seq::<char>::empty()
    }
}

/// Everything before the last '/', or all of `p` if there is no '/'.
pub open spec fn candidate_of(p: Seq<char>) -> Seq<char> {
    if last_slash_index(p) >= 0 {
        p.subrange(0, last_slash_index(p))
    } else {
        p
    }
}

/// `s` with every leading '/' removed.
pub open spec fn strip_leading_slashes(s: Seq<char>) -> Seq<char>
    decreases s.len(),
{
    if s.len() > 0 && s[0] == '/' {
        strip_leading_slashes(s.drop_first())
    } else {
        s
    }
}

/// Whether `s` starts with the six characters "cover.".
pub open spec fn is_cover_suffix(s: Seq<char>) -> bool {
    &&& s.len() >= 6
    &&& s[0] == 'c'
    &&& s[1] == 'o'
    &&& s[2] == 'v'
    &&& s[3] == 'e'
    &&& s[4] == 'r'
    &&& s[5] == '.'
}

/// What parsing a path yields: `Some((reference, cover_extension, wants_cover))`
/// when the path is well formed, `None` when it is malformed.
///
/// The suffix after the last '/' must either start with "cover." and carry a
/// non-empty extension after that first '.', or be empty; the reference is the
/// rest of the path with its leading '/' characters stripped, and must be
/// non-empty. A path with no '/' at all is a whole reference with an empty
/// suffix.
pub open spec fn parse_path(p: Seq<char>) -> Option<(Seq<char>, Seq<char>, bool)> {
    let suf = suffix_of(p);
    let reference = strip_leading_slashes(candidate_of(p));
    if is_cover_suffix(suf) {
        let ext = suf.subrange(6, suf.len() as int);
        if ext.len() == 0 {
            None
        } else if reference.len() == 0 {
            None
        } else {
            Some((reference, ext, true))
        }
    } else if suf.len() != 0 {
        None
    } else if reference.len() == 0 {
        None
    } else {
        Some((reference, Seq::<char>::empty(), false))
    }
}

/// If `s[j]` is the last '/' of `s`, the last-slash index is `j`.
proof fn lemma_last_slash_at(s: Seq<char>, j: int)
    requires
        0 <= j < s.len(),
        s[j] == '/',
        forall|k: int| j < k < s.len() ==> s[k] != '/',
    ensures
        last_slash_index(s) == j,
    decreases s.len(),
{
    if j == s.len() - 1 {
    } else {
        lemma_last_slash_at(s.drop_last(), j);
    }
}

/// If every character before `j` is '/' and the one at `j` (if any) is not,
/// stripping leading slashes leaves exactly the part from `j` on.
proof fn lemma_strip_at(s: Seq<char>, j: int)
    requires
        0 <= j <= s.len(),
        forall|k: int| 0 <= k < j ==> s[k] == '/',
        j < s.len() ==> s[j] != '/',
    ensures
        strip_leading_slashes(s) == s.subrange(j, s.len() as int),
    decreases j,
{
    if j == 0 {
        assert(s.subrange(0, s.len() as int) =~= s);
    } else {
        assert(s[0] == '/');
        lemma_strip_at(s.drop_first(), j - 1);
        assert(s.drop_first().subrange(j - 1, s.drop_first().len() as int) =~= s.subrange(
            j,
            s.len() as int,
        ));
    }
}

/// Law: a path of the shape `<prefix>/cover.<ext>`, with a non-empty
/// extension holding no '/' and a usable reference in the prefix, parses as a
/// cover request for exactly that reference and extension.
pub proof fn lemma_cover_path_parses(prefix: Seq<char>, ext: Seq<char>)
    requires
        ext.len() > 0,
        !ext.contains('/'),
        strip_leading_slashes(prefix).len() > 0,
    ensures
        parse_path(prefix + "/cover."@ + ext) == Some((strip_leading_slashes(prefix), ext, true)),
{
    reveal_strlit("/cover.");
    let lit = "/cover."@;
    let p = prefix + lit + ext;
    assert(p[prefix.len() as int] == '/');
    assert forall|k: int| prefix.len() < k < p.len() implies p[k] != '/' by {
        if k < prefix.len() + 7 {
            assert(p[k] == lit[k - prefix.len()]);
        } else {
            assert(p[k] == ext[k - prefix.len() - 7]);
            assert(!ext.contains(p[k]) ==> p[k] != '/') by {
                if p[k] == '/' {
                    assert(ext.contains('/'));
                }
            }
        }
    }
    lemma_last_slash_at(p, prefix.len() as int);
    let suf = suffix_of(p);
    assert(suf =~= lit.subrange(1, 7) + ext);
    assert(is_cover_suffix(suf));
    assert(suf.subrange(6, suf.len() as int) =~= ext);
    assert(candidate_of(p) =~= prefix);
}

/// Law: a well-formed path whose last segment is empty (it ends in '/' or
/// holds no '/' at all) parses as a stream request, never a cover request.
pub proof fn lemma_stream_path_parses(p: Seq<char>)
    requires
        suffix_of(p).len() == 0,
        strip_leading_slashes(candidate_of(p)).len() > 0,
    ensures
        parse_path(p) == Some(
            (strip_leading_slashes(candidate_of(p)), Seq::<char>::empty(), false),
        ),
{
}

/// Turns a raw request path into a request intent.
///
/// Fails with `MalformedRequest` exactly on the paths that `parse_path`
/// rejects: a non-empty suffix that is not a cover request, a cover request
/// with an empty extension, or an empty reference.
pub fn extract_input(path_and_query: &str) -> (r: Result<RequestIntent, ProxyError>)
    ensures
        r is Ok <==> parse_path(path_and_query@) is Some,
        r matches Ok(intent) ==> ({
            let (reference, ext, wants_cover) = parse_path(path_and_query@)->0;
            &&& intent.reference@ == reference
            &&& intent.cover_extension@ == ext
            &&& intent.wants_cover == wants_cover
        }),
        r is Err ==> r->Err_0 == ProxyError::MalformedRequest,
{
    let ghost pseq = path_and_query@;
    let len = path_and_query.unicode_len();

    // Find the last '/' by one forward scan; `len` stands for "none".
    let mut i: usize = 0;
    let mut last_slash: usize = len;
    while i < len
        invariant
            i <= len,
            len == pseq.len(),
            pseq == path_and_query@,
            last_slash <= len,
            last_slash == len ==> last_slash_index(pseq.take(i as int)) == -1,
            last_slash < len ==> last_slash < i && last_slash_index(pseq.take(i as int))
                == last_slash as int,
        decreases len - i,
    {
        let c = path_and_query.get_char(i);
        proof {
            assert(pseq.take(i + 1 as int).drop_last() =~= pseq.take(i as int));
            assert(pseq.take(i + 1 as int).last() == pseq[i as int]);
        }
        if c == '/' {
            last_slash = i;
        }
        i += 1;
    }
    proof {
        assert(pseq.take(len as int) =~= pseq);
    }

    let (candidate, suffix): (&str, &str) = if last_slash < len {
        (
            path_and_query.substring_char(0, last_slash),
            path_and_query.substring_char(last_slash + 1, len),
        )
    } else {
        (path_and_query, "")
    };
    proof {
        reveal_strlit("");
        if last_slash < len {
            assert(last_slash_index(pseq) == last_slash as int);
        } else {
            assert(last_slash_index(pseq) == -1);
            assert(""@ =~= Seq::<char>::empty());
        }
        assert(candidate@ == candidate_of(pseq));
        assert(suffix@ == suffix_of(pseq));
    }

    let suf_len = suffix.unicode_len();
    let is_asking_cover = suf_len >= 6 && suffix.get_char(0) == 'c' && suffix.get_char(1) == 'o'
        && suffix.get_char(2) == 'v' && suffix.get_char(3) == 'e' && suffix.get_char(4) == 'r'
        && suffix.get_char(5) == '.';
    assert(is_asking_cover == is_cover_suffix(suffix@));

    if !is_asking_cover && suf_len != 0 {
        return Err(ProxyError::MalformedRequest);
    }

    // Strip leading '/' characters from the candidate reference.
    let cand_len = candidate.unicode_len();
    let mut j: usize = 0;
    while j < cand_len && candidate.get_char(j) == '/'
        invariant
            j <= cand_len,
            cand_len == candidate@.len(),
            candidate@ == candidate_of(pseq),
            forall|k: int| 0 <= k < j ==> candidate@[k] == '/',
        decreases cand_len - j,
    {
        j += 1;
    }
    proof {
        lemma_strip_at(candidate@, j as int);
    }
    if j == cand_len {
        // Empty reference once the slashes are gone.
        return Err(ProxyError::MalformedRequest);
    }
    let reference = candidate.substring_char(j, cand_len);
    assert(reference@ == strip_leading_slashes(candidate_of(pseq)));

    if is_asking_cover {
        if suf_len == 6 {
            // "cover." with nothing after the '.': no extension.
            return Err(ProxyError::MalformedRequest);
        }
        let ext = suffix.substring_char(6, suf_len);
        Ok(
            RequestIntent {
                reference: reference.to_owned(),
                wants_cover: true,
                cover_extension: ext.to_owned(),
            },
        )
    } else {
        Ok(
            RequestIntent {
                reference: reference.to_owned(),
                wants_cover: false,
                cover_extension: String::new(),
            },
        )
    }
}

} // verus!

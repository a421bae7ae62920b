//! Turning the extractor's output into metadata records.
//!
//! The extractor writes one JSON document per line. A line that does not
//! parse is skipped, not fatal; a batch in which no line parses at all is an
//! extraction failure.

use vstd::prelude::*;

use crate::json::JsonVal;
use crate::ProxyError;

verus! {

/// What one line of extractor output parses to: `Some` of the document when
/// the line is one JSON document, `None` when it is not. The answer depends
/// on the characters alone.
pub uninterp spec fn json_of(s: Seq<char>) -> Option<JsonVal>;

/// serde_json's document type, opaque here: it only passes from the parse to
/// the rebuild below.
#[verifier::external_type_specification]
#[verifier::external_body]
pub struct ExValue(serde_json::Value);

/// Rebuilds a parsed document as the library's own tree, one node for one
/// node. Relies on serde_json::Value's variants and Number::as_i64: objects
/// and arrays keep their entries and order, a number keeps its i64 value
/// when it has one.
#[verifier::external_body]
fn json_of_value(v: &serde_json::Value) -> JsonVal {
    match v {
        serde_json::Value::Null => JsonVal::Null,
        serde_json::Value::Bool(b) => JsonVal::Bool(*b),
        serde_json::Value::Number(n) => match n.as_i64() {
            Some(i) => JsonVal::Int(i),
            None => JsonVal::BigNum,
        },
        serde_json::Value::String(s) => JsonVal::Str(s.clone()),
        serde_json::Value::Array(a) => JsonVal::Arr(a.iter().map(json_of_value).collect()),
        serde_json::Value::Object(o) => JsonVal::Obj(
            o.iter().map(|(k, x)| (k.clone(), json_of_value(x))).collect(),
        ),
    }
}

/// Relies on serde_json::from_str: parses one JSON document out of one line;
/// whether and what it parses depends on the characters alone.
#[verifier::external_body]
fn parse_json_line(s: &str) -> (r: Option<JsonVal>)
    ensures
        r == json_of(s@),
{
    match serde_json::from_str::<serde_json::Value>(s) {
        Ok(v) => Some(json_of_value(&v)),
        Err(_) => None,
    }
}

/// The documents of the parseable lines, in order.
pub open spec fn parsed_records(lines: Seq<Seq<char>>) -> Seq<JsonVal>
    decreases lines.len(),
{
    if lines.len() == 0 {
        Seq::<JsonVal>::empty()
    } else {
        let rest = parsed_records(lines.drop_last());
        match json_of(lines.last()) {
            Some(v) => rest.push(v),
            None => rest,
        }
    }
}

/// Index of the first '\n' in `s`, or `s.len()` if there is none.
pub open spec fn first_nl(s: Seq<char>) -> int
    decreases s.len(),
{
    if s.len() == 0 {
        0
    } else if s[0] == '\n' {
        0
    } else {
        1 + first_nl(s.drop_first())
    }
}

/// A line with its terminating "\r\n" already cut down to "\n": one trailing
/// '\r' goes too.
pub open spec fn chomp_cr(line: Seq<char>) -> Seq<char> {
    if line.len() > 0 && line.last() == '\r' {
        line.drop_last()
    } else {
        line
    }
}

/// The lines of `s`: split at every '\n', a '\r' before the '\n' dropped,
/// and no empty line after a terminating final newline.
pub open spec fn lines_of(s: Seq<char>) -> Seq<Seq<char>>
    decreases s.len(),
{
    if s.len() == 0 {
        Seq::<Seq<char>>::empty()
    } else {
        let i = first_nl(s);
        if 0 <= i && i < s.len() {
            seq![chomp_cr(s.take(i))] + lines_of(s.skip(i + 1))
        } else {
            seq![s]
        }
    }
}

/// If no '\n' stands before index `i` and one stands at `i` (if anywhere),
/// the first newline is exactly at `i`.
proof fn lemma_first_nl_at(s: Seq<char>, i: int)
    requires
        0 <= i <= s.len(),
        forall|k: int| 0 <= k < i ==> s[k] != '\n',
        i < s.len() ==> s[i] == '\n',
    ensures
        first_nl(s) == i,
    decreases i,
{
    if i == 0 {
    } else {
        lemma_first_nl_at(s.drop_first(), i - 1);
    }
}

/// Splits text into its lines, as `lines_of` describes.
#[verifier::loop_isolation(false)]
pub fn split_lines(s: &str) -> (lines: Vec<String>)
    ensures
        lines.deep_view() == lines_of(s@),
{
    let len = s.unicode_len();
    let mut lines: Vec<String> = Vec::new();
    let mut pos: usize = 0;
    proof {
        assert(s@.skip(0) =~= s@);
        assert(lines.deep_view() =~= Seq::<Seq<char>>::empty());
        assert(lines.deep_view() + lines_of(s@) =~= lines_of(s@));
    }
    while pos < len
        invariant
            pos <= len,
            lines_of(s@) == lines.deep_view() + lines_of(s@.skip(pos as int)),
        decreases len - pos,
    {
        let ghost rest = s@.skip(pos as int);
        let mut j: usize = pos;
        while j < len && s.get_char(j) != '\n'
            invariant
                pos <= j <= len,
                forall|k: int| pos <= k < j ==> s@[k] != '\n',
            decreases len - j,
        {
            j += 1;
        }
        proof {
            lemma_first_nl_at(rest, j - pos);
        }
        let ghost before = lines.deep_view();
        if j < len {
            // A terminated line: cut one '\r' right before the '\n'.
            let end = if j > pos && s.get_char(j - 1) == '\r' {
                j - 1
            } else {
                j
            };
            let line = s.substring_char(pos, end);
            lines.push(line.to_owned());
            proof {
                assert(rest.take(j - pos) =~= s@.subrange(pos as int, j as int));
                assert(chomp_cr(rest.take(j - pos)) =~= s@.subrange(pos as int, end as int));
                assert(rest.skip(j - pos + 1) =~= s@.skip(j + 1));
                assert(lines.deep_view() =~= before.push(line@));
                assert(before + (seq![line@] + lines_of(s@.skip(j + 1))) =~= before.push(line@)
                    + lines_of(s@.skip(j + 1)));
            }
            pos = j + 1;
        } else {
            // The final line, with no newline after it.
            let line = s.substring_char(pos, len);
            lines.push(line.to_owned());
            proof {
                assert(rest =~= s@.subrange(pos as int, len as int));
                assert(lines_of(rest) == seq![rest]);
                assert(lines.deep_view() =~= before.push(line@));
                assert(s@.skip(len as int).len() == 0);
                assert(before + seq![line@] =~= before.push(line@) + lines_of(
                    s@.skip(len as int),
                ));
            }
            pos = len;
        }
    }
    proof {
        assert(s@.skip(len as int).len() == 0);
        assert(lines.deep_view() + lines_of(s@.skip(pos as int)) =~= lines.deep_view());
    }
    lines
}

/// Parses one extractor batch, one line at a time, skipping lines that are
/// not JSON. Fails with `ExtractionFailed` exactly when no line parses.
#[verifier::loop_isolation(false)]
pub fn parse_stream_infos(lines: &Vec<String>) -> (r: Result<Vec<JsonVal>, ProxyError>)
    ensures
        r is Ok <==> parsed_records(lines.deep_view()).len() > 0,
        r matches Ok(infos) ==> infos@ == parsed_records(lines.deep_view()),
        r matches Err(e) ==> e == ProxyError::ExtractionFailed,
{
    let ghost views = lines.deep_view();
    let mut infos: Vec<JsonVal> = Vec::new();
    let n = lines.len();
    let mut i: usize = 0;
    while i < n
        invariant
            i <= n,
            n == views.len(),
            infos@ == parsed_records(views.take(i as int)),
        decreases n - i,
    {
        proof {
            assert(views.take(i + 1).drop_last() =~= views.take(i as int));
            assert(views.take(i + 1).last() == lines@[i as int]@);
        }
        match parse_json_line(lines[i].as_str()) {
            Some(v) => infos.push(v),
            None => {},
        }
        i += 1;
    }
    proof {
        assert(views.take(n as int) =~= views);
    }
    if infos.len() == 0 {
        Err(ProxyError::ExtractionFailed)
    } else {
        Ok(infos)
    }
}

/// Parses the extractor's whole text output: one JSON document per line,
/// lines that are not JSON skipped. Fails with `ExtractionFailed` exactly
/// when no line parses.
pub fn parse_extractor_output(out: &str) -> (r: Result<Vec<JsonVal>, ProxyError>)
    ensures
        r is Ok <==> parsed_records(lines_of(out@)).len() > 0,
        r matches Ok(infos) ==> infos@ == parsed_records(lines_of(out@)),
        r matches Err(e) ==> e == ProxyError::ExtractionFailed,
{
    let lines = split_lines(out);
    parse_stream_infos(&lines)
}

} // verus!

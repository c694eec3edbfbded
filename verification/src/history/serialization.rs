//! The history record's on-disk shape: one JSON object per line, with the
//! schema `{id, timestamp, duration_ms, request, response}`.
//!
//! Rendering a record is verified character by character; reading a line
//! back goes through the JSON parser and verified field extraction, and
//! succeeds exactly on trees of the record's shape.

use vstd::prelude::*;

use crate::history::model::HistoryEntry;
use crate::history::model::RequestSnapshot;
use crate::history::model::ResponseMeta;
use crate::http::types::append_chars;
use crate::json::obj_get;
use crate::json::push_escaped;
use crate::json::quoted;
use crate::json::JsonNode;
use crate::text::chars_string;
use crate::text::dec_of;
use crate::text::str_chars;

verus! {

/// A header list as a JSON object, from pair `i` on: each pair a quoted
/// name and value, comma-separated.
pub open spec fn headers_json_from(hs: Seq<(Seq<char>, Seq<char>)>, i: int) -> Seq<char>
    decreases hs.len() - i,
{
    if i < 0 || i >= hs.len() {
        Seq::empty()
    } else {
        quoted(hs[i].0) + seq![':'] + quoted(hs[i].1) + (if i + 1 < hs.len() {
            seq![',']
        } else {
            Seq::empty()
        }) + headers_json_from(hs, i + 1)
    }
}

/// A header list as a JSON object.
pub open spec fn headers_json(hs: Seq<(Seq<char>, Seq<char>)>) -> Seq<char> {
    seq!['{'] + headers_json_from(hs, 0) + seq!['}']
}

/// Append a header list as a JSON object.
pub fn push_headers_json(out: Vec<char>, hs: &Vec<(String, String)>) -> (r: Vec<char>)
    ensures
        r@ == out@ + headers_json(crate::http::response::headers_view(hs@)),
{
    let ghost hv = crate::http::response::headers_view(hs@);
    let mut out = out;
    let ghost base = out@;
    out.push('{');
    let n = hs.len();
    let mut i: usize = 0;
    proof {
        assert(out@ =~= base + seq!['{']);
        assert(out@ + headers_json_from(hv, 0) =~= base + seq!['{'] + headers_json_from(hv, 0));
    }
    while i < n
        invariant
            0 <= i <= n == hs@.len(),
            hv == crate::http::response::headers_view(hs@),
            out@ + headers_json_from(hv, i as int) == base + seq!['{'] + headers_json_from(hv, 0),
        decreases n - i,
    {
        let ghost pre = out@;
        out.push('"');
        out = push_escaped(out, hs[i].0.as_str());
        out.push('"');
        out.push(':');
        out.push('"');
        out = push_escaped(out, hs[i].1.as_str());
        out.push('"');
        if i + 1 < n {
            out.push(',');
        }
        i = i + 1;
        proof {
            assert(hv[i - 1] == (hs@[i - 1].0@, hs@[i - 1].1@));
            assert(out@ =~= pre + (quoted(hv[i - 1].0) + seq![':'] + quoted(hv[i - 1].1) + (
            if i < hv.len() {
                seq![',']
            } else {
                Seq::<char>::empty()
            })));
            assert(out@ + headers_json_from(hv, i as int) =~= pre + headers_json_from(hv, i - 1));
        }
    }
    out.push('}');
    proof {
        assert(headers_json_from(hv, n as int) =~= Seq::<char>::empty());
        assert(out@ =~= base + headers_json(hv));
    }
    out
}

/// The full JSON line of one history record.
pub open spec fn entry_line_spec(e: &HistoryEntry) -> Seq<char> {
    "{\"id\":"@ + quoted(e.id@) + ",\"timestamp\":"@ + quoted(e.timestamp@) + ",\"duration_ms\":"@
        + dec_of(e.duration_ms as int) + ",\"request\":{\"method\":"@ + quoted(e.request.method@)
        + ",\"url\":"@ + quoted(e.request.url@) + ",\"headers\":"@ + headers_json(
        crate::http::response::headers_view(e.request.headers@),
    ) + ",\"body\":"@ + (match e.request.body {
        Some(ref b) => quoted(b@),
        None => "null"@,
    }) + "},\"response\":{\"status\":"@ + dec_of(e.response.status as int) + ",\"headers\":"@
        + headers_json(crate::http::response::headers_view(e.response.headers@)) + "}}"@
}

/// Render one record as its JSON line, as `entry_line_spec` says.
pub fn serialize(entry: &HistoryEntry) -> (r: String)
    ensures
        r@ == entry_line_spec(entry),
{
    let mut out: Vec<char> = str_chars("{\"id\":");
    out.push('"');
    out = push_escaped(out, entry.id.as_str());
    out.push('"');
    let mut piece = str_chars(",\"timestamp\":");
    out = append_chars(out, &piece);
    out.push('"');
    out = push_escaped(out, entry.timestamp.as_str());
    out.push('"');
    piece = str_chars(",\"duration_ms\":");
    out = append_chars(out, &piece);
    let digits = crate::text::u64_dec(entry.duration_ms);
    out = append_chars(out, &digits);
    piece = str_chars(",\"request\":{\"method\":");
    out = append_chars(out, &piece);
    out.push('"');
    out = push_escaped(out, entry.request.method.as_str());
    out.push('"');
    piece = str_chars(",\"url\":");
    out = append_chars(out, &piece);
    out.push('"');
    out = push_escaped(out, entry.request.url.as_str());
    out.push('"');
    piece = str_chars(",\"headers\":");
    out = append_chars(out, &piece);
    out = push_headers_json(out, &entry.request.headers);
    piece = str_chars(",\"body\":");
    out = append_chars(out, &piece);
    match &entry.request.body {
        Some(b) => {
            out.push('"');
            out = push_escaped(out, b.as_str());
            out.push('"');
        },
        None => {
            piece = str_chars("null");
            out = append_chars(out, &piece);
        },
    }
    piece = str_chars("},\"response\":{\"status\":");
    out = append_chars(out, &piece);
    let sdigits = crate::text::u64_dec(entry.response.status as u64);
    out = append_chars(out, &sdigits);
    piece = str_chars(",\"headers\":");
    out = append_chars(out, &piece);
    out = push_headers_json(out, &entry.response.headers);
    piece = str_chars("}}");
    out = append_chars(out, &piece);
    proof {
        assert(out@ =~= entry_line_spec(entry));
    }
    chars_string(&out)
}

/// A tree field that is a string leaf.
pub open spec fn str_field(fields: Seq<(String, JsonNode)>, name: Seq<char>) -> Option<Seq<char>> {
    match obj_get(fields, name) {
        Some(JsonNode::Str(s)) => Some(s@),
        _ => None,
    }
}

/// A field holding a decimal number whose value is `v`.
pub open spec fn num_field_is(fields: Seq<(String, JsonNode)>, name: Seq<char>, v: int) -> bool {
    obj_get(fields, name) matches Some(JsonNode::NumText(n)) && n@.len() > 0
        && crate::text::all_digits(n@) && crate::text::digits_val(n@) == v
}

/// A field holding a decimal number no larger than `max`.
pub open spec fn num_field_ok(fields: Seq<(String, JsonNode)>, name: Seq<char>, max: int) -> bool {
    obj_get(fields, name) matches Some(JsonNode::NumText(n)) && n@.len() > 0
        && crate::text::all_digits(n@) && crate::text::digits_val(n@) <= max
}

/// The string-valued pairs of a headers object, in order; pairs whose
/// value is not a string are dropped.
pub open spec fn header_pairs_of(fields: Seq<(String, JsonNode)>, i: int) -> Seq<
    (Seq<char>, Seq<char>),
>
    decreases fields.len() - i,
{
    if i < 0 || i >= fields.len() {
        Seq::empty()
    } else {
        (match fields[i].1 {
            JsonNode::Str(v) => seq![(fields[i].0@, v@)],
            _ => Seq::<(Seq<char>, Seq<char>)>::empty(),
        }) + header_pairs_of(fields, i + 1)
    }
}

/// A tree of the record's shape: an object holding string `id` and
/// `timestamp`, a `u64` `duration_ms`, a request object with string
/// `method` and `url`, an object of `headers` and a string-or-null `body`,
/// and a response object with a `u16` `status` and an object of `headers`.
pub open spec fn entry_tree_ok(t: JsonNode) -> bool {
    t matches JsonNode::Obj(fields) && {
        &&& obj_get(fields@, "id"@) matches Some(JsonNode::Str(_))
        &&& obj_get(fields@, "timestamp"@) matches Some(JsonNode::Str(_))
        &&& num_field_ok(fields@, "duration_ms"@, u64::MAX as int)
        &&& (obj_get(fields@, "request"@) matches Some(JsonNode::Obj(rf)) && {
            &&& obj_get(rf@, "method"@) matches Some(JsonNode::Str(_))
            &&& obj_get(rf@, "url"@) matches Some(JsonNode::Str(_))
            &&& obj_get(rf@, "headers"@) matches Some(JsonNode::Obj(_))
            &&& (obj_get(rf@, "body"@) matches Some(JsonNode::Str(_)) || obj_get(rf@, "body"@)
                matches Some(JsonNode::Null))
        })
        &&& (obj_get(fields@, "response"@) matches Some(JsonNode::Obj(pf)) && {
            &&& num_field_ok(pf@, "status"@, u16::MAX as int)
            &&& obj_get(pf@, "headers"@) matches Some(JsonNode::Obj(_))
        })
    }
}

/// Every field of the record equals the matching field of the tree.
pub open spec fn entry_matches(t: JsonNode, e: &HistoryEntry) -> bool {
    t matches JsonNode::Obj(fields) && {
        &&& str_field(fields@, "id"@) == Some(e.id@)
        &&& str_field(fields@, "timestamp"@) == Some(e.timestamp@)
        &&& num_field_is(fields@, "duration_ms"@, e.duration_ms as int)
        &&& (obj_get(fields@, "request"@) matches Some(JsonNode::Obj(rf)) && {
            &&& str_field(rf@, "method"@) == Some(e.request.method@)
            &&& str_field(rf@, "url"@) == Some(e.request.url@)
            &&& (obj_get(rf@, "headers"@) matches Some(JsonNode::Obj(hf))
                && crate::http::response::headers_view(e.request.headers@) == header_pairs_of(
                hf@,
                0,
            ))
            &&& (match e.request.body {
                Some(ref b) => str_field(rf@, "body"@) == Some(b@),
                None => obj_get(rf@, "body"@) matches Some(JsonNode::Null),
            })
        })
        &&& (obj_get(fields@, "response"@) matches Some(JsonNode::Obj(pf)) && {
            &&& num_field_is(pf@, "status"@, e.response.status as int)
            &&& (obj_get(pf@, "headers"@) matches Some(JsonNode::Obj(qf))
                && crate::http::response::headers_view(e.response.headers@) == header_pairs_of(
                qf@,
                0,
            ))
        })
    }
}

/// Read a JSON line back into a record: it succeeds exactly when the line
/// is valid JSON of the record's shape, and then every field of the record
/// equals the matching field of the parsed tree. Header pairs whose value
/// is not a string are dropped, not an error.
pub fn deserialize(line: &str) -> (r: Option<HistoryEntry>)
    ensures
        match r {
            Some(e) => crate::json::json_doc_of(line@) matches Some(t) && entry_tree_ok(t)
                && entry_matches(t, &e),
            None => match crate::json::json_doc_of(line@) {
                Some(t) => !entry_tree_ok(t),
                None => true,
            },
        },
{
    let tree = match crate::json::parse_json(line) {
        Some(t) => t,
        None => {
            return None;
        },
    };
    let fields = match &tree {
        JsonNode::Obj(fields) => fields,
        _ => {
            return None;
        },
    };
    proof {
        assert(tree == JsonNode::Obj(*fields));
    }
    let id = match get_str(fields, "id") {
        Some(s) => s,
        None => {
            return None;
        },
    };
    let timestamp = match get_str(fields, "timestamp") {
        Some(s) => s,
        None => {
            return None;
        },
    };
    let duration_ms = match get_u64(fields, "duration_ms") {
        Some(d) => d,
        None => {
            return None;
        },
    };
    let req_fields = match get_obj(fields, "request") {
        Some(f) => f,
        None => {
            return None;
        },
    };
    let resp_fields = match get_obj(fields, "response") {
        Some(f) => f,
        None => {
            return None;
        },
    };
    let method = match get_str(req_fields, "method") {
        Some(s) => s,
        None => {
            return None;
        },
    };
    let url = match get_str(req_fields, "url") {
        Some(s) => s,
        None => {
            return None;
        },
    };
    let req_headers = match get_headers(req_fields, "headers") {
        Some(h) => h,
        None => {
            return None;
        },
    };
    let body: Option<String> = match crate::json::obj_field(req_fields, "body") {
        Some(JsonNode::Str(s)) => Some(s.clone()),
        Some(JsonNode::Null) => None,
        _ => {
            return None;
        },
    };
    let status64 = match get_u64(resp_fields, "status") {
        Some(d) => d,
        None => {
            return None;
        },
    };
    if status64 > 65535 {
        return None;
    }
    let resp_headers = match get_headers(resp_fields, "headers") {
        Some(h) => h,
        None => {
            return None;
        },
    };
    Some(
        HistoryEntry {
            id,
            timestamp,
            duration_ms,
            request: RequestSnapshot { method, url, headers: req_headers, body },
            response: ResponseMeta { status: status64 as u16, headers: resp_headers },
        },
    )
}

/// A string field of an object's field list.
fn get_str(fields: &Vec<(String, JsonNode)>, name: &str) -> (r: Option<String>)
    ensures
        match r {
            Some(s) => str_field(fields@, name@) == Some(s@),
            None => !(obj_get(fields@, name@) matches Some(JsonNode::Str(_))),
        },
{
    match crate::json::obj_field(fields, name) {
        Some(JsonNode::Str(s)) => Some(s.clone()),
        _ => None,
    }
}

/// A numeric field of an object's field list, read as a `u64`.
fn get_u64(fields: &Vec<(String, JsonNode)>, name: &str) -> (r: Option<u64>)
    ensures
        match r {
            Some(d) => num_field_is(fields@, name@, d as int),
            None => !num_field_ok(fields@, name@, u64::MAX as int),
        },
{
    match crate::json::obj_field(fields, name) {
        Some(JsonNode::NumText(n)) => {
            let nv = str_chars(n.as_str());
            crate::text::parse_u64(&nv)
        },
        _ => None,
    }
}

/// An object field of an object's field list.
fn get_obj<'a>(fields: &'a Vec<(String, JsonNode)>, name: &str) -> (r: Option<
    &'a Vec<(String, JsonNode)>,
>)
    ensures
        match r {
            Some(inner) => obj_get(fields@, name@) == Some(JsonNode::Obj(*inner)),
            None => !(obj_get(fields@, name@) matches Some(JsonNode::Obj(_))),
        },
{
    match crate::json::obj_field(fields, name) {
        Some(JsonNode::Obj(inner)) => Some(inner),
        _ => None,
    }
}

/// An object field read as a header list: string-valued pairs kept in
/// order, any other pair dropped.
fn get_headers(fields: &Vec<(String, JsonNode)>, name: &str) -> (r: Option<Vec<(String, String)>>)
    ensures
        match r {
            Some(h) => obj_get(fields@, name@) matches Some(JsonNode::Obj(inner))
                && crate::http::response::headers_view(h@) == header_pairs_of(inner@, 0),
            None => !(obj_get(fields@, name@) matches Some(JsonNode::Obj(_))),
        },
{
    match crate::json::obj_field(fields, name) {
        Some(JsonNode::Obj(inner)) => {
            let mut out: Vec<(String, String)> = Vec::new();
            let n = inner.len();
            let mut i: usize = 0;
            proof {
                assert(crate::http::response::headers_view(out@) + header_pairs_of(inner@, 0)
                    =~= header_pairs_of(inner@, 0));
            }
            while i < n
                invariant
                    0 <= i <= n == inner@.len(),
                    crate::http::response::headers_view(out@) + header_pairs_of(inner@, i as int)
                        == header_pairs_of(inner@, 0),
                decreases n - i,
            {
                let ghost pre = out@;
                match &inner[i].1 {
                    JsonNode::Str(v) => {
                        out.push((inner[i].0.clone(), v.clone()));
                        proof {
                            assert(crate::http::response::headers_view(out@)
                                =~= crate::http::response::headers_view(pre).push(
                                (inner@[i as int].0@, inner@[i as int].1->Str_0@),
                            ));
                        }
                    },
                    _ => {},
                }
                i = i + 1;
                proof {
                    assert(crate::http::response::headers_view(out@) + header_pairs_of(
                        inner@,
                        i as int,
                    ) =~= crate::http::response::headers_view(pre) + header_pairs_of(
                        inner@,
                        i - 1,
                    ));
                }
            }
            proof {
                assert(header_pairs_of(inner@, n as int) =~= Seq::<(Seq<char>, Seq<char>)>::empty());
            }
            Some(out)
        },
        _ => None,
    }
}

} // verus!

//! Turning a parsed request into a transport-ready request: method and URL
//! checked, headers applied, and the body's content type inferred.

use vstd::prelude::*;

use crate::http::request::header_set;
use crate::http::request::BodyKind;
use crate::http::request::Request;
use crate::http::response::header_lookup;
use crate::json::json_doc_of;
use crate::parser::types::ParsedRequest;
use crate::text::lower_seq;
use crate::text::trim_spec;
use crate::RupostError;

verus! {

/// A body that looks like a JSON object or array: trimmed, it is wrapped
/// in braces or brackets.
pub open spec fn is_json_like_spec(s: Seq<char>) -> bool {
    let t = trim_spec(s);
    (t.len() >= 1 && t[0] == '{' && t[t.len() - 1] == '}') || (t.len() >= 1 && t[0] == '['
        && t[t.len() - 1] == ']')
}

/// Whether a body looks JSON-shaped, as `is_json_like_spec` says.
pub fn is_json_like(s: &str) -> (r: bool)
    ensures
        r == is_json_like_spec(s@),
{
    let v = crate::text::str_chars(s);
    let t = crate::text::trim_chars(&v);
    let n = t.len();
    (n >= 1 && t[0] == '{' && t[n - 1] == '}') || (n >= 1 && t[0] == '[' && t[n - 1] == ']')
}

/// How a body travels, given the headers: an explicit JSON content type
/// demands valid JSON; an explicit form content type sends text; otherwise
/// a JSON-shaped body that parses goes as JSON and everything else as text.
pub open spec fn body_plan_spec(
    body: Seq<char>,
    headers: Seq<(Seq<char>, Seq<char>)>,
) -> Result<BodyKind, ()> {
    match header_lookup(headers, "content-type"@) {
        Some(ct) => {
            if crate::assertion::types::contains_spec(ct, "application/json"@) {
                if json_doc_of(body) is Some {
                    Ok(BodyKind::Json)
                } else {
                    Err(())
                }
            } else if crate::assertion::types::contains_spec(
                ct,
                "application/x-www-form-urlencoded"@,
            ) {
                Ok(BodyKind::Text)
            } else if is_json_like_spec(body) && json_doc_of(body) is Some {
                Ok(BodyKind::Json)
            } else {
                Ok(BodyKind::Text)
            }
        },
        None => {
            if is_json_like_spec(body) && json_doc_of(body) is Some {
                Ok(BodyKind::Json)
            } else {
                Ok(BodyKind::Text)
            }
        },
    }
}

/// Decide how a body travels, as `body_plan_spec` says.
pub fn body_plan(body: &str, headers: &Vec<(String, String)>) -> (r: Result<
    BodyKind,
    RupostError,
>)
    ensures
        match r {
            Ok(k) => body_plan_spec(
                body@,
                crate::http::response::headers_view(headers@),
            ) == Ok::<BodyKind, ()>(k),
            Err(_) => body_plan_spec(body@, crate::http::response::headers_view(headers@))
                is Err,
        },
{
    let ghost hv = crate::http::response::headers_view(headers@);
    let resp_like = crate::http::response::Response {
        status: crate::http::types::Status::server_error(),
        headers: clone_pairs(headers),
        body: String::new(),
        duration_ms: 0,
    };
    let ct = resp_like.header("content-type");
    match ct {
        Some(ctv) => {
            let cv = crate::text::str_chars(ctv);
            let json_kw = crate::text::str_chars("application/json");
            let form_kw = crate::text::str_chars("application/x-www-form-urlencoded");
            if crate::text::find_sub(&cv, &json_kw).is_some() {
                match crate::json::parse_json(body) {
                    Some(_) => Ok(BodyKind::Json),
                    None => Err(
                        RupostError::JsonError(
                            "body declared as JSON does not parse".to_owned(),
                        ),
                    ),
                }
            } else if crate::text::find_sub(&cv, &form_kw).is_some() {
                Ok(BodyKind::Text)
            } else if is_json_like(body) {
                match crate::json::parse_json(body) {
                    Some(_) => Ok(BodyKind::Json),
                    None => Ok(BodyKind::Text),
                }
            } else {
                Ok(BodyKind::Text)
            }
        },
        None => {
            if is_json_like(body) {
                match crate::json::parse_json(body) {
                    Some(_) => Ok(BodyKind::Json),
                    None => Ok(BodyKind::Text),
                }
            } else {
                Ok(BodyKind::Text)
            }
        },
    }
}

/// A copy of a list of string pairs.
pub fn clone_pairs(v: &Vec<(String, String)>) -> (r: Vec<(String, String)>)
    ensures
        crate::http::response::headers_view(r@) == crate::http::response::headers_view(v@),
        r@.len() == v@.len(),
{
    let mut out: Vec<(String, String)> = Vec::new();
    let n = v.len();
    let mut i: usize = 0;
    proof {
        assert(crate::http::response::headers_view(out@) =~= crate::http::response::headers_view(
            v@.subrange(0, 0),
        ));
    }
    while i < n
        invariant
            0 <= i <= n == v@.len(),
            out@.len() == i,
            crate::http::response::headers_view(out@) == crate::http::response::headers_view(
                v@.subrange(0, i as int),
            ),
        decreases n - i,
    {
        let ghost pre = out@;
        out.push((v[i].0.clone(), v[i].1.clone()));
        i = i + 1;
        proof {
            assert(crate::http::response::headers_view(out@)
                =~= crate::http::response::headers_view(pre).push(
                (v@[i - 1].0@, v@[i - 1].1@),
            ));
            assert(crate::http::response::headers_view(v@.subrange(0, i as int))
                =~= crate::http::response::headers_view(v@.subrange(0, i - 1)).push(
                (v@[i - 1].0@, v@[i - 1].1@),
            ));
        }
    }
    proof {
        assert(v@.subrange(0, n as int) =~= v@);
    }
    out
}

/// The headers after applying a template's pairs in order.
pub open spec fn apply_headers(
    hv: Seq<(Seq<char>, Seq<char>)>,
    list: Seq<(Seq<char>, Seq<char>)>,
    i: int,
) -> Seq<(Seq<char>, Seq<char>)>
    decreases list.len() - i,
{
    if i < 0 || i >= list.len() {
        hv
    } else {
        apply_headers(header_set(hv, lower_seq(list[i].0), list[i].1), list, i + 1)
    }
}

/// Build the transport request a parsed request describes: the default
/// method is GET, the URL must parse, the headers apply in order, and the
/// body goes as `body_plan_spec` decides, a JSON body setting the JSON
/// content type.
pub fn to_request(parsed: ParsedRequest) -> (r: crate::Result<Request>)
    ensures
        match r {
            Ok(req) => {
                &&& crate::http::types::method_of(
                    crate::text::upper_seq(
                        match parsed@.method {
                            Some(m) => m,
                            None => "GET"@,
                        },
                    ),
                ) == Some(req.method)
                &&& match parsed@.body {
                    None => req.body is None && crate::http::response::headers_view(req.headers@)
                        == apply_headers(Seq::empty(), parsed@.headers, 0),
                    Some(b) => req.body matches Some(rb) && rb@ == b && body_plan_spec(
                        b,
                        parsed@.headers,
                    ) == Ok::<BodyKind, ()>(req.body_kind) && (match req.body_kind {
                        BodyKind::Json => crate::http::response::headers_view(req.headers@)
                            == header_set(
                            apply_headers(Seq::empty(), parsed@.headers, 0),
                            "content-type"@,
                            "application/json"@,
                        ),
                        BodyKind::Text => crate::http::response::headers_view(req.headers@)
                            == apply_headers(Seq::empty(), parsed@.headers, 0),
                    }),
                }
            },
            Err(_) => {
                ||| crate::http::types::method_of(
                    crate::text::upper_seq(
                        match parsed@.method {
                            Some(m) => m,
                            None => "GET"@,
                        },
                    ),
                ) is None
                ||| crate::http::types::url_parse_of(
                    crate::http::types::normalize_spec(parsed@.url),
                ) is None
                ||| (parsed@.body matches Some(b) && body_plan_spec(b, parsed@.headers) is Err)
            },
        },
{
    let method_name: String = match &parsed.method {
        Some(m) => m.clone(),
        None => "GET".to_owned(),
    };
    let mut request = match Request::new(method_name.as_str(), parsed.url.as_str()) {
        Ok(r) => r,
        Err(e) => {
            return Err(e);
        },
    };
    let ghost plist = parsed@.headers;
    let ghost m0 = request.method;
    let n = parsed.headers.len();
    let mut i: usize = 0;
    proof {
        assert(crate::http::response::headers_view(request.headers@) =~= Seq::<
            (Seq<char>, Seq<char>),
        >::empty());
    }
    while i < n
        invariant
            0 <= i <= n == parsed.headers@.len(),
            plist == parsed@.headers,
            n == plist.len(),
            apply_headers(Seq::empty(), plist, 0) == apply_headers(
                crate::http::response::headers_view(request.headers@),
                plist,
                i as int,
            ),
            request.body is None,
            request.method == m0,
        decreases n - i,
    {
        proof {
            assert(plist[i as int] == (parsed.headers@[i as int].0@, parsed.headers@[i as int].1@));
        }
        request.insert_header(parsed.headers[i].0.as_str(), parsed.headers[i].1.as_str());
        i = i + 1;
    }
    proof {
        assert(apply_headers(Seq::empty(), plist, 0) == crate::http::response::headers_view(
            request.headers@,
        ));
    }
    match &parsed.body {
        Some(body) => {
            match body_plan(body.as_str(), &parsed.headers) {
                Ok(BodyKind::Json) => {
                    let req2 = request.with_json(body.as_str());
                    Ok(req2)
                },
                Ok(BodyKind::Text) => {
                    let req2 = request.with_text(body.as_str());
                    Ok(req2)
                },
                Err(e) => Err(e),
            }
        },
        None => Ok(request),
    }
}

} // verus!

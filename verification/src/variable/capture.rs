//! Capture directives: pulling a value out of a response into the variable
//! store for later requests.

use vstd::prelude::*;

use crate::text::str_chars;
use crate::text::chars_string;
use crate::text::copy_range;
use crate::text::starts_with;

verus! {

/// Where a captured value comes from.
#[derive(Clone, PartialEq, Eq, Debug)]
pub enum CaptureSource {
    /// A dotted path into the JSON response body, e.g. `user.id`.
    Body(String),
    /// A response header, by name.
    Header(String),
    /// A well-known trace header, picked automatically.
    TraceHeader,
}

/// Spec-level shape of a capture source.
pub enum CapSourceView {
    Body(Seq<char>),
    Header(Seq<char>),
    TraceHeader,
}

impl View for CaptureSource {
    type V = CapSourceView;

    open spec fn view(&self) -> CapSourceView {
        match self {
            CaptureSource::Body(p) => CapSourceView::Body(p@),
            CaptureSource::Header(h) => CapSourceView::Header(h@),
            CaptureSource::TraceHeader => CapSourceView::TraceHeader,
        }
    }
}

/// One capture directive: variable name plus source.
#[derive(Clone, PartialEq, Eq, Debug)]
pub struct VariableCapture {
    pub name: String,
    pub source: CaptureSource,
}

/// Spec-level shape of a capture directive.
#[verifier::ext_equal]
pub struct CaptureView {
    pub name: Seq<char>,
    pub source: CapSourceView,
}

impl View for VariableCapture {
    type V = CaptureView;

    open spec fn view(&self) -> CaptureView {
        CaptureView { name: self.name@, source: self.source@ }
    }
}

/// How a raw source string is read: a `body.` prefix selects the body path
/// after it, a `header.` prefix a header name, and anything else is taken as
/// a body path unprefixed.
pub open spec fn capture_parse_spec(name: Seq<char>, src: Seq<char>) -> CaptureView {
    if "body."@.is_prefix_of(src) {
        CaptureView { name: name, source: CapSourceView::Body(src.skip("body."@.len() as int)) }
    } else if "header."@.is_prefix_of(src) {
        CaptureView { name: name, source: CapSourceView::Header(src.skip("header."@.len() as int)) }
    } else {
        CaptureView { name: name, source: CapSourceView::Body(src) }
    }
}

impl VariableCapture {
    /// Capture from the response body at the given dotted path.
    pub fn from_body(name: &str, path: &str) -> (r: Self)
        ensures
            r@.name == name@,
            r@.source == CapSourceView::Body(path@),
    {
        VariableCapture { name: name.to_owned(), source: CaptureSource::Body(path.to_owned()) }
    }

    /// Capture from the response header of the given name.
    pub fn from_header(name: &str, header_name: &str) -> (r: Self)
        ensures
            r@.name == name@,
            r@.source == CapSourceView::Header(header_name@),
    {
        VariableCapture {
            name: name.to_owned(),
            source: CaptureSource::Header(header_name.to_owned()),
        }
    }

    /// Capture from a well-known trace header.
    pub fn from_trace_header(name: &str) -> (r: Self)
        ensures
            r@.name == name@,
            r@.source == CapSourceView::TraceHeader,
    {
        VariableCapture { name: name.to_owned(), source: CaptureSource::TraceHeader }
    }

    /// Read a raw source string, defaulting unprefixed sources to the body.
    pub fn parse(var_name: &str, source_str: &str) -> (r: Self)
        ensures
            r@ == capture_parse_spec(var_name@, source_str@),
    {
        let src = str_chars(source_str);
        let body_p = str_chars("body.");
        let header_p = str_chars("header.");
        if starts_with(&src, "body.") {
            let rest = copy_range(&src, body_p.len(), src.len());
            proof {
                assert(rest@ =~= source_str@.skip("body."@.len() as int));
            }
            VariableCapture {
                name: var_name.to_owned(),
                source: CaptureSource::Body(chars_string(&rest)),
            }
        } else if starts_with(&src, "header.") {
            let rest = copy_range(&src, header_p.len(), src.len());
            proof {
                assert(rest@ =~= source_str@.skip("header."@.len() as int));
            }
            VariableCapture {
                name: var_name.to_owned(),
                source: CaptureSource::Header(chars_string(&rest)),
            }
        } else {
            VariableCapture {
                name: var_name.to_owned(),
                source: CaptureSource::Body(source_str.to_owned()),
            }
        }
    }
}

/// What one capture directive yields from a response: a body capture walks
/// the JSON tree (absent or invalid JSON is an error, as is a missing
/// path) and stores the node's text, a container as its whole JSON text; a
/// header capture reads the header; any other source is unsupported.
pub open spec fn capture_one_spec(
    tree: Option<crate::json::JsonNode>,
    headers: Seq<(Seq<char>, Seq<char>)>,
    cap: CaptureView,
) -> Result<Seq<char>, ()> {
    match cap.source {
        CapSourceView::Body(path) => match tree {
            None => Err(()),
            Some(t) => match crate::json::lookup_spec(
                t,
                crate::assertion::parser::split_dots(path, 0),
                0,
            ) {
                None => Err(()),
                Some(node) => Ok(crate::json::node_capture_text(node)),
            },
        },
        CapSourceView::Header(name) => match crate::http::response::header_lookup(headers, name) {
            Some(v) => Ok(v),
            None => Err(()),
        },
        CapSourceView::TraceHeader => Err(()),
    }
}

/// All captures in order; the first failure aborts the whole set.
pub open spec fn captures_spec(
    tree: Option<crate::json::JsonNode>,
    headers: Seq<(Seq<char>, Seq<char>)>,
    caps: Seq<CaptureView>,
    i: int,
) -> Result<Seq<(Seq<char>, Seq<char>)>, ()>
    decreases caps.len() - i,
{
    if i < 0 || i >= caps.len() {
        Ok(Seq::empty())
    } else {
        match capture_one_spec(tree, headers, caps[i]) {
            Err(_) => Err(()),
            Ok(v) => match captures_spec(tree, headers, caps, i + 1) {
                Err(_) => Err(()),
                Ok(rest) => Ok(seq![(caps[i].name, v)] + rest),
            },
        }
    }
}

proof fn lemma_captures_err(
    tree: Option<crate::json::JsonNode>,
    headers: Seq<(Seq<char>, Seq<char>)>,
    caps: Seq<CaptureView>,
    j: int,
    k: int,
)
    requires
        0 <= j <= k,
        captures_spec(tree, headers, caps, k) is Err,
    ensures
        captures_spec(tree, headers, caps, j) is Err,
    decreases k - j,
{
    if j < k {
        lemma_captures_err(tree, headers, caps, j + 1, k);
    }
}

/// Extract every configured capture from a response, as `captures_spec`
/// says, with the body parsed as JSON once.
pub fn capture_from_response(
    response_body: &str,
    response_headers: &Vec<(String, String)>,
    captures: &Vec<VariableCapture>,
) -> (r: crate::Result<Vec<(String, String)>>)
    ensures
        match r {
            Ok(pairs) => captures_spec(
                crate::json::json_doc_of(response_body@),
                crate::http::response::headers_view(response_headers@),
                captures@.map_values(|c: VariableCapture| c@),
                0,
            ) == Ok::<Seq<(Seq<char>, Seq<char>)>, ()>(
                crate::http::response::headers_view(pairs@),
            ),
            Err(_) => captures@.len() > 0 && captures_spec(
                crate::json::json_doc_of(response_body@),
                crate::http::response::headers_view(response_headers@),
                captures@.map_values(|c: VariableCapture| c@),
                0,
            ) is Err,
        },
{
    let ghost cv = captures@.map_values(|c: VariableCapture| c@);
    let ghost hv = crate::http::response::headers_view(response_headers@);
    let ghost tree_g = crate::json::json_doc_of(response_body@);
    let n = captures.len();
    if n == 0 {
        let empty_out: Vec<(String, String)> = Vec::new();
        proof {
            assert(crate::http::response::headers_view(empty_out@) =~= Seq::<
                (Seq<char>, Seq<char>),
            >::empty());
        }
        return Ok(empty_out);
    }
    let tree = crate::json::parse_json(response_body);
    let resp_like = crate::http::response::Response {
        status: crate::http::types::Status::server_error(),
        headers: crate::parser::converter::clone_pairs(response_headers),
        body: String::new(),
        duration_ms: 0,
    };
    let mut out: Vec<(String, String)> = Vec::new();
    proof {
        assert(captures_spec(tree_g, hv, cv, n as int) == Ok::<Seq<(Seq<char>, Seq<char>)>, ()>(
            Seq::empty(),
        ));
        assert(crate::http::response::headers_view(out@) =~= Seq::<(Seq<char>, Seq<char>)>::empty());
    }
    let mut i: usize = n;
    // Walk backward so the head-first specification folds directly.
    while i > 0
        invariant
            0 <= i <= n == captures@.len(),
            cv == captures@.map_values(|c: VariableCapture| c@),
            hv == crate::http::response::headers_view(response_headers@),
            hv == crate::http::response::headers_view(resp_like.headers@),
            tree_g == crate::json::json_doc_of(response_body@),
            tree == tree_g,
            captures_spec(tree_g, hv, cv, i as int) == Ok::<Seq<(Seq<char>, Seq<char>)>, ()>(
                crate::http::response::headers_view(out@),
            ),
        decreases i,
    {
        i = i - 1;
        let cap = &captures[i];
        proof {
            assert(cv[i as int] == captures@[i as int]@);
        }
        let value: String = match &cap.source {
            CaptureSource::Body(path) => {
                match &tree {
                    None => {
                        proof {
                            assert(capture_one_spec(tree_g, hv, cv[i as int]) is Err);
                            assert(captures_spec(tree_g, hv, cv, i as int) is Err);
                            lemma_captures_err(tree_g, hv, cv, 0, i as int);
                        }
                        return Err(
                            crate::RupostError::ParseError(
                                "response body is not valid JSON".to_owned(),
                            ),
                        );
                    },
                    Some(t) => {
                        let pv = str_chars(path.as_str());
                        let mut segs: Vec<String> = Vec::new();
                        let m = pv.len();
                        let mut k: usize = 0;
                        let ghost target = crate::assertion::parser::split_dots(pv@, 0);
                        proof {
                            assert(segs@.map_values(|s: String| s@) =~= Seq::<Seq<char>>::empty());
                            assert(Seq::<Seq<char>>::empty() + target =~= target);
                        }
                        while k <= m
                            invariant
                                0 <= k <= m + 1,
                                m + 1 <= usize::MAX,
                                m == pv@.len(),
                                target == crate::assertion::parser::split_dots(pv@, 0),
                                k <= m ==> segs@.map_values(|s: String| s@)
                                    + crate::assertion::parser::split_dots(pv@, k as int)
                                    == target,
                                k == m + 1 ==> segs@.map_values(|s: String| s@) == target,
                            decreases m + 1 - k,
                        {
                            let ghost pre_segs = segs@;
                            match crate::text::find_char_at(&pv, '.', k) {
                                Some(j) => {
                                    let piece = copy_range(&pv, k, j);
                                    segs.push(chars_string(&piece));
                                    proof {
                                        assert(segs@.map_values(|s: String| s@)
                                            =~= pre_segs.map_values(|s: String| s@).push(
                                            pv@.subrange(k as int, j as int),
                                        ));
                                        assert(pre_segs.map_values(|s: String| s@).push(
                                            pv@.subrange(k as int, j as int),
                                        ) + crate::assertion::parser::split_dots(pv@, j + 1)
                                            =~= pre_segs.map_values(|s: String| s@) + (seq![
                                            pv@.subrange(k as int, j as int),
                                        ] + crate::assertion::parser::split_dots(pv@, j + 1)));
                                    }
                                    k = j + 1;
                                },
                                None => {
                                    let piece = copy_range(&pv, k, m);
                                    segs.push(chars_string(&piece));
                                    proof {
                                        assert(segs@.map_values(|s: String| s@)
                                            =~= pre_segs.map_values(|s: String| s@).push(
                                            pv@.subrange(k as int, m as int),
                                        ));
                                        assert(pre_segs.map_values(|s: String| s@).push(
                                            pv@.subrange(k as int, m as int),
                                        ) =~= pre_segs.map_values(|s: String| s@) + seq![
                                            pv@.subrange(k as int, m as int),
                                        ]);
                                    }
                                    k = m + 1;
                                },
                            }
                        }
                        match crate::json::lookup(t, &segs) {
                            None => {
                                proof {
                                    assert(capture_one_spec(tree_g, hv, cv[i as int]) is Err);
                                    assert(captures_spec(tree_g, hv, cv, i as int) is Err);
                                    lemma_captures_err(tree_g, hv, cv, 0, i as int);
                                }
                                return Err(
                                    crate::RupostError::Other(
                                        "capture path not found in response body".to_owned(),
                                    ),
                                );
                            },
                            Some(node) => crate::json::node_capture_string(node),
                        }
                    },
                }
            },
            CaptureSource::Header(name) => {
                match resp_like.header(name.as_str()) {
                    Some(v) => v.to_owned(),
                    None => {
                        proof {
                            assert(capture_one_spec(tree_g, hv, cv[i as int]) is Err);
                            assert(captures_spec(tree_g, hv, cv, i as int) is Err);
                            lemma_captures_err(tree_g, hv, cv, 0, i as int);
                        }
                        return Err(crate::RupostError::Other("header not found".to_owned()));
                    },
                }
            },
            CaptureSource::TraceHeader => {
                proof {
                    assert(cv[i as int].source is TraceHeader);
                    assert(capture_one_spec(tree_g, hv, cv[i as int]) is Err);
                    assert(captures_spec(tree_g, hv, cv, i as int) is Err);
                    lemma_captures_err(tree_g, hv, cv, 0, i as int);
                }
                return Err(crate::RupostError::Other("unsupported capture source".to_owned()));
            },
        };
        let ghost val_v = value@;
        proof {
            assert(capture_one_spec(tree_g, hv, cv[i as int]) == Ok::<Seq<char>, ()>(val_v));
        }
        let ghost pre_out = out@;
        out.insert(0, (cap.name.clone(), value));
        proof {
            assert(crate::http::response::headers_view(out@) =~= seq![(cv[i as int].name, val_v)]
                + crate::http::response::headers_view(pre_out));
        }
    }
    Ok(out)
}

} // verus!

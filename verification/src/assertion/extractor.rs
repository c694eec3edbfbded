//! Pulling the value a path names out of a response.

use vstd::prelude::*;

use crate::assertion::types::AssertError;
use crate::assertion::types::AssertErrKind;
use crate::assertion::types::PathView;
use crate::assertion::types::AssertValue;
use crate::assertion::types::ValuePath;
use crate::assertion::types::ValueView;
use crate::http::response::header_lookup;
use crate::http::response::headers_view;
use crate::http::response::Response;
use crate::json::json_doc_of;
use crate::json::lookup_spec;
use crate::json::JsonNode;
use crate::number::num_of_u64;
use crate::number::parse_number_spec;

verus! {

/// What a body leaf contributes to a comparison: numbers are re-read from
/// their decimal text, strings, booleans and null carry over, containers
/// cannot be compared.
pub open spec fn leaf_value(n: JsonNode) -> Result<ValueView, AssertErrKind> {
    match n {
        JsonNode::NumText(t) => match parse_number_spec(t@) {
            Some(num) => Ok(ValueView::Number(num)),
            None => Err(AssertErrKind::ExtractionError),
        },
        JsonNode::Str(s) => Ok(ValueView::Str(s@)),
        JsonNode::Bool(b) => Ok(ValueView::Bool(b)),
        JsonNode::Null => Ok(ValueView::Null),
        JsonNode::Arr(_) => Err(AssertErrKind::ExtractionError),
        JsonNode::Obj(_) => Err(AssertErrKind::ExtractionError),
    }
}

/// The value a path names in a response: the numeric status, a header's
/// text, a leaf of the JSON body, or the elapsed milliseconds.
pub open spec fn extract_spec(resp: &Response, path: PathView) -> Result<
    ValueView,
    AssertErrKind,
> {
    match path {
        PathView::Status => Ok(ValueView::Number(num_of_u64(resp.status@ as u64))),
        PathView::Header(name) => match header_lookup(headers_view(resp.headers@), name) {
            Some(v) => Ok(ValueView::Str(v)),
            None => Err(AssertErrKind::PathNotFound),
        },
        PathView::Body(segs) => match json_doc_of(resp.body@) {
            None => Err(AssertErrKind::JsonError),
            Some(tree) => match lookup_spec(tree, segs, 0) {
                None => Err(AssertErrKind::PathNotFound),
                Some(node) => leaf_value(node),
            },
        },
        PathView::ResponseTime => Ok(ValueView::Number(num_of_u64(resp.duration_ms))),
    }
}

/// Extract the value a path names, as `extract_spec` says.
pub fn extract_value(response: &Response, path: &ValuePath) -> (r: Result<
    AssertValue,
    AssertError,
>)
    ensures
        match r {
            Ok(v) => extract_spec(response, path@) == Ok::<ValueView, AssertErrKind>(v@)
                && crate::assertion::types::value_wf(v@),
            Err(e) => extract_spec(response, path@) == Err::<ValueView, AssertErrKind>(e@),
        },
{
    match path {
        ValuePath::Status => {
            let code = response.status.code();
            Ok(AssertValue::Number(crate::number::number_from_u64(code as u64)))
        },
        ValuePath::Header(name) => {
            match response.header(name.as_str()) {
                Some(v) => Ok(AssertValue::String(v.to_owned())),
                None => Err(AssertError::PathNotFound("header not found".to_owned())),
            }
        },
        ValuePath::Body(segs) => {
            match crate::json::parse_json(response.body.as_str()) {
                None => Err(
                    AssertError::JsonError("response body is not valid JSON".to_owned()),
                ),
                Some(tree) => {
                    match crate::json::lookup(&tree, segs) {
                        None => Err(
                            AssertError::PathNotFound("body path not found".to_owned()),
                        ),
                        Some(node) => {
                            match node {
                                JsonNode::NumText(t) => {
                                    let tv = crate::text::str_chars(t.as_str());
                                    match crate::number::parse_number(&tv) {
                                        Some(num) => Ok(AssertValue::Number(num)),
                                        None => Err(
                                            AssertError::ExtractionError(
                                                "number cannot be represented".to_owned(),
                                            ),
                                        ),
                                    }
                                },
                                JsonNode::Str(s) => Ok(AssertValue::String(s.clone())),
                                JsonNode::Bool(b) => Ok(AssertValue::Bool(*b)),
                                JsonNode::Null => Ok(AssertValue::Null),
                                JsonNode::Arr(_) => Err(
                                    AssertError::ExtractionError(
                                        "cannot compare arrays or objects directly".to_owned(),
                                    ),
                                ),
                                JsonNode::Obj(_) => Err(
                                    AssertError::ExtractionError(
                                        "cannot compare arrays or objects directly".to_owned(),
                                    ),
                                ),
                            }
                        },
                    }
                },
            }
        },
        ValuePath::ResponseTime => {
            Ok(AssertValue::Number(crate::number::number_from_u64(response.duration_ms)))
        },
    }
}

} // verus!

//! Evaluating an assertion against a response.

use vstd::prelude::*;

use crate::assertion::extractor::extract_spec;
use crate::assertion::extractor::extract_value;
use crate::assertion::types::compare_spec;
use crate::assertion::types::op_name;
use crate::assertion::types::path_text;
use crate::assertion::types::value_text;
use crate::assertion::types::AssertExpr;
use crate::assertion::types::AssertionResult;
use crate::assertion::types::ExprView;
use crate::assertion::types::ValuePath;
use crate::http::response::Response;
use crate::text::chars_string;
use crate::text::str_chars;
use crate::http::types::append_chars;

verus! {

/// Whether an assertion holds of a response: a comparison holds when
/// extraction and comparison both succeed and the comparison is true; an
/// existence check holds exactly when extraction succeeds. Errors are
/// failures, never faults.
pub open spec fn eval_passed(e: ExprView, resp: &Response) -> bool {
    match e {
        ExprView::Compare(l, op, rv) => match extract_spec(resp, l) {
            Ok(a) => match compare_spec(a, op, rv) {
                Ok(b) => b,
                Err(_) => false,
            },
            Err(_) => false,
        },
        ExprView::Exists(p) => extract_spec(resp, p) is Ok,
    }
}

/// The canonical text of an assertion expression.
pub open spec fn assertion_text(e: ExprView) -> Seq<char> {
    match e {
        ExprView::Compare(l, op, rv) => path_text(l) + seq![' '] + op_name(op) + seq![' ']
            + value_text(rv),
        ExprView::Exists(p) => path_text(p) + " exists"@,
    }
}

/// Render a path, as `path_text` says.
fn path_string(p: &ValuePath) -> (r: Vec<char>)
    ensures
        r@ == path_text(p@),
{
    match p {
        ValuePath::Status => str_chars("status"),
        ValuePath::ResponseTime => str_chars("response.time"),
        ValuePath::Header(n) => {
            let mut out = str_chars("headers.");
            let nv = str_chars(n.as_str());
            out = append_chars(out, &nv);
            out
        },
        ValuePath::Body(segs) => {
            let mut out = str_chars("body.");
            let ghost base = out@;
            let ghost sv = segs@.map_values(|s: String| s@);
            let n = segs.len();
            let mut i: usize = 0;
            proof {
                assert(crate::assertion::types::join_dots(sv, 0) =~= Seq::<char>::empty());
                assert(out@ =~= base + crate::assertion::types::join_dots(sv, 0));
            }
            while i < n
                invariant
                    0 <= i <= n == segs@.len(),
                    sv == segs@.map_values(|s: String| s@),
                    base == "body."@,
                    out@ == base + crate::assertion::types::join_dots(sv, i as int),
                decreases n - i,
            {
                if i > 0 {
                    out.push('.');
                }
                let piece = str_chars(segs[i].as_str());
                proof {
                    assert(sv[i as int] == segs@[i as int]@);
                }
                out = append_chars(out, &piece);
                i = i + 1;
                proof {
                    assert(out@ =~= base + crate::assertion::types::join_dots(sv, i as int));
                }
            }
            out
        },
    }
}

/// The printed form of a path, as `path_text` says.
pub fn path_display(p: &ValuePath) -> (r: String)
    ensures
        r@ == path_text(p@),
{
    let v = path_string(p);
    chars_string(&v)
}

/// Evaluate one assertion. The result's `passed` field is exactly
/// `eval_passed`; a failed or erroneous assertion always carries a
/// message, a passed one never does; a comparison that could not extract
/// its value carries no actual text, while a failed existence check
/// reports `not found`. Errors become failing results and never propagate.
pub fn evaluate_assertion(assertion: &AssertExpr, response: &Response) -> (r: AssertionResult)
    requires
        crate::assertion::types::expr_wf(assertion@),
    ensures
        r.passed == eval_passed(assertion@, response),
        r.raw@ == assertion_text(assertion@),
        r.message is Some <==> !r.passed,
        match assertion@ {
            ExprView::Compare(l, op, rv) => match extract_spec(response, l) {
                Ok(a) => match compare_spec(a, op, rv) {
                    Ok(_) => r.actual matches Some(s) && s@ == value_text(a),
                    Err(_) => r.actual is None,
                },
                Err(_) => r.actual is None,
            },
            ExprView::Exists(_) => r.actual is Some,
        },
{
    let raw_chars = match assertion {
        AssertExpr::Compare { left, op, right } => {
            let mut out = path_string(left);
            out.push(' ');
            let opv = str_chars(op.as_str());
            out = append_chars(out, &opv);
            out.push(' ');
            let valtext = right.to_text();
            let vv = str_chars(valtext.as_str());
            out = append_chars(out, &vv);
            proof {
                assert(out@ =~= assertion_text(assertion@));
            }
            out
        },
        AssertExpr::Exists { path } => {
            let mut out = path_string(path);
            let sfx = str_chars(" exists");
            out = append_chars(out, &sfx);
            out
        },
    };
    let raw = chars_string(&raw_chars);
    match assertion {
        AssertExpr::Compare { left, op, right } => {
            let actual_value = match extract_value(response, left) {
                Ok(v) => v,
                Err(e) => {
                    return AssertionResult::error(raw, e);
                },
            };
            match actual_value.compare(*op, right) {
                Ok(passed) => {
                    let actual_str = actual_value.to_text();
                    let mut exp = str_chars(op.as_str());
                    exp.push(' ');
                    let rv = str_chars(right.to_text().as_str());
                    exp = append_chars(exp, &rv);
                    let expected_str = chars_string(&exp);
                    if passed {
                        AssertionResult::success(raw, actual_str, expected_str)
                    } else {
                        let mut msg = str_chars("expected ");
                        let lv = path_string(left);
                        msg = append_chars(msg, &lv);
                        let mid = str_chars(" to be ");
                        msg = append_chars(msg, &mid);
                        let ev = str_chars(expected_str.as_str());
                        msg = append_chars(msg, &ev);
                        let mid2 = str_chars(", but got ");
                        msg = append_chars(msg, &mid2);
                        let av = str_chars(actual_str.as_str());
                        msg = append_chars(msg, &av);
                        AssertionResult::failure(raw, actual_str, expected_str, chars_string(&msg))
                    }
                },
                Err(e) => AssertionResult::error(raw, e),
            }
        },
        AssertExpr::Exists { path } => {
            match extract_value(response, path) {
                Ok(v) => {
                    let actual_str = v.to_text();
                    AssertionResult::success(raw, actual_str, "exists".to_owned())
                },
                Err(_) => {
                    let mut msg = str_chars("expected ");
                    let pv = path_string(path);
                    msg = append_chars(msg, &pv);
                    let sfx = str_chars(" to exist, but it was not found");
                    msg = append_chars(msg, &sfx);
                    AssertionResult::failure(
                        raw,
                        "not found".to_owned(),
                        "exists".to_owned(),
                        chars_string(&msg),
                    )
                },
            }
        },
    }
}

} // verus!

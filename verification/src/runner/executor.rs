//! The per-request pipeline around the transport: resolving templates
//! before dispatch, then captures and assertions after the response.
//!
//! Dispatch itself is outside the library: a caller resolves a request,
//! exchanges it, and hands the response back to `process_response`. The
//! sequencing contract — captures apply to the store before that same
//! request's assertions are resolved — is part of `process_response`'s
//! postcondition.

use vstd::prelude::*;

use crate::assertion::evaluator::evaluate_assertion;
use crate::assertion::evaluator::eval_passed;
use crate::assertion::parser::parse_assertion;
use crate::assertion::parser::parse_assertion_spec;
use crate::assertion::types::AssertionResult;
use crate::http::response::headers_view;
use crate::http::response::Response;
use crate::json::json_doc_of;
use crate::parser::types::ParsedRequest;
use crate::parser::types::RequestMetadata;
use crate::variable::capture::captures_spec;
use crate::variable::capture::capture_one_spec;
use crate::variable::capture::capture_from_response;
use crate::variable::capture::CaptureView;
use crate::variable::resolver::is_var_name;
use crate::variable::resolver::lemma_template_resolves;
use crate::variable::resolver::resolve_spec;
use crate::variable::resolver::VariableResolver;
use crate::variable::types::extend_spec;
use crate::variable::types::VariableContext;

verus! {

/// A parsed request with its templates resolved: the URL, each header
/// value and the body run through both substitution phases; everything
/// else carries over.
pub fn resolve_request(
    parsed: &ParsedRequest,
    env: &VariableContext,
    vars: &VariableContext,
) -> (r: ParsedRequest)
    ensures
        r@.url == resolve_spec(parsed@.url, env@, vars@),
        r@.headers == parsed@.headers.map_values(
            |h: (Seq<char>, Seq<char>)| (h.0, resolve_spec(h.1, env@, vars@)),
        ),
        r@.body == (match parsed@.body {
            Some(b) => Some(resolve_spec(b, env@, vars@)),
            None => None,
        }),
        r@.method == parsed@.method,
        r@.metadata == parsed@.metadata,
        r@.line_number == parsed@.line_number,
{
    let url = VariableResolver::resolve(parsed.url.as_str(), env, vars);
    let mut headers: Vec<(String, String)> = Vec::new();
    let n = parsed.headers.len();
    let ghost target = parsed@.headers.map_values(
        |h: (Seq<char>, Seq<char>)| (h.0, resolve_spec(h.1, env@, vars@)),
    );
    let mut i: usize = 0;
    proof {
        assert(headers@.map_values(|h: (String, String)| (h.0@, h.1@)) =~= target.subrange(0, 0));
    }
    while i < n
        invariant
            0 <= i <= n == parsed.headers@.len(),
            target == parsed@.headers.map_values(
                |h: (Seq<char>, Seq<char>)| (h.0, resolve_spec(h.1, env@, vars@)),
            ),
            target.len() == n,
            headers@.map_values(|h: (String, String)| (h.0@, h.1@)) == target.subrange(
                0,
                i as int,
            ),
        decreases n - i,
    {
        let ghost pre = headers@;
        let value = VariableResolver::resolve(parsed.headers[i].1.as_str(), env, vars);
        headers.push((parsed.headers[i].0.clone(), value));
        i = i + 1;
        proof {
            assert(headers@.map_values(|h: (String, String)| (h.0@, h.1@)) =~= pre.map_values(
                |h: (String, String)| (h.0@, h.1@),
            ).push(target[i - 1]));
            assert(pre.map_values(|h: (String, String)| (h.0@, h.1@)).push(target[i - 1])
                =~= target.subrange(0, i as int));
        }
    }
    proof {
        assert(target.subrange(0, n as int) =~= target);
    }
    let body: Option<String> = match &parsed.body {
        Some(b) => Some(VariableResolver::resolve(b.as_str(), env, vars)),
        None => None,
    };
    let method: Option<String> = match &parsed.method {
        Some(m) => Some(m.clone()),
        None => None,
    };
    let r = ParsedRequest {
        method,
        url,
        headers,
        body,
        metadata: clone_metadata(&parsed.metadata),
        line_number: parsed.line_number,
    };
    proof {
        assert(r@.headers =~= target);
    }
    r
}

/// A copy of request metadata with an identical view.
pub fn clone_metadata(m: &RequestMetadata) -> (r: RequestMetadata)
    ensures
        r@ == m@,
{
    let name: Option<String> = match &m.name {
        Some(n) => Some(n.clone()),
        None => None,
    };
    let mut assertions: Vec<String> = Vec::new();
    let na = m.assertions.len();
    let mut i: usize = 0;
    while i < na
        invariant
            0 <= i <= na == m.assertions@.len(),
            assertions@.map_values(|a: String| a@) == m@.assertions.subrange(0, i as int),
        decreases na - i,
    {
        let ghost pre = assertions@;
        assertions.push(m.assertions[i].clone());
        i = i + 1;
        proof {
            assert(assertions@.map_values(|a: String| a@) =~= pre.map_values(
                |a: String| a@,
            ).push(m@.assertions[i - 1]));
            assert(pre.map_values(|a: String| a@).push(m@.assertions[i - 1]) =~= m@.assertions
                .subrange(0, i as int));
        }
    }
    let mut captures: Vec<crate::variable::capture::VariableCapture> = Vec::new();
    let nc = m.captures.len();
    let mut j: usize = 0;
    while j < nc
        invariant
            0 <= j <= nc == m.captures@.len(),
            captures@.map_values(|c: crate::variable::capture::VariableCapture| c@)
                == m@.captures.subrange(0, j as int),
        decreases nc - j,
    {
        let ghost pre = captures@;
        let src = &m.captures[j];
        let name_c = src.name.clone();
        let source_c = match &src.source {
            crate::variable::capture::CaptureSource::Body(p) =>
                crate::variable::capture::CaptureSource::Body(p.clone()),
            crate::variable::capture::CaptureSource::Header(h) =>
                crate::variable::capture::CaptureSource::Header(h.clone()),
            crate::variable::capture::CaptureSource::TraceHeader =>
                crate::variable::capture::CaptureSource::TraceHeader,
        };
        captures.push(
            crate::variable::capture::VariableCapture { name: name_c, source: source_c },
        );
        j = j + 1;
        proof {
            assert(captures@.map_values(|c: crate::variable::capture::VariableCapture| c@)
                =~= pre.map_values(|c: crate::variable::capture::VariableCapture| c@).push(
                m@.captures[j - 1],
            ));
            assert(pre.map_values(|c: crate::variable::capture::VariableCapture| c@).push(
                m@.captures[j - 1],
            ) =~= m@.captures.subrange(0, j as int));
        }
    }
    let r = RequestMetadata { name, skip: m.skip, timeout: m.timeout, assertions, captures };
    proof {
        assert(r@.assertions =~= m@.assertions);
        assert(r@.captures =~= m@.captures);
        assert(r@ =~~= m@);
    }
    r
}

/// The outcome an assertion text has after resolution: resolved against
/// the store, parsed, and evaluated; a text that fails to parse fails.
pub open spec fn assertion_outcome(
    raw: Seq<char>,
    env: Map<Seq<char>, Seq<char>>,
    vars: Map<Seq<char>, Seq<char>>,
    resp: &Response,
) -> bool {
    match parse_assertion_spec(resolve_spec(raw, env, vars)) {
        Ok(e) => eval_passed(e, resp),
        Err(_) => false,
    }
}

/// The store after a response's captures: every captured pair applied in
/// order on success, untouched when any capture fails.
pub open spec fn store_after_captures(
    vars: Map<Seq<char>, Seq<char>>,
    resp: &Response,
    caps: Seq<CaptureView>,
) -> Map<Seq<char>, Seq<char>> {
    match captures_spec(json_doc_of(resp.body@), headers_view(resp.headers@), caps, 0) {
        Ok(pairs) => extend_spec(vars, pairs),
        Err(_) => vars,
    }
}

/// Run a response through a request's captures and assertions. The
/// captures mutate the store first; every assertion is then resolved
/// against the mutated store — so an assertion may refer to a value its
/// own request just captured — and evaluated against the response.
pub fn process_response(
    metadata: &RequestMetadata,
    response: &Response,
    env: &VariableContext,
    vars: &mut VariableContext,
) -> (results: Vec<AssertionResult>)
    ensures
        final(vars)@ == store_after_captures(old(vars)@, response, metadata@.captures),
        results@.len() == metadata@.assertions.len(),
        forall|k: int|
            0 <= k < results@.len() ==> (#[trigger] results@[k]).passed == assertion_outcome(
                metadata@.assertions[k],
                env@,
                final(vars)@,
                response,
            ),
        forall|k: int|
            0 <= k < results@.len() ==> ((#[trigger] results@[k]).message is Some <==> !results@[
                k].passed),
{
    if metadata.captures.len() > 0 {
        match capture_from_response(response.body.as_str(), &response.headers, &metadata.captures)
        {
            Ok(pairs) => {
                vars.extend(&pairs);
            },
            Err(_) => {
                // A failed capture is non-fatal; the store stays as it was.
            },
        }
    } else {
        proof {
            assert(captures_spec(
                json_doc_of(response.body@),
                headers_view(response.headers@),
                metadata@.captures,
                0,
            ) == Ok::<Seq<(Seq<char>, Seq<char>)>, ()>(Seq::empty()));
            assert(extend_spec(vars@, Seq::empty()) == vars@);
        }
    }
    let ghost store_now = vars@;
    let mut results: Vec<AssertionResult> = Vec::new();
    let n = metadata.assertions.len();
    let mut i: usize = 0;
    while i < n
        invariant
            0 <= i <= n == metadata.assertions@.len(),
            vars@ == store_now,
            results@.len() == i,
            forall|k: int|
                0 <= k < i ==> (#[trigger] results@[k]).passed == assertion_outcome(
                    metadata@.assertions[k],
                    env@,
                    store_now,
                    response,
                ),
            forall|k: int|
                0 <= k < i ==> ((#[trigger] results@[k]).message is Some <==> !results@[k].passed),
        decreases n - i,
    {
        let raw = &metadata.assertions[i];
        let resolved = VariableResolver::resolve(raw.as_str(), env, vars);
        match parse_assertion(resolved.as_str()) {
            Ok(expr) => {
                let result = evaluate_assertion(&expr, response);
                results.push(result);
            },
            Err(e) => {
                results.push(AssertionResult::error(raw.clone(), e));
            },
        }
        i = i + 1;
    }
    results
}

/// Law: a value captured out of one response under a name is exactly what
/// a later template that is the bare `{{name}}` reference resolves to,
/// once the capture has been applied to the store. This chains request A's
/// captured value into request B's resolved request, verbatim.
pub proof fn lemma_capture_chain(
    tree: Option<crate::json::JsonNode>,
    headers: Seq<(Seq<char>, Seq<char>)>,
    cap: CaptureView,
    v: Seq<char>,
    env: Map<Seq<char>, Seq<char>>,
    vars: Map<Seq<char>, Seq<char>>,
)
    requires
        is_var_name(cap.name),
        capture_one_spec(tree, headers, cap) == Ok::<Seq<char>, ()>(v),
    ensures
        captures_spec(tree, headers, seq![cap], 0) == Ok::<Seq<(Seq<char>, Seq<char>)>, ()>(
            seq![(cap.name, v)],
        ),
        resolve_spec(
            seq!['{', '{'] + cap.name + seq!['}', '}'],
            env,
            extend_spec(vars, seq![(cap.name, v)]),
        ) == v,
{
    let caps = seq![cap];
    assert(captures_spec(tree, headers, caps, 1) == Ok::<Seq<(Seq<char>, Seq<char>)>, ()>(
        Seq::empty(),
    ));
    assert(seq![(cap.name, v)] + Seq::<(Seq<char>, Seq<char>)>::empty() =~= seq![(cap.name, v)]);
    let pairs = seq![(cap.name, v)];
    assert(pairs.drop_first() =~= Seq::<(Seq<char>, Seq<char>)>::empty());
    assert(pairs[0] == (cap.name, v));
    assert(extend_spec(vars.insert(cap.name, v), pairs.drop_first()) == vars.insert(cap.name, v));
    assert(extend_spec(vars, pairs) == vars.insert(cap.name, v));
    lemma_template_resolves(cap.name, env, vars.insert(cap.name, v));
}

/// Law, end to end through the store that `process_response` owes: when a
/// request's one capture directive yields `v` from its response, the store
/// afterwards is the old store with that pair applied, and a later
/// template that is the bare `{{name}}` reference resolves to `v`
/// verbatim. The hypothesis speaks of the response itself: its body's
/// parsed JSON tree is the named outside result, so the law holds of
/// whatever tree that parse yields.
pub proof fn lemma_capture_chain_through_store(
    resp: &Response,
    cap: CaptureView,
    v: Seq<char>,
    env: Map<Seq<char>, Seq<char>>,
    vars: Map<Seq<char>, Seq<char>>,
)
    requires
        is_var_name(cap.name),
        capture_one_spec(json_doc_of(resp.body@), headers_view(resp.headers@), cap) == Ok::<
            Seq<char>,
            (),
        >(v),
    ensures
        store_after_captures(vars, resp, seq![cap]) == extend_spec(vars, seq![(cap.name, v)]),
        resolve_spec(
            seq!['{', '{'] + cap.name + seq!['}', '}'],
            env,
            store_after_captures(vars, resp, seq![cap]),
        ) == v,
{
    lemma_capture_chain(json_doc_of(resp.body@), headers_view(resp.headers@), cap, v, env, vars);
}

} // verus!

use rupost::http::Response;
use rupost::parser::{HttpFileParser, RequestMetadata};
use rupost::runner::executor::{process_response, resolve_request};
use rupost::runner::{TestResult, TestSummary};
use rupost::variable::VariableContext;
use rupost::{Result, RupostError};

#[test]
fn test_summary_all_passed() {
    let results = vec![
        TestResult::error(
            1,
            None,
            "GET".to_string(),
            "http://example.com".to_string(),
            "error".to_string(),
            100,
        ),
        TestResult::error(
            2,
            None,
            "POST".to_string(),
            "http://example.com".to_string(),
            "error".to_string(),
            200,
        ),
    ];

    let summary = TestSummary::from_results(&results);
    assert_eq!(summary.total, 2);
    assert_eq!(summary.passed, 0);
    assert_eq!(summary.failed, 2);
    assert_eq!(summary.total_duration_ms, 300);
}

#[test]
fn test_result_type() {
    fn returns_error() -> Result<()> {
        Err(RupostError::ParseError("test".to_string()))
    }

    let result = returns_error();
    assert!(result.is_err());
    match result {
        Err(RupostError::ParseError(msg)) => assert_eq!(msg, "test"),
        _ => panic!("Expected ParseError"),
    }
}

#[test]
fn test_resolve_request_templates() {
    let mut store = VariableContext::new();
    store.insert("host", "example.com");
    store.insert("token", "abc");
    let env = VariableContext::new();

    let file =
        HttpFileParser::parse_content("GET http://{{host}}/a\nAuthorization: Bearer {{token}}")
            .unwrap();
    let resolved = resolve_request(&file.requests[0], &env, &store);
    assert_eq!(resolved.url, "http://example.com/a");
    assert_eq!(resolved.headers[0].1, "Bearer abc");
}

#[test]
fn test_capture_chain_across_requests() {
    // Request A's response carries a token; request B's template uses it.
    let mut store = VariableContext::new();
    let env = VariableContext::new();
    let doc = "@capture token from body.token\nGET http://x/a\n\n###\n\nGET http://x/b?t={{token}}";
    let file = HttpFileParser::parse_content(doc).unwrap();

    let response_a = Response::new(200, Vec::new(), r#"{"token":"abc"}"#.to_string(), 5).unwrap();
    let _ = process_response(&file.requests[0].metadata, &response_a, &env, &mut store);
    assert_eq!(store.get("token"), Some("abc"));

    let resolved_b = resolve_request(&file.requests[1], &env, &store);
    assert_eq!(resolved_b.url, "http://x/b?t=abc");
}

#[test]
fn test_self_referential_assertion_sees_capture() {
    // The captured value must be in the store before the same request's
    // assertions are resolved.
    let mut store = VariableContext::new();
    let env = VariableContext::new();
    let doc = "@capture token from body.token\n@assert body.token == \"{{token}}\"\nGET http://x/a";
    let file = HttpFileParser::parse_content(doc).unwrap();

    let response = Response::new(200, Vec::new(), r#"{"token":"abc"}"#.to_string(), 5).unwrap();
    let results = process_response(&file.requests[0].metadata, &response, &env, &mut store);
    assert_eq!(results.len(), 1);
    assert!(results[0].passed);
}

#[test]
fn test_failed_capture_leaves_store_untouched() {
    let mut store = VariableContext::new();
    store.insert("kept", "yes");
    let env = VariableContext::new();
    let mut metadata = RequestMetadata::new();
    metadata
        .captures
        .push(rupost::variable::VariableCapture::from_body("x", "missing"));

    let response = Response::new(200, Vec::new(), "{}".to_string(), 5).unwrap();
    let _ = process_response(&metadata, &response, &env, &mut store);
    assert_eq!(store.len(), 1);
    assert_eq!(store.get("kept"), Some("yes"));
}

#[test]
fn test_apply_assertions_failure_fails_result() {
    let response = Response::new(200, Vec::new(), "{}".to_string(), 5).unwrap();
    let mut result = TestResult::success(
        1,
        None,
        "GET".to_string(),
        "http://x".to_string(),
        response,
    );
    assert!(result.success);

    let mut store = VariableContext::new();
    let env = VariableContext::new();
    let mut metadata = RequestMetadata::new();
    metadata.assertions.push("status == 500".to_string());
    let response2 = Response::new(200, Vec::new(), "{}".to_string(), 5).unwrap();
    let assertions = process_response(&metadata, &response2, &env, &mut store);
    result.apply_assertions(assertions);
    assert!(!result.success);
}

#[test]
fn test_skipped_result_counts_as_passed() {
    let r = TestResult::skipped(1, None, "GET".to_string(), "http://x".to_string());
    assert!(r.success);
    assert!(r.skipped);
    let summary = TestSummary::from_results(&vec![r]);
    assert_eq!(summary.passed, 0);
    assert_eq!(summary.skipped, 1);
    assert_eq!(summary.failed, 0);
}

use rupost::assertion::{evaluate_assertion, extract_value, parse_assertion, AssertValue, ValuePath};
use rupost::http::Response;
use rupost::number::Number;

fn create_test_response(status: u16, body: &str, duration_ms: u64) -> Response {
    let headers = vec![("content-type".to_string(), "application/json".to_string())];
    Response::new(status, headers, body.to_string(), duration_ms).unwrap()
}

#[test]
fn test_evaluate_status_success() {
    let assertion = parse_assertion("status == 200").unwrap();
    let response = create_test_response(200, "{}", 100);
    let result = evaluate_assertion(&assertion, &response);

    assert!(result.passed);
    assert_eq!(result.actual, Some("200".to_string()));
}

#[test]
fn test_evaluate_status_failure() {
    let assertion = parse_assertion("status == 200").unwrap();
    let response = create_test_response(404, "{}", 100);
    let result = evaluate_assertion(&assertion, &response);

    assert!(!result.passed);
    assert_eq!(result.actual, Some("404".to_string()));
    assert!(result.message.is_some());
}

#[test]
fn test_evaluate_header_contains() {
    let assertion = parse_assertion("headers.content-type contains \"json\"").unwrap();
    let response = create_test_response(200, "{}", 100);
    let result = evaluate_assertion(&assertion, &response);

    assert!(result.passed);
}

#[test]
fn test_evaluate_body_number() {
    let assertion = parse_assertion("body.id > 0").unwrap();
    let response = create_test_response(200, r#"{"id": 42}"#, 100);
    let result = evaluate_assertion(&assertion, &response);

    assert!(result.passed);
    assert_eq!(result.actual, Some("42".to_string()));
}

#[test]
fn test_evaluate_body_string() {
    let assertion = parse_assertion("body.name == \"test\"").unwrap();
    let response = create_test_response(200, r#"{"name": "test"}"#, 100);
    let result = evaluate_assertion(&assertion, &response);

    assert!(result.passed);
}

#[test]
fn test_evaluate_response_time() {
    let assertion = parse_assertion("response.time < 200").unwrap();
    let response = create_test_response(200, "{}", 100);
    let result = evaluate_assertion(&assertion, &response);

    assert!(result.passed);
    assert_eq!(result.actual, Some("100".to_string()));
}

#[test]
fn test_evaluate_exists_success() {
    let assertion = parse_assertion("body.token exists").unwrap();
    let response = create_test_response(200, r#"{"token": "abc123"}"#, 100);
    let result = evaluate_assertion(&assertion, &response);

    assert!(result.passed);
}

#[test]
fn test_evaluate_exists_failure() {
    let assertion = parse_assertion("body.token exists").unwrap();
    let response = create_test_response(200, r#"{}"#, 100);
    let result = evaluate_assertion(&assertion, &response);

    assert!(!result.passed);
    assert!(result.message.is_some());
}

#[test]
fn test_evaluate_nested_body() {
    let assertion = parse_assertion("body.user.id == 123").unwrap();
    let response = create_test_response(200, r#"{"user": {"id": 123}}"#, 100);
    let result = evaluate_assertion(&assertion, &response);

    assert!(result.passed);
}

#[test]
fn test_evaluate_path_not_found() {
    let assertion = parse_assertion("body.missing == 123").unwrap();
    let response = create_test_response(200, r#"{}"#, 100);
    let result = evaluate_assertion(&assertion, &response);

    assert!(!result.passed);
    assert!(result.message.is_some());
}

#[test]
fn test_body_path_passes_on_nested_number() {
    let assertion = parse_assertion("body.user.id > 0").unwrap();
    let response = create_test_response(200, r#"{"user":{"id":5}}"#, 100);
    let result = evaluate_assertion(&assertion, &response);

    assert!(result.passed);
    assert_eq!(result.actual, Some("5".to_string()));
}

#[test]
fn test_message_presence_tracks_failure() {
    let response = create_test_response(404, "not json", 100);

    let ok = evaluate_assertion(&parse_assertion("status == 404").unwrap(), &response);
    assert!(ok.passed);
    assert!(ok.message.is_none());

    let failed = evaluate_assertion(&parse_assertion("status == 200").unwrap(), &response);
    assert!(!failed.passed);
    assert!(failed.message.is_some());

    // An extraction error is a failing result with a message and no actual.
    let erred = evaluate_assertion(&parse_assertion("body.x == 1").unwrap(), &response);
    assert!(!erred.passed);
    assert!(erred.message.is_some());
    assert!(erred.actual.is_none());
}

#[test]
fn test_extract_status() {
    let response = create_test_response(200, "{}", 123);
    let value = extract_value(&response, &ValuePath::Status).unwrap();
    assert!(matches!(
        value,
        AssertValue::Number(Number { neg: false, mant: 2, exp: 2 })
    ));
}

#[test]
fn test_extract_header() {
    let response = create_test_response(200, "{}", 123);
    let value = extract_value(&response, &ValuePath::Header("content-type".to_string())).unwrap();
    assert!(matches!(value, AssertValue::String(ref s) if s == "application/json"));
}

#[test]
fn test_extract_header_not_found() {
    let response = create_test_response(200, "{}", 123);
    let result = extract_value(&response, &ValuePath::Header("missing".to_string()));
    assert!(result.is_err());
}

#[test]
fn test_extract_response_time() {
    let response = create_test_response(200, "{}", 123);
    let value = extract_value(&response, &ValuePath::ResponseTime).unwrap();
    assert!(matches!(
        value,
        AssertValue::Number(Number { neg: false, mant: 123, exp: 0 })
    ));
}

#[test]
fn test_extract_body_number() {
    let response = create_test_response(200, r#"{"id": 42}"#, 123);
    let value = extract_value(&response, &ValuePath::Body(vec!["id".to_string()])).unwrap();
    assert!(matches!(
        value,
        AssertValue::Number(Number { neg: false, mant: 42, exp: 0 })
    ));
}

#[test]
fn test_extract_body_string() {
    let response = create_test_response(200, r#"{"name": "test"}"#, 123);
    let value = extract_value(&response, &ValuePath::Body(vec!["name".to_string()])).unwrap();
    assert!(matches!(value, AssertValue::String(ref s) if s == "test"));
}

#[test]
fn test_extract_body_bool() {
    let response = create_test_response(200, r#"{"active": true}"#, 123);
    let value = extract_value(&response, &ValuePath::Body(vec!["active".to_string()])).unwrap();
    assert!(matches!(value, AssertValue::Bool(true)));
}

#[test]
fn test_extract_body_null() {
    let response = create_test_response(200, r#"{"data": null}"#, 123);
    let value = extract_value(&response, &ValuePath::Body(vec!["data".to_string()])).unwrap();
    assert!(matches!(value, AssertValue::Null));
}

#[test]
fn test_extract_nested_body() {
    let response = create_test_response(200, r#"{"user": {"id": 123, "name": "test"}}"#, 123);
    let value = extract_value(
        &response,
        &ValuePath::Body(vec!["user".to_string(), "id".to_string()]),
    )
    .unwrap();
    assert!(matches!(
        value,
        AssertValue::Number(Number { neg: false, mant: 123, exp: 0 })
    ));
}

#[test]
fn test_extract_body_path_not_found() {
    let response = create_test_response(200, r#"{"id": 42}"#, 123);
    let result = extract_value(&response, &ValuePath::Body(vec!["missing".to_string()]));
    assert!(result.is_err());
}

#[test]
fn test_extract_container_leaf_is_error() {
    let response = create_test_response(200, r#"{"user": {"id": 42}}"#, 123);
    let result = extract_value(&response, &ValuePath::Body(vec!["user".to_string()]));
    assert!(result.is_err());
}

#[test]
fn test_decimal_comparison_is_exact() {
    let assertion = parse_assertion("body.price == 1.50").unwrap();
    let response = create_test_response(200, r#"{"price": 1.5}"#, 100);
    let result = evaluate_assertion(&assertion, &response);
    assert!(result.passed);

    let assertion = parse_assertion("body.price < 1.51").unwrap();
    let result = evaluate_assertion(&assertion, &response);
    assert!(result.passed);
}

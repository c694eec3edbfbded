use rupost::parser::converter::{is_json_like, to_request};
use rupost::parser::ParsedRequest;
use rupost::http::Request;

fn header_get<'a>(request: &'a Request, key: &str) -> Option<&'a String> {
    request.headers.iter().find(|h| h.0 == key).map(|h| &h.1)
}

#[test]
fn test_convert_simple_get() {
    let mut parsed = ParsedRequest::new(1);
    parsed.url = "http://example.com".to_string();

    let request = to_request(parsed).unwrap();
    assert_eq!(request.method.as_str(), "GET");
    assert_eq!(request.url.to_url_string(), "http://example.com:80/");
}

#[test]
fn test_convert_with_method() {
    let mut parsed = ParsedRequest::new(1);
    parsed.method = Some("POST".to_string());
    parsed.url = "http://example.com".to_string();

    let request = to_request(parsed).unwrap();
    assert_eq!(request.method.as_str(), "POST");
}

#[test]
fn test_convert_with_headers() {
    let mut parsed = ParsedRequest::new(1);
    parsed.url = "http://example.com".to_string();
    parsed
        .headers
        .push(("User-Agent".to_string(), "test-client/1.0".to_string()));
    parsed
        .headers
        .push(("Content-Type".to_string(), "application/json".to_string()));

    let request = to_request(parsed).unwrap();
    assert!(header_get(&request, "user-agent").is_some());
    assert!(header_get(&request, "content-type").is_some());
}

#[test]
fn test_convert_with_json_body() {
    let mut parsed = ParsedRequest::new(1);
    parsed.url = "http://example.com".to_string();
    parsed.body = Some(r#"{"name": "test", "value": 123}"#.to_string());

    let request = to_request(parsed).unwrap();
    assert!(request.body.is_some());
}

#[test]
fn test_convert_with_text_body() {
    let mut parsed = ParsedRequest::new(1);
    parsed.url = "http://example.com".to_string();
    parsed.body = Some("plain text data".to_string());

    let request = to_request(parsed).unwrap();
    assert!(request.body.is_some());
}

#[test]
fn test_is_json_like() {
    assert!(is_json_like(r#"{"key": "value"}"#));
    assert!(is_json_like(r#"  {"key": "value"}  "#));
    assert!(is_json_like(r#"[1, 2, 3]"#));
    assert!(is_json_like(r#"  [1, 2, 3]  "#));
    assert!(!is_json_like("plain text"));
    assert!(!is_json_like("key=value"));
}

#[test]
fn test_auto_detect_json() {
    let mut parsed = ParsedRequest::new(1);
    parsed.url = "http://example.com".to_string();
    parsed.body = Some(r#"{"auto": "detect"}"#.to_string());

    let request = to_request(parsed).unwrap();
    assert!(request.body.is_some());
    assert!(header_get(&request, "content-type").is_some());
}

#[test]
fn test_invalid_url() {
    let mut parsed = ParsedRequest::new(1);
    parsed.url = "not a valid url".to_string();

    let result = to_request(parsed);
    assert!(result.is_err());
}

#[test]
fn test_declared_json_must_parse() {
    let mut parsed = ParsedRequest::new(1);
    parsed.url = "http://example.com".to_string();
    parsed
        .headers
        .push(("Content-Type".to_string(), "application/json".to_string()));
    parsed.body = Some("not json at all".to_string());

    assert!(to_request(parsed).is_err());
}

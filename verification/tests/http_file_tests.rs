use rupost::parser::HttpFileParser;

#[test]
fn test_parse_simple_get() {
    let content = "GET http://example.com";
    let result = HttpFileParser::parse_content(content).unwrap();
    assert_eq!(result.requests.len(), 1);
    assert_eq!(result.requests[0].method, Some("GET".to_string()));
    assert_eq!(result.requests[0].url, "http://example.com");
}

#[test]
fn test_parse_url_only() {
    let content = "http://example.com";
    let result = HttpFileParser::parse_content(content).unwrap();
    assert_eq!(result.requests.len(), 1);
    assert_eq!(result.requests[0].method, None);
    assert_eq!(result.requests[0].url, "http://example.com");
}

#[test]
fn test_parse_with_headers() {
    let content = r#"
POST http://example.com
Content-Type: application/json
Authorization: Bearer token123
        "#;
    let result = HttpFileParser::parse_content(content).unwrap();
    assert_eq!(result.requests.len(), 1);
    assert_eq!(result.requests[0].method, Some("POST".to_string()));
    assert_eq!(result.requests[0].headers.len(), 2);
    assert_eq!(result.requests[0].headers[0].0, "Content-Type");
    assert_eq!(result.requests[0].headers[0].1, "application/json");
    assert_eq!(result.requests[0].headers[1].0, "Authorization");
    assert_eq!(result.requests[0].headers[1].1, "Bearer token123");
}

#[test]
fn test_parse_with_body() {
    let content = r#"
POST http://example.com
Content-Type: application/json

{"name": "test"}
        "#;
    let result = HttpFileParser::parse_content(content).unwrap();
    assert_eq!(result.requests.len(), 1);
    assert_eq!(
        result.requests[0].body,
        Some(r#"{"name": "test"}"#.to_string())
    );
}

#[test]
fn test_parse_multiple_requests() {
    let content = r#"
GET http://example.com/1

###

POST http://example.com/2
        "#;
    let result = HttpFileParser::parse_content(content).unwrap();
    assert_eq!(result.requests.len(), 2);
    assert_eq!(result.requests[0].url, "http://example.com/1");
    assert_eq!(result.requests[1].url, "http://example.com/2");
}

#[test]
fn test_parse_empty_content() {
    let content = "";
    let result = HttpFileParser::parse_content(content);
    assert!(result.is_err());
}

#[test]
fn test_parse_with_comments() {
    let content = r#"
# This is a comment
GET http://example.com
// Another comment
        "#;
    let result = HttpFileParser::parse_content(content).unwrap();
    assert_eq!(result.requests.len(), 1);
}

#[test]
fn test_parse_name_metadata() {
    let content = "@name My Test\nGET http://example.com";
    let result = HttpFileParser::parse_content(content).unwrap();
    assert_eq!(
        result.requests[0].metadata.name,
        Some("My Test".to_string())
    );
}

#[test]
fn test_parse_skip_metadata() {
    let content = "@skip\nGET http://example.com";
    let result = HttpFileParser::parse_content(content).unwrap();
    assert!(result.requests[0].metadata.skip);
}

#[test]
fn test_parse_timeout_metadata() {
    let content = "@timeout 5s\nGET http://example.com";
    let result = HttpFileParser::parse_content(content).unwrap();
    assert_eq!(result.requests[0].metadata.timeout, Some(5000));
}

#[test]
fn test_parse_duration_formats() {
    assert_eq!(HttpFileParser::parse_duration("1000ms", 1).unwrap(), 1000);
    assert_eq!(HttpFileParser::parse_duration("5s", 1).unwrap(), 5000);
    assert_eq!(HttpFileParser::parse_duration("2m", 1).unwrap(), 120000);
}

#[test]
fn test_two_specs_from_delimited_document() {
    let result = HttpFileParser::parse_content("GET http://x/a\n\n###\n\nPOST http://x/b").unwrap();
    assert_eq!(result.requests.len(), 2);
    assert_eq!(result.requests[0].method, Some("GET".to_string()));
    assert_eq!(result.requests[0].url, "http://x/a");
    assert_eq!(result.requests[1].method, Some("POST".to_string()));
    assert_eq!(result.requests[1].url, "http://x/b");
}

#[test]
fn test_invalid_method_is_rejected() {
    let result = HttpFileParser::parse_content("FROB http://example.com");
    assert!(result.is_err());
}

#[test]
fn test_too_many_tokens_is_invalid_format() {
    let result = HttpFileParser::parse_content("GET http://example.com extra");
    assert!(result.is_err());
}

#[test]
fn test_bad_timeout_is_invalid_metadata() {
    let result = HttpFileParser::parse_content("@timeout soon\nGET http://example.com");
    assert!(result.is_err());
}

#[test]
fn test_bad_capture_is_invalid_metadata() {
    let result = HttpFileParser::parse_content("@capture invalid syntax\nGET http://example.com");
    assert!(result.is_err());
}

#[test]
fn test_assert_and_capture_metadata_collected() {
    let content = "@assert status == 200\n@capture token from body.token\nGET http://example.com";
    let result = HttpFileParser::parse_content(content).unwrap();
    assert_eq!(result.requests[0].metadata.assertions.len(), 1);
    assert_eq!(result.requests[0].metadata.assertions[0], "status == 200");
    assert_eq!(result.requests[0].metadata.captures.len(), 1);
    assert_eq!(result.requests[0].metadata.captures[0].name, "token");
}

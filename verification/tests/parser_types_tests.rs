use rupost::parser::{ParsedFile, ParsedRequest};

#[test]
fn test_parsed_request_new() {
    let req = ParsedRequest::new(1);
    assert_eq!(req.line_number, 1);
    assert_eq!(req.method, None);
    assert_eq!(req.url, "");
    assert_eq!(req.headers.len(), 0);
    assert_eq!(req.body, None);
    assert!(!req.should_skip());
}

#[test]
fn test_method_or_default() {
    let mut req = ParsedRequest::new(1);
    assert_eq!(req.method_or_default(), "GET");

    req.method = Some("POST".to_string());
    assert_eq!(req.method_or_default(), "POST");
}

#[test]
fn test_parsed_file_new() {
    let file = ParsedFile::new();
    assert_eq!(file.requests.len(), 0);
    assert_eq!(file.source_path, None);
}

#[test]
fn test_parsed_file_with_source_path() {
    let file = ParsedFile::new().with_source_path("/test/file.http".to_string());
    assert_eq!(file.source_path, Some("/test/file.http".to_string()));
}

#[test]
fn test_active_requests() {
    let mut file = ParsedFile::new();

    let mut req1 = ParsedRequest::new(1);
    req1.url = "http://example.com".to_string();

    let mut req2 = ParsedRequest::new(5);
    req2.url = "http://example.org".to_string();
    req2.metadata.skip = true;

    file.add_request(req1);
    file.add_request(req2);

    let active: Vec<_> = file.active_requests();
    assert_eq!(active.len(), 1);
    assert_eq!(active[0].url, "http://example.com");
}

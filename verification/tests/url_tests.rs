use rupost::http::{Request, Url};

#[test]
fn test_parse_full_url() {
    let url = Url::parse("https://api.example.com:8443/v1/users?id=1#section").unwrap();
    assert_eq!(url.scheme, "https");
    assert_eq!(url.host, "api.example.com");
    assert_eq!(url.port, 8443);
    assert_eq!(url.path, "/v1/users");
    assert_eq!(url.query, "id=1");
    assert_eq!(url.fragment, "section");
}

#[test]
fn test_parse_url_without_port_https() {
    let url = Url::parse("https://example.com/path").unwrap();
    assert_eq!(url.scheme, "https");
    assert_eq!(url.host, "example.com");
    assert_eq!(url.port, 443);
    assert_eq!(url.path, "/path");
}

#[test]
fn test_parse_url_without_port_http() {
    let url = Url::parse("http://example.com/path").unwrap();
    assert_eq!(url.scheme, "http");
    assert_eq!(url.host, "example.com");
    assert_eq!(url.port, 80);
    assert_eq!(url.path, "/path");
}

#[test]
fn test_parse_url_without_scheme() {
    let url = Url::parse("example.com/api/users").unwrap();
    assert_eq!(url.scheme, "http");
    assert_eq!(url.host, "example.com");
    assert_eq!(url.port, 80);
    assert_eq!(url.path, "/api/users");
}

#[test]
fn test_parse_localhost_with_port() {
    let url = Url::parse("localhost:3000").unwrap();
    assert_eq!(url.scheme, "http");
    assert_eq!(url.host, "localhost");
    assert_eq!(url.port, 3000);
    assert_eq!(url.path, "/");
}

#[test]
fn test_parse_port_only() {
    let url = Url::parse(":8080").unwrap();
    assert_eq!(url.scheme, "http");
    assert_eq!(url.host, "localhost");
    assert_eq!(url.port, 8080);
    assert_eq!(url.path, "/");
}

#[test]
fn test_parse_port_with_scheme() {
    let url = Url::parse("https://:8080").unwrap();
    assert_eq!(url.scheme, "https");
    assert_eq!(url.host, "localhost");
    assert_eq!(url.port, 8080);
    assert_eq!(url.path, "/");
}

#[test]
fn test_parse_port_with_path() {
    let url = Url::parse(":8080/path").unwrap();
    assert_eq!(url.scheme, "http");
    assert_eq!(url.host, "localhost");
    assert_eq!(url.port, 8080);
    assert_eq!(url.path, "/path");
}

#[test]
fn test_parse_url_without_query_and_fragment() {
    let url = Url::parse("http://example.com/path").unwrap();
    assert_eq!(url.query, "");
    assert_eq!(url.fragment, "");
}

#[test]
fn test_parse_url_with_whitespace() {
    let url = Url::parse("  http://example.com/path  ").unwrap();
    assert_eq!(url.host, "example.com");
    assert_eq!(url.path, "/path");
}

#[test]
fn test_parse_localhost_with_path() {
    let url = Url::parse("localhost:3000/api/v1").unwrap();
    assert_eq!(url.scheme, "http");
    assert_eq!(url.host, "localhost");
    assert_eq!(url.port, 3000);
    assert_eq!(url.path, "/api/v1");
}

#[test]
fn test_parse_ip_address() {
    let url = Url::parse("127.0.0.1:8080/test").unwrap();
    assert_eq!(url.scheme, "http");
    assert_eq!(url.host, "127.0.0.1");
    assert_eq!(url.port, 8080);
    assert_eq!(url.path, "/test");
}

#[test]
fn test_url_round_trip_text() {
    let url = Url::parse("http://example.com").unwrap();
    assert_eq!(url.to_url_string(), "http://example.com:80/");
}

fn query_get<'a>(request: &'a Request, key: &str) -> Option<&'a String> {
    request
        .query_params
        .iter()
        .find(|p| p.0 == key)
        .map(|p| &p.1)
}

#[test]
fn test_query_params_storage() {
    let request = Request::new("GET", "http://example.com")
        .unwrap()
        .with_query("q", "search")
        .with_query("page", "1")
        .with_query("limit", "10");

    assert_eq!(request.query_params.len(), 3);
    assert_eq!(query_get(&request, "q"), Some(&"search".to_string()));
    assert_eq!(query_get(&request, "page"), Some(&"1".to_string()));
    assert_eq!(query_get(&request, "limit"), Some(&"10".to_string()));
}

#[test]
fn test_query_params_override() {
    let request = Request::new("GET", "http://example.com")
        .unwrap()
        .with_query("q", "first")
        .with_query("q", "second");

    assert_eq!(request.query_params.len(), 1);
    assert_eq!(query_get(&request, "q"), Some(&"second".to_string()));
}

#[test]
fn test_empty_query_params() {
    let request = Request::new("GET", "http://example.com").unwrap();

    assert_eq!(request.query_params.len(), 0);
    assert!(request.query_params.is_empty());
}

use rupost::variable::capture::capture_from_response;
use rupost::variable::config::ConfigLoader;
use rupost::variable::{CaptureSource, VariableCapture, VariableContext, VariableResolver};

#[test]
fn test_from_body() {
    let capture = VariableCapture::from_body("token", "user.token");
    assert_eq!(capture.name, "token");
    assert_eq!(capture.source, CaptureSource::Body("user.token".to_string()));
}

#[test]
fn test_from_header() {
    let capture = VariableCapture::from_header("trace_id", "X-Trace-Id");
    assert_eq!(capture.name, "trace_id");
    assert_eq!(capture.source, CaptureSource::Header("X-Trace-Id".to_string()));
}

#[test]
fn test_parse_body() {
    let capture = VariableCapture::parse("token", "body.token");
    assert_eq!(capture.source, CaptureSource::Body("token".to_string()));

    let capture = VariableCapture::parse("user_id", "body.user.id");
    assert_eq!(capture.source, CaptureSource::Body("user.id".to_string()));
}

#[test]
fn test_parse_header() {
    let capture = VariableCapture::parse("trace_id", "header.X-Trace-Id");
    assert_eq!(capture.source, CaptureSource::Header("X-Trace-Id".to_string()));
}

#[test]
fn test_parse_default_to_body() {
    let capture = VariableCapture::parse("token", "token");
    assert_eq!(capture.source, CaptureSource::Body("token".to_string()));
}

fn pairs_get<'a>(pairs: &'a [(String, String)], key: &str) -> Option<&'a String> {
    pairs.iter().find(|p| p.0 == key).map(|p| &p.1)
}

#[test]
fn test_capture_from_json_body() {
    let body = r#"{"user": {"id": 123, "name": "test"}, "token": "abc-123"}"#;
    let headers: Vec<(String, String)> = Vec::new();
    let captures = vec![
        VariableCapture::from_body("user_id", "user.id"),
        VariableCapture::from_body("token", "token"),
    ];

    let vars = capture_from_response(body, &headers, &captures).unwrap();
    assert_eq!(pairs_get(&vars, "user_id").unwrap(), "123");
    assert_eq!(pairs_get(&vars, "token").unwrap(), "abc-123");
}

#[test]
fn test_capture_from_header() {
    let body = "{}";
    let headers = vec![("X-Token".to_string(), "header-token-123".to_string())];

    let captures = vec![VariableCapture::from_header("auth_token", "X-Token")];

    let vars = capture_from_response(body, &headers, &captures).unwrap();
    assert_eq!(pairs_get(&vars, "auth_token").unwrap(), "header-token-123");
}

#[test]
fn test_capture_nested_json() {
    let body = r#"{"data": {"items": {"first": "item1"}}}"#;
    let headers: Vec<(String, String)> = Vec::new();
    let captures = vec![VariableCapture::from_body("item", "data.items.first")];

    let vars = capture_from_response(body, &headers, &captures).unwrap();
    assert_eq!(pairs_get(&vars, "item").unwrap(), "item1");
}

#[test]
fn test_capture_container_as_json_text() {
    // A path naming an object or array captures its whole JSON text.
    let body = r#"{"user": {"name": "x", "id": 1}, "tags": [1, 2]}"#;
    let headers: Vec<(String, String)> = Vec::new();
    let captures = vec![
        VariableCapture::from_body("u", "user"),
        VariableCapture::from_body("t", "tags"),
    ];

    let vars = capture_from_response(body, &headers, &captures).unwrap();
    assert_eq!(pairs_get(&vars, "u").unwrap(), "{\"id\":1,\"name\":\"x\"}");
    assert_eq!(pairs_get(&vars, "t").unwrap(), "[1,2]");
}

#[test]
fn test_capture_missing_key() {
    let body = r#"{"data": {}}"#;
    let headers: Vec<(String, String)> = Vec::new();
    let captures = vec![VariableCapture::from_body("item", "data.missing")];

    let result = capture_from_response(body, &headers, &captures);
    assert!(result.is_err());
}

#[test]
fn test_capture_leaves_token_in_store() {
    let body = r#"{"token":"abc"}"#;
    let headers: Vec<(String, String)> = Vec::new();
    let captures = vec![VariableCapture::parse("token", "body.token")];

    let pairs = capture_from_response(body, &headers, &captures).unwrap();
    let mut store = VariableContext::new();
    store.extend(&pairs);
    assert_eq!(store.get("token"), Some("abc"));
    assert_eq!(store.len(), 1);
}

#[test]
fn test_variable_context_basic() {
    let mut ctx = VariableContext::new();
    assert!(ctx.is_empty());

    ctx.insert("key", "value");
    assert_eq!(ctx.len(), 1);
    assert_eq!(ctx.get("key"), Some("value"));
    assert_eq!(ctx.get("missing"), None);
}

#[test]
fn test_variable_context_extend() {
    let mut ctx = VariableContext::new();
    let vars = vec![
        ("key1".to_string(), "value1".to_string()),
        ("key2".to_string(), "value2".to_string()),
    ];

    ctx.extend(&vars);
    assert_eq!(ctx.len(), 2);
    assert_eq!(ctx.get("key1"), Some("value1"));
    assert_eq!(ctx.get("key2"), Some("value2"));
}

#[test]
fn test_substitute_simple() {
    let mut ctx = VariableContext::new();
    ctx.insert("base_url", "http://localhost:8080");
    ctx.insert("token", "secret-token");

    let input = "{{base_url}}/api/users";
    let output = VariableResolver::substitute(input, &ctx);
    assert_eq!(output, "http://localhost:8080/api/users");
}

#[test]
fn test_substitute_multiple() {
    let mut ctx = VariableContext::new();
    ctx.insert("host", "example.com");
    ctx.insert("port", "8080");
    ctx.insert("path", "api");

    let input = "https://{{host}}:{{port}}/{{path}}/users";
    let output = VariableResolver::substitute(input, &ctx);
    assert_eq!(output, "https://example.com:8080/api/users");
}

#[test]
fn test_substitute_missing_variable() {
    let ctx = VariableContext::new();

    let input = "{{missing}}/path";
    let output = VariableResolver::substitute(input, &ctx);
    assert_eq!(output, "{{missing}}/path");
}

#[test]
fn test_resolve_env_vars_missing() {
    let env = VariableContext::new();
    let input = "Value: ${NONEXISTENT_VAR}";
    let output = VariableResolver::resolve_env_vars(input, &env);
    assert_eq!(output, "Value: ${NONEXISTENT_VAR}");
}

#[test]
fn test_resolve_both_phases() {
    let mut env = VariableContext::new();
    env.insert("API_KEY", "secret-key");
    let mut ctx = VariableContext::new();
    ctx.insert("host", "api.example.com");

    let input = "https://{{host}}/auth?key=${API_KEY}";
    let output = VariableResolver::resolve(input, &env, &ctx);
    assert_eq!(output, "https://api.example.com/auth?key=secret-key");
}

#[test]
fn test_resolve_is_idempotent_once_settled() {
    let mut ctx = VariableContext::new();
    ctx.insert("a", "{{b}}");
    ctx.insert("b", "2");
    let env = VariableContext::new();

    // Replacement text is not rescanned, so a second pass can still change
    // the string while placeholders remain.
    let once = VariableResolver::resolve("{{a}}", &env, &ctx);
    let twice = VariableResolver::resolve(once.as_str(), &env, &ctx);
    assert_eq!(once, "{{b}}".to_string());
    assert_eq!(twice, "2".to_string());
    assert_ne!(once, twice);

    // Once nothing substitutable remains, resolving is a no-op.
    let settled = VariableResolver::resolve(twice.as_str(), &env, &ctx);
    assert_eq!(settled, twice);
}

#[test]
fn test_env_phase_runs_before_session_phase() {
    // An environment value may itself be a session reference; only the
    // environment-first order resolves it in one pass.
    let mut env = VariableContext::new();
    env.insert("A", "{{b}}");
    let mut ctx = VariableContext::new();
    ctx.insert("b", "2");

    let output = VariableResolver::resolve("${A}", &env, &ctx);
    assert_eq!(output, "2");
}

#[test]
fn test_parse_cli_var() {
    assert_eq!(
        ConfigLoader::parse_cli_var("key=value"),
        Some(("key".to_string(), "value".to_string()))
    );

    assert_eq!(
        ConfigLoader::parse_cli_var("url=https://example.com"),
        Some(("url".to_string(), "https://example.com".to_string()))
    );

    assert_eq!(ConfigLoader::parse_cli_var("invalid"), None);
}

#[test]
fn test_cli_variable_parsing() {
    let cli_var1 = "key1=value1";
    let cli_var2 = "key2=value with spaces";
    let cli_var3 = "key3=value=with=equals";

    let (k1, v1) = ConfigLoader::parse_cli_var(cli_var1).unwrap();
    assert_eq!(k1, "key1");
    assert_eq!(v1, "value1");

    let (k2, v2) = ConfigLoader::parse_cli_var(cli_var2).unwrap();
    assert_eq!(k2, "key2");
    assert_eq!(v2, "value with spaces");

    let (k3, v3) = ConfigLoader::parse_cli_var(cli_var3).unwrap();
    assert_eq!(k3, "key3");
    assert_eq!(v3, "value=with=equals");
}

#[test]
fn test_build_context_from_environment() {
    let config = rupost::variable::VariableConfig {
        environments: vec![(
            "dev".to_string(),
            rupost::variable::Environment {
                variables: vec![
                    ("base_url".to_string(), "http://localhost:8080".to_string()),
                    ("token".to_string(), "dev-token".to_string()),
                ],
            },
        )],
    };
    let os_env = VariableContext::new();

    let context = ConfigLoader::build_context(&config, Some("dev"), &Vec::new(), &os_env);
    assert_eq!(context.get("base_url"), Some("http://localhost:8080"));
    assert_eq!(context.get("token"), Some("dev-token"));

    let cli_vars = vec![("token".to_string(), "custom-token".to_string())];
    let context = ConfigLoader::build_context(&config, Some("dev"), &cli_vars, &os_env);
    assert_eq!(context.get("token"), Some("custom-token"));
}

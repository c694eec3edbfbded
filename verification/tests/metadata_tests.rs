use rupost::parser::metadata::parse_metadata;
use rupost::parser::Metadata;

#[test]
fn test_parse_name() {
    let result = parse_metadata("@name Test Request").unwrap().unwrap();
    assert!(matches!(result, Metadata::Name(ref s) if s == "Test Request"));
}

#[test]
fn test_parse_skip() {
    let result = parse_metadata("@skip").unwrap().unwrap();
    assert!(matches!(result, Metadata::Skip(true)));

    let result = parse_metadata("@skip false").unwrap().unwrap();
    assert!(matches!(result, Metadata::Skip(false)));
}

#[test]
fn test_parse_timeout() {
    let result = parse_metadata("@timeout 5s").unwrap().unwrap();
    assert!(matches!(result, Metadata::Timeout(d) if d == 5000));
}

#[test]
fn test_parse_assert() {
    let result = parse_metadata("@assert status == 200").unwrap().unwrap();
    assert!(matches!(result, Metadata::Assert(ref s) if s == "status == 200"));
}

#[test]
fn test_parse_capture() {
    let result = parse_metadata("@capture token from body.token")
        .unwrap()
        .unwrap();
    assert!(matches!(
        result,
        Metadata::Capture { ref var_name, ref source }
        if var_name == "token" && source == "body.token"
    ));
}

#[test]
fn test_parse_capture_invalid() {
    let result = parse_metadata("@capture invalid syntax");
    assert!(result.is_err());
}

#[test]
fn test_parse_unrecognized() {
    let result = parse_metadata("@unknown directive").unwrap();
    assert!(result.is_none());
}

#[test]
fn test_parse_duration_standalone() {
    assert_eq!(rupost::parser::metadata::parse_duration("250ms").unwrap(), 250);
    assert!(rupost::parser::metadata::parse_duration("250").is_err());
}

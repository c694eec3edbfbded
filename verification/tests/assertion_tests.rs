use rupost::assertion::evaluator::path_display;
use rupost::assertion::parser::parse_value_path;
use rupost::assertion::{parse_assertion, AssertExpr, AssertValue, CompareOp, ValuePath};
use rupost::number::Number;

#[test]
fn test_compare_op_from_str() {
    assert_eq!(CompareOp::parse("=="), Some(CompareOp::Equal));
    assert_eq!(CompareOp::parse("!="), Some(CompareOp::NotEqual));
    assert_eq!(CompareOp::parse(">"), Some(CompareOp::Greater));
    assert_eq!(CompareOp::parse("<"), Some(CompareOp::Less));
    assert_eq!(CompareOp::parse(">="), Some(CompareOp::GreaterOrEqual));
    assert_eq!(CompareOp::parse("<="), Some(CompareOp::LessOrEqual));
    assert_eq!(CompareOp::parse("contains"), Some(CompareOp::Contains));
    assert_eq!(CompareOp::parse("invalid"), None);
}

#[test]
fn test_assert_value_compare_numbers() {
    let ten = AssertValue::Number(Number {
        neg: false,
        mant: 1,
        exp: 1,
    });
    let five = AssertValue::Number(Number {
        neg: false,
        mant: 5,
        exp: 0,
    });
    let ten_again = AssertValue::Number(Number {
        neg: false,
        mant: 1,
        exp: 1,
    });

    assert!(ten.compare(CompareOp::Equal, &ten_again).unwrap());
    assert!(ten.compare(CompareOp::Greater, &five).unwrap());
    assert!(five.compare(CompareOp::Less, &ten).unwrap());
    assert!(ten.compare(CompareOp::GreaterOrEqual, &five).unwrap());
    assert!(five.compare(CompareOp::LessOrEqual, &ten).unwrap());
    assert!(!ten.compare(CompareOp::Equal, &five).unwrap());
}

#[test]
fn test_assert_value_compare_strings() {
    let a = AssertValue::String("hello world".to_string());
    let b = AssertValue::String("world".to_string());

    assert!(a.compare(CompareOp::Contains, &b).unwrap());
    assert!(
        a.compare(
            CompareOp::Equal,
            &AssertValue::String("hello world".to_string())
        )
        .unwrap()
    );
    assert!(!a.compare(CompareOp::Equal, &b).unwrap());
}

#[test]
fn test_value_path_display() {
    assert_eq!(path_display(&ValuePath::Status), "status");
    assert_eq!(
        path_display(&ValuePath::Header("content-type".to_string())),
        "headers.content-type"
    );
    assert_eq!(
        path_display(&ValuePath::Body(vec![
            "user".to_string(),
            "id".to_string()
        ])),
        "body.user.id"
    );
    assert_eq!(path_display(&ValuePath::ResponseTime), "response.time");
}

#[test]
fn test_parse_status_assertion() {
    let expr = parse_assertion("status == 200").unwrap();
    match expr {
        AssertExpr::Compare { left, op, right } => {
            assert!(matches!(left, ValuePath::Status));
            assert_eq!(op, CompareOp::Equal);
            assert!(matches!(
                right,
                AssertValue::Number(Number { neg: false, mant: 2, exp: 2 })
            ));
        }
        _ => panic!("Expected Compare assertion"),
    }
}

#[test]
fn test_parse_header_assertion() {
    let expr = parse_assertion("headers.content-type contains \"json\"").unwrap();
    match expr {
        AssertExpr::Compare { left, op, right } => {
            assert!(matches!(left, ValuePath::Header(ref n) if n == "content-type"));
            assert_eq!(op, CompareOp::Contains);
            assert!(matches!(right, AssertValue::String(ref s) if s == "json"));
        }
        _ => panic!("Expected Compare assertion"),
    }
}

#[test]
fn test_parse_body_assertion() {
    let expr = parse_assertion("body.user.id > 0").unwrap();
    match expr {
        AssertExpr::Compare { left, op, right } => {
            assert!(
                matches!(left, ValuePath::Body(ref segs) if segs == &vec!["user".to_string(), "id".to_string()])
            );
            assert_eq!(op, CompareOp::Greater);
            assert!(matches!(
                right,
                AssertValue::Number(Number { neg: false, mant: 0, exp: 0 })
            ));
        }
        _ => panic!("Expected Compare assertion"),
    }
}

#[test]
fn test_parse_response_time_assertion() {
    let expr = parse_assertion("response.time < 1000").unwrap();
    match expr {
        AssertExpr::Compare { left, op, right } => {
            assert!(matches!(left, ValuePath::ResponseTime));
            assert_eq!(op, CompareOp::Less);
            assert!(matches!(
                right,
                AssertValue::Number(Number { neg: false, mant: 1, exp: 3 })
            ));
        }
        _ => panic!("Expected Compare assertion"),
    }
}

#[test]
fn test_parse_exists_assertion() {
    let expr = parse_assertion("body.token exists").unwrap();
    match expr {
        AssertExpr::Exists { path } => {
            assert!(matches!(path, ValuePath::Body(ref segs) if segs == &vec!["token".to_string()]));
        }
        _ => panic!("Expected Exists assertion"),
    }
}

#[test]
fn test_parse_operators() {
    assert!(parse_assertion("status == 200").is_ok());
    assert!(parse_assertion("status != 404").is_ok());
    assert!(parse_assertion("status > 199").is_ok());
    assert!(parse_assertion("status < 300").is_ok());
    assert!(parse_assertion("status >= 200").is_ok());
    assert!(parse_assertion("status <= 299").is_ok());
}

#[test]
fn test_parse_values() {
    let expr = parse_assertion("body.count == 42").unwrap();
    match expr {
        AssertExpr::Compare { right, .. } => {
            assert!(matches!(
                right,
                AssertValue::Number(Number { neg: false, mant: 42, exp: 0 })
            ));
        }
        _ => panic!(),
    }

    let expr = parse_assertion("body.name == \"test\"").unwrap();
    match expr {
        AssertExpr::Compare { right, .. } => {
            assert!(matches!(right, AssertValue::String(ref s) if s == "test"));
        }
        _ => panic!(),
    }

    let expr = parse_assertion("body.active == true").unwrap();
    match expr {
        AssertExpr::Compare { right, .. } => {
            assert!(matches!(right, AssertValue::Bool(true)));
        }
        _ => panic!(),
    }

    let expr = parse_assertion("body.data == null").unwrap();
    match expr {
        AssertExpr::Compare { right, .. } => {
            assert!(matches!(right, AssertValue::Null));
        }
        _ => panic!(),
    }
}

#[test]
fn test_parse_invalid_syntax() {
    assert!(parse_assertion("invalid").is_err());
    assert!(parse_assertion("status").is_err());
    assert!(parse_assertion("== 200").is_err());
    assert!(parse_assertion("status ==").is_err());
}

#[test]
fn test_parse_nested_body_path() {
    let expr = parse_assertion("body.user.profile.email == \"test@example.com\"").unwrap();
    match expr {
        AssertExpr::Compare { left, .. } => {
            assert!(matches!(
                left,
                ValuePath::Body(ref segs)
                if segs == &vec!["user".to_string(), "profile".to_string(), "email".to_string()]
            ));
        }
        _ => panic!(),
    }
}

#[test]
fn test_parse_value_path_directly() {
    assert!(matches!(
        parse_value_path("status").unwrap(),
        ValuePath::Status
    ));
    assert!(parse_value_path("nonsense.path").is_err());
}

#[test]
fn test_bool_ordering_is_invalid_operator() {
    let a = AssertValue::Bool(true);
    let b = AssertValue::Bool(false);
    assert!(a.compare(CompareOp::Greater, &b).is_err());
    assert!(a.compare(CompareOp::NotEqual, &b).unwrap());
}

#[test]
fn test_null_comparisons() {
    let n = AssertValue::Null;
    let s = AssertValue::String("x".to_string());
    assert!(n.compare(CompareOp::Equal, &AssertValue::Null).unwrap());
    assert!(!n.compare(CompareOp::NotEqual, &AssertValue::Null).unwrap());
    assert!(!n.compare(CompareOp::Equal, &s).unwrap());
    assert!(n.compare(CompareOp::NotEqual, &s).unwrap());
    assert!(n.compare(CompareOp::Less, &s).is_err());
}

#[test]
fn test_cross_type_is_type_mismatch() {
    let a = AssertValue::Number(Number {
        neg: false,
        mant: 1,
        exp: 0,
    });
    let b = AssertValue::String("1".to_string());
    assert!(a.compare(CompareOp::Equal, &b).is_err());
}

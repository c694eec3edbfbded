use rupost::parser::MarkdownFileParser;

#[test]
fn test_extract_single_http_block() {
    let content = r#"
# API Docs

## Get Users

```http
GET https://api.example.com/users
```
"#;
    let parsed = MarkdownFileParser::parse_content(content).unwrap();
    assert_eq!(parsed.requests.len(), 1);
    assert_eq!(
        parsed.requests[0].metadata.name,
        Some("Get Users".to_string())
    );
}

#[test]
fn test_extract_multiple_blocks() {
    let content = r#"
# User API

## List Users

```http
GET https://api.example.com/users
```

## Create User

```rest
POST https://api.example.com/users
Content-Type: application/json

{"name": "Alice"}
```
"#;
    let parsed = MarkdownFileParser::parse_content(content).unwrap();
    assert_eq!(parsed.requests.len(), 2);
    assert_eq!(
        parsed.requests[0].metadata.name,
        Some("List Users".to_string())
    );
    assert_eq!(
        parsed.requests[1].metadata.name,
        Some("Create User".to_string())
    );
}

#[test]
fn test_explicit_name_overrides_header() {
    let content = r#"
## Get Users

```http
@name custom-name
GET https://api.example.com/users
```
"#;
    let parsed = MarkdownFileParser::parse_content(content).unwrap();
    assert_eq!(
        parsed.requests[0].metadata.name,
        Some("custom-name".to_string())
    );
}

#[test]
fn test_empty_file() {
    let content = "";
    let parsed = MarkdownFileParser::parse_content(content).unwrap();
    assert_eq!(parsed.requests.len(), 0);
}

#[test]
fn test_no_code_blocks() {
    let content = r#"
# API Documentation

This is just text without any code blocks.

## Overview

More text here.
"#;
    let parsed = MarkdownFileParser::parse_content(content).unwrap();
    assert_eq!(parsed.requests.len(), 0);
}

#[test]
fn test_other_language_blocks_are_ignored() {
    let content = r#"
## Example

```python
print("not a request")
```

```http
GET https://api.example.com/one
```
"#;
    let parsed = MarkdownFileParser::parse_content(content).unwrap();
    assert_eq!(parsed.requests.len(), 1);
    assert_eq!(parsed.requests[0].url, "https://api.example.com/one");
}

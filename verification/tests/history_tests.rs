use rupost::generator::HttpGenerator;
use rupost::history::HistoryStorage;
use rupost::history::serialization::{deserialize, serialize};
use rupost::history::storage::tail_entries;
use rupost::history::{HistoryEntry, RequestSnapshot, ResponseMeta};

fn create_dummy_entry(id: &str) -> HistoryEntry {
    HistoryEntry {
        id: id.to_string(),
        timestamp: "2024-01-01T00:00:00Z".to_string(),
        duration_ms: 100,
        request: RequestSnapshot {
            method: "GET".to_string(),
            url: "https://example.com".to_string(),
            headers: Vec::new(),
            body: None,
        },
        response: ResponseMeta {
            status: 200,
            headers: Vec::new(),
        },
    }
}

#[test]
fn test_serialize_line_shape() {
    let entry = create_dummy_entry("1");
    let line = serialize(&entry);
    assert_eq!(
        line,
        "{\"id\":\"1\",\"timestamp\":\"2024-01-01T00:00:00Z\",\"duration_ms\":100,\
         \"request\":{\"method\":\"GET\",\"url\":\"https://example.com\",\"headers\":{},\
         \"body\":null},\"response\":{\"status\":200,\"headers\":{}}}"
    );
}

#[test]
fn test_serialize_escapes_quotes() {
    let mut entry = create_dummy_entry("1");
    entry.request.body = Some("say \"hi\"\n".to_string());
    let line = serialize(&entry);
    assert!(line.contains("\\\"hi\\\"\\n"));
    assert!(!line.contains('\n'));
}

#[test]
fn test_round_trip_line() {
    let mut entry = create_dummy_entry("abc");
    entry.request.headers = vec![("content-type".to_string(), "application/json".to_string())];
    entry.request.body = Some("{\"a\":1}".to_string());
    let line = serialize(&entry);
    let back = deserialize(line.as_str()).unwrap();
    assert_eq!(back.id, "abc");
    assert_eq!(back.timestamp, entry.timestamp);
    assert_eq!(back.duration_ms, 100);
    assert_eq!(back.request.method, "GET");
    assert_eq!(back.request.url, "https://example.com");
    assert_eq!(back.request.headers.len(), 1);
    assert_eq!(back.request.body, Some("{\"a\":1}".to_string()));
    assert_eq!(back.response.status, 200);
}

#[test]
fn test_control_characters_are_escaped() {
    let mut entry = create_dummy_entry("1");
    entry.request.body = Some("a\u{1}b".to_string());
    let line = serialize(&entry);
    assert!(line.contains("\\u0001"));
    let back = deserialize(line.as_str()).unwrap();
    assert_eq!(back.request.body, Some("a\u{1}b".to_string()));
}

#[test]
fn test_non_string_header_value_pair_is_dropped() {
    let line = "{\"id\":\"1\",\"timestamp\":\"t\",\"duration_ms\":1,\
                \"request\":{\"method\":\"GET\",\"url\":\"u\",\
                \"headers\":{\"a\":\"1\",\"b\":2},\"body\":null},\
                \"response\":{\"status\":200,\"headers\":{}}}";
    let back = deserialize(line).unwrap();
    assert_eq!(back.request.headers, vec![("a".to_string(), "1".to_string())]);
}

#[test]
fn test_malformed_line_is_skipped() {
    assert!(deserialize("not json").is_none());
    assert!(deserialize("{\"id\":1}").is_none());
}

#[test]
fn test_tail_keeps_most_recent() {
    let mut entries = Vec::new();
    let mut i: usize = 0;
    while i < 10 {
        entries.push(create_dummy_entry(&i.to_string()));
        i += 1;
    }
    let tail = tail_entries(entries, 3);
    assert_eq!(tail.len(), 3);
    assert_eq!(tail[0].id, "7");
    assert_eq!(tail[2].id, "9");
}

#[test]
fn test_select_last() {
    let entries = vec![
        create_dummy_entry("1"),
        create_dummy_entry("2"),
        create_dummy_entry("3"),
    ];
    let selected = rupost::history::selector::select_last(entries, 2);
    assert_eq!(selected.len(), 2);
    assert_eq!(selected[0].id, "2");
    assert_eq!(selected[1].id, "3");
}

#[test]
fn test_generate_block_shape() {
    let mut entry = create_dummy_entry("abcdef0123456789");
    entry.request.headers = vec![
        ("accept".to_string(), "application/json".to_string()),
        ("user-agent".to_string(), "dropped/1.0".to_string()),
    ];
    let text = HttpGenerator::generate(&vec![entry]).unwrap();
    assert!(text.starts_with("### Request abcdef01\n"));
    assert!(text.contains("GET https://example.com\n"));
    assert!(text.contains("accept: application/json\n"));
    assert!(!text.contains("user-agent"));
    assert!(text.contains("# @assert status == 200\n"));
}

#[test]
fn test_generated_document_parses_back() {
    let entry = create_dummy_entry("roundtrip");
    let text = HttpGenerator::generate(&vec![entry]).unwrap();
    let parsed = rupost::parser::HttpFileParser::parse_content(text.as_str()).unwrap();
    assert_eq!(parsed.requests.len(), 1);
    assert_eq!(parsed.requests[0].method, Some("GET".to_string()));
    assert_eq!(parsed.requests[0].url, "https://example.com");
    assert_eq!(parsed.requests[0].metadata.assertions.len(), 0);
}

#[test]
fn test_should_skip_header_set() {
    assert!(HttpGenerator::should_skip_header("Content-Length"));
    assert!(HttpGenerator::should_skip_header("HOST"));
    assert!(!HttpGenerator::should_skip_header("Accept"));
}

#[test]
fn test_default_storage_path() {
    let storage = HistoryStorage::new();
    assert_eq!(storage.path(), ".rupost/history.jsonl");
    let custom = HistoryStorage::new_with_path("/tmp/h.jsonl".to_string());
    assert_eq!(custom.path(), "/tmp/h.jsonl");
}

#[test]
fn test_compaction_thresholds() {
    assert!(!HistoryStorage::needs_compaction(1024));
    assert!(HistoryStorage::needs_compaction(20 * 1024 * 1024));
    assert!(!HistoryStorage::over_capacity(10000));
    assert!(HistoryStorage::over_capacity(10001));
}

use har_compare::{from_raw_entry, normalize_entries, RawEntry, RawHeader};

fn pair(name: &str, value: &str) -> RawHeader {
    RawHeader { name: name.to_string(), value: value.to_string() }
}

fn entry(url: &str) -> RawEntry {
    RawEntry {
        method: "GET".to_string(),
        url: url.to_string(),
        headers: vec![pair("A", "1"), pair("B", "2"), pair("A", "3")],
        query_string: Some(vec![pair("x", "1"), pair("y", "2"), pair("x", "3")]),
        post_text: Some("body".to_string()),
        status: 201,
        response_headers: vec![pair("Server", "s")],
        content_text: None,
    }
}

#[test]
fn entry_becomes_record_with_path_and_maps() {
    let r = from_raw_entry(&entry("https://h.example.com/p/q?x=1&y=2"), 7).expect("valid URL");
    assert_eq!(r.method, "GET");
    assert_eq!(r.url, "https://h.example.com/p/q?x=1&y=2");
    assert_eq!(r.path, "/p/q?x=1&y=2");
    assert_eq!(r.headers, vec![("A".to_string(), "3".to_string()), ("B".to_string(), "2".to_string())]);
    assert_eq!(
        r.query_params,
        vec![
            ("x".to_string(), vec!["1".to_string(), "3".to_string()]),
            ("y".to_string(), vec!["2".to_string()]),
        ]
    );
    assert_eq!(r.post_data, Some("body".to_string()));
    assert_eq!(r.response_status, 201);
    assert_eq!(r.response_headers, vec![("Server".to_string(), "s".to_string())]);
    assert_eq!(r.response_body, None);
    assert_eq!(r.index, 7);
}

#[test]
fn path_without_query_has_no_question_mark() {
    let r = from_raw_entry(&entry("https://h.example.com/only"), 1).expect("valid URL");
    assert_eq!(r.path, "/only");
    let root = from_raw_entry(&entry("https://h.example.com"), 1).expect("valid URL");
    assert_eq!(root.path, "/");
}

#[test]
fn unparseable_url_is_skipped() {
    assert!(from_raw_entry(&entry("not a url"), 1).is_none());
}

#[test]
fn records_are_numbered_among_kept_entries() {
    let entries = vec![
        entry("https://h.example.com/1"),
        entry("::bad::"),
        entry("https://h.example.com/2"),
    ];
    let doc = normalize_entries(&entries);
    assert_eq!(doc.requests.len(), 2);
    assert_eq!(doc.requests[0].path, "/1");
    assert_eq!(doc.requests[0].index, 1);
    assert_eq!(doc.requests[1].path, "/2");
    assert_eq!(doc.requests[1].index, 2);
    assert_eq!(doc.skipped, vec![1]);
}

fn document(entries: &[&str]) -> String {
    format!("{{\"log\":{{\"version\":\"1.2\",\"entries\":[{}]}}}}", entries.join(","))
}

fn entry_json(url: &str, status: &str) -> String {
    format!(
        "{{\"request\":{{\"method\":\"POST\",\"url\":\"{}\",\"headers\":[{{\"name\":\"Accept\",\"value\":\"*/*\"}}],\"queryString\":[{{\"name\":\"q\",\"value\":\"1\"}}],\"postData\":{{\"mimeType\":\"application/json\",\"text\":\"{{}}\"}}}},\"response\":{{\"status\":{},\"headers\":[],\"content\":{{\"size\":0}}}}}}",
        url, status
    )
}

#[test]
fn capture_document_is_read_in_order() {
    let a = entry_json("https://h.example.com/a?q=1", "200");
    let b = entry_json("https://h.example.com/b", "404");
    let doc = document(&[&a, &b]);
    let records = har_compare::parse_har_file(&doc).expect("valid capture");
    assert_eq!(records.len(), 2);
    assert_eq!(records[0].method, "POST");
    assert_eq!(records[0].path, "/a?q=1");
    assert_eq!(records[0].headers, vec![("Accept".to_string(), "*/*".to_string())]);
    assert_eq!(records[0].query_params, vec![("q".to_string(), vec!["1".to_string()])]);
    assert_eq!(records[0].post_data, Some("{}".to_string()));
    assert_eq!(records[0].response_status, 200);
    assert_eq!(records[0].response_body, None);
    assert_eq!(records[1].response_status, 404);
    assert_eq!(records[1].index, 2);
}

#[test]
fn capture_entry_with_bad_url_is_skipped_and_reported() {
    let a = entry_json("not a url", "200");
    let b = entry_json("https://h.example.com/b", "200");
    let doc = har_compare::parse_har_document(&document(&[&a, &b])).expect("valid capture");
    assert_eq!(doc.requests.len(), 1);
    assert_eq!(doc.requests[0].index, 1);
    assert_eq!(doc.skipped, vec![0]);
}

#[test]
fn capture_that_is_not_json_is_fatal() {
    assert!(matches!(har_compare::parse_har_file("{\"log\":"), Err(har_compare::ParseError::NotJson)));
}

#[test]
fn capture_of_wrong_shape_is_fatal() {
    assert!(matches!(har_compare::parse_har_file("{}"), Err(har_compare::ParseError::BadStructure)));
    let float_status = entry_json("https://h.example.com/a", "200.0");
    assert!(matches!(
        har_compare::parse_har_file(&document(&[&float_status])),
        Err(har_compare::ParseError::BadStructure)
    ));
    let big_status = entry_json("https://h.example.com/a", "70000");
    assert!(matches!(
        har_compare::parse_har_file(&document(&[&big_status])),
        Err(har_compare::ParseError::BadStructure)
    ));
}

#[test]
fn capture_optional_parts_may_be_null_or_missing() {
    let e = "{\"request\":{\"method\":\"GET\",\"url\":\"https://h.example.com/x\",\"headers\":[],\"queryString\":null},\"response\":{\"status\":0,\"headers\":[],\"content\":{\"text\":\"ok\"}}}";
    let records = har_compare::parse_har_file(&document(&[e])).expect("valid capture");
    assert_eq!(records[0].query_params, vec![]);
    assert_eq!(records[0].post_data, None);
    assert_eq!(records[0].response_body, Some("ok".to_string()));
    assert!(har_compare::parse_har_file(&document(&[])).expect("valid capture").is_empty());
}

#[test]
fn record_is_built_from_url_parts() {
    let parts = har_compare::url_parts::UrlParts {
        host: Some("h.example.com".to_string()),
        path: "/p".to_string(),
        query: Some("a=1".to_string()),
    };
    let r = har_compare::normalize::record_from_parts(&entry("https://h.example.com/p?a=1"), &parts, 4);
    assert_eq!(r.path, "/p?a=1");
    assert_eq!(r.index, 4);
    let bare = har_compare::url_parts::UrlParts { host: None, path: "/q".to_string(), query: None };
    assert_eq!(har_compare::normalize::record_from_parts(&entry("x"), &bare, 1).path, "/q");
}

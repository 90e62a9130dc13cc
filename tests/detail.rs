use har_compare::{
    create_detailed_comparison, create_detailed_comparison_with_whitelist, format_headers,
    format_json_string, format_params, format_raw_request, HarRequest, WhitelistConfig,
    WhitelistRules,
};

fn record() -> HarRequest {
    HarRequest {
        method: "GET".to_string(),
        url: "https://api.example.com/a".to_string(),
        path: "/a".to_string(),
        headers: vec![
            ("X-Trace".to_string(), "abc".to_string()),
            ("Accept".to_string(), "application/json".to_string()),
        ],
        query_params: vec![],
        post_data: None,
        response_status: 200,
        response_headers: vec![],
        response_body: None,
        index: 1,
    }
}

#[test]
fn general_section_is_five_lines() {
    let a = record();
    let mut b = record();
    b.index = 3;
    b.response_status = 404;
    let d = create_detailed_comparison(&a, &b, false);
    assert_eq!(
        d.general.content1,
        "Index: 1\nMethod: GET\nURL: https://api.example.com/a\nPath: /a\nResponse Status: 200"
    );
    assert_eq!(
        d.general.content2,
        "Index: 3\nMethod: GET\nURL: https://api.example.com/a\nPath: /a\nResponse Status: 404"
    );
    assert!(d.general.whitelisted_keys.is_empty());
    assert!(d.general.differences.is_empty());
}

#[test]
fn headers_are_sorted_lines() {
    let a = record();
    assert_eq!(format_headers(&a.headers), "Accept: application/json\nX-Trace: abc");
    assert_eq!(format_headers(&vec![]), "No headers");
}

#[test]
fn params_are_sorted_lines_with_joined_values() {
    let params = vec![
        ("b".to_string(), vec!["2".to_string(), "3".to_string()]),
        ("a".to_string(), vec!["1".to_string()]),
    ];
    assert_eq!(format_params(&params), "a: 1\nb: 2, 3");
    assert_eq!(format_params(&vec![]), "No parameters");
}

#[test]
fn raw_request_has_encoded_query_sorted_headers_and_canonical_body() {
    let mut r = record();
    r.method = "POST".to_string();
    r.path = "/submit".to_string();
    r.query_params = vec![
        ("q".to_string(), vec!["a b".to_string()]),
        ("z".to_string(), vec!["1".to_string()]),
    ];
    r.headers = vec![
        ("content-type".to_string(), "application/json".to_string()),
        ("Accept".to_string(), "x".to_string()),
    ];
    r.post_data = Some("{\"b\":1,\"a\":2}".to_string());
    assert_eq!(
        format_raw_request(&r),
        "POST /submit?q=a%20b&z=1 HTTP/1.1\nAccept: x\ncontent-type: application/json\n\n{\n  \"a\": 2,\n  \"b\": 1\n}"
    );
}

#[test]
fn raw_request_without_body_ends_in_blank_line() {
    let mut r = record();
    r.headers = vec![];
    r.post_data = Some(String::new());
    assert_eq!(format_raw_request(&r), "GET /a HTTP/1.1\n\n");
}

#[test]
fn response_section_shows_status_headers_and_body() {
    let mut a = record();
    a.response_status = 404;
    let mut b = record();
    b.response_headers = vec![("Server".to_string(), "x".to_string())];
    b.response_body = Some("plain text".to_string());
    let d = create_detailed_comparison(&a, &b, false);
    assert_eq!(d.response.content1, "Status: 404\n\nHeaders:\nNo headers\n\nBody:\nNo body");
    assert_eq!(d.response.content2, "Status: 200\n\nHeaders:\nServer: x\n\nBody:\nplain text");
    let body = d.response_body.expect("one side has a body");
    assert_eq!(body.content1, "No response body");
    assert_eq!(body.content2, "plain text");
}

#[test]
fn payload_section_only_where_a_body_exists() {
    let a = record();
    let mut b = record();
    assert!(create_detailed_comparison(&a, &b, false).payloads.is_none());
    assert!(create_detailed_comparison(&a, &b, false).response_body.is_none());
    b.post_data = Some("   ".to_string());
    let d = create_detailed_comparison(&a, &b, false);
    let p = d.payloads.expect("one side has a body");
    assert_eq!(p.content1, "No payload");
    assert_eq!(p.content2, "Empty payload");
}

#[test]
fn exempt_names_are_lower_cased() {
    let mut a = record();
    let mut b = record();
    a.post_data = Some("{\"Token\":1,\"id\":2}".to_string());
    b.post_data = Some("{\"Token\":3,\"id\":2}".to_string());
    let wl = WhitelistConfig {
        global: Some(WhitelistRules {
            headers: Some(vec!["ACCEPT".to_string()]),
            payload_keys: Some(vec!["Token".to_string()]),
        }),
        local: None,
    };
    let d = create_detailed_comparison_with_whitelist(&a, &b, false, &wl);
    assert_eq!(d.headers.whitelisted_keys, vec!["accept".to_string()]);
    assert_eq!(d.raw_request.whitelisted_keys, vec!["accept".to_string()]);
    assert_eq!(d.payloads.expect("bodies").whitelisted_keys, vec!["token".to_string()]);
    assert!(d.params.whitelisted_keys.is_empty());
}

#[test]
fn canonical_json_sorts_keys_at_every_depth() {
    let text = "{\"z\":{\"y\":1,\"x\":[{\"d\":1,\"c\":2}]},\"a\":true}";
    let expected = "{\n  \"a\": true,\n  \"z\": {\n    \"x\": [\n      {\n        \"c\": 2,\n        \"d\": 1\n      }\n    ],\n    \"y\": 1\n  }\n}";
    assert_eq!(format_json_string(text), expected);
}

#[test]
fn canonical_json_is_idempotent() {
    let text = "{\"b\":[3,{\"k\":\"v\",\"a\":null}],\"a\":1.5,\"c\":\"s\"}";
    let once = format_json_string(text);
    assert_eq!(format_json_string(&once), once);
}

#[test]
fn non_json_text_is_kept() {
    assert_eq!(format_json_string("a=1&b=2"), "a=1&b=2");
}

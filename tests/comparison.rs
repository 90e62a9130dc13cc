use har_compare::compare::{compare_json_values, DiffResult};
use har_compare::JsonValue;
use har_compare::{
    compare_requests, compare_requests_with_whitelist, HarRequest, LocalWhitelistRule,
    WhitelistConfig, WhitelistRules,
};

fn record(method: &str, path: &str) -> HarRequest {
    HarRequest {
        method: method.to_string(),
        url: format!("https://api.example.com{}", path),
        path: path.to_string(),
        headers: vec![
            ("Accept".to_string(), "application/json".to_string()),
            ("X-Trace".to_string(), "abc".to_string()),
        ],
        query_params: vec![],
        post_data: None,
        response_status: 200,
        response_headers: vec![],
        response_body: None,
        index: 1,
    }
}

fn global_headers(names: &[&str]) -> WhitelistConfig {
    WhitelistConfig {
        global: Some(WhitelistRules {
            headers: Some(names.iter().map(|n| n.to_string()).collect()),
            payload_keys: None,
        }),
        local: None,
    }
}

fn local_keys(url: Option<&str>, host: Option<&str>, keys: &[&str]) -> WhitelistConfig {
    WhitelistConfig {
        global: None,
        local: Some(vec![LocalWhitelistRule {
            host: host.map(|h| h.to_string()),
            url: url.map(|u| u.to_string()),
            headers: None,
            payload_keys: Some(keys.iter().map(|k| k.to_string()).collect()),
        }]),
    }
}

#[test]
fn record_compared_with_itself_matches() {
    let mut r = record("POST", "/orders?x=1");
    r.query_params = vec![("x".to_string(), vec!["1".to_string()])];
    r.post_data = Some("{\"a\":[1,2],\"b\":{\"c\":null}}".to_string());
    let out = compare_requests(&r, &r.clone(), false);
    assert_eq!(out.status, "match");
    assert_eq!(out.details, "Full match");
    let wl = global_headers(&["x-trace"]);
    assert_eq!(compare_requests_with_whitelist(&r, &r.clone(), true, &wl).status, "match");
}

#[test]
fn difference_only_in_whitelisted_header_is_whitelisted() {
    let a = record("GET", "/a");
    let mut b = record("GET", "/a");
    b.headers[1].1 = "other".to_string();
    let out = compare_requests_with_whitelist(&a, &b, false, &global_headers(&["X-TRACE"]));
    assert_eq!(out.status, "whitelisted");
    assert_eq!(out.details, "Differences only in whitelisted fields");
    assert_eq!(compare_requests(&a, &b, false).status, "partial");
}

#[test]
fn missing_whitelisted_header_is_whitelisted() {
    let a = record("GET", "/a");
    let mut b = record("GET", "/a");
    b.headers.pop();
    let out = compare_requests_with_whitelist(&a, &b, false, &global_headers(&["x-trace"]));
    assert_eq!(out.status, "whitelisted");
}

#[test]
fn plain_header_difference_is_partial_even_beside_exempt_one() {
    let a = record("GET", "/a");
    let mut b = record("GET", "/a");
    b.headers[0].1 = "text/html".to_string();
    b.headers[1].1 = "other".to_string();
    let out = compare_requests_with_whitelist(&a, &b, false, &global_headers(&["x-trace"]));
    assert_eq!(out.status, "partial");
    assert_eq!(out.details, "Has differences");
}

#[test]
fn different_paths_are_different_whatever_the_whitelist() {
    let a = record("GET", "/a");
    let b = record("GET", "/b");
    let out = compare_requests_with_whitelist(&a, &b, false, &global_headers(&["accept"]));
    assert_eq!(out.status, "different");
    assert_eq!(out.details, "Different paths");
}

#[test]
fn get_paths_compare_without_query() {
    let a = record("get", "/a?page=1");
    let b = record("GET", "/a?page=2");
    assert_eq!(compare_requests(&a, &b, false).status, "partial");
    let c = record("GET", "/a?page=1");
    let d = record("GET", "/a?page=2");
    assert_eq!(compare_requests(&c, &d, false).status, "match");
}

#[test]
fn post_paths_compare_with_query() {
    let a = record("POST", "/a?page=1");
    let b = record("POST", "/a?page=2");
    assert_eq!(compare_requests(&a, &b, false).status, "different");
}

#[test]
fn post_query_parameters_are_compared() {
    let mut a = record("POST", "/a");
    let mut b = record("POST", "/a");
    a.query_params = vec![("k".to_string(), vec!["1".to_string()])];
    b.query_params = vec![("k".to_string(), vec!["2".to_string()])];
    assert_eq!(compare_requests(&a, &b, false).status, "partial");
    b.query_params = vec![("k".to_string(), vec!["1".to_string()])];
    assert_eq!(compare_requests(&a, &b, false).status, "match");
}

#[test]
fn get_query_parameters_are_not_compared() {
    let mut a = record("GET", "/a");
    let mut b = record("GET", "/a");
    a.query_params = vec![("k".to_string(), vec!["1".to_string()])];
    b.query_params = vec![("k".to_string(), vec!["2".to_string()])];
    assert_eq!(compare_requests(&a, &b, false).status, "match");
}

#[test]
fn whitelisted_payload_key_is_whitelisted() {
    let mut a = record("POST", "/login");
    let mut b = record("POST", "/login");
    a.post_data = Some("{\"token\":\"X\"}".to_string());
    b.post_data = Some("{\"token\":\"Y\"}".to_string());
    let wl = local_keys(Some("/login"), None, &["token"]);
    assert_eq!(compare_requests_with_whitelist(&a, &b, false, &wl).status, "whitelisted");
    assert_eq!(compare_requests(&a, &b, false).status, "partial");
}

#[test]
fn payload_key_match_is_case_sensitive() {
    let mut a = record("POST", "/login");
    let mut b = record("POST", "/login");
    a.post_data = Some("{\"token\":\"X\"}".to_string());
    b.post_data = Some("{\"token\":\"Y\"}".to_string());
    let wl = local_keys(Some("/login"), None, &["Token"]);
    assert_eq!(compare_requests_with_whitelist(&a, &b, false, &wl).status, "partial");
}

#[test]
fn local_rule_by_host_applies_only_to_its_host() {
    let mut a = record("POST", "/login");
    let mut b = record("POST", "/login");
    a.post_data = Some("{\"token\":\"X\"}".to_string());
    b.post_data = Some("{\"token\":\"Y\"}".to_string());
    let here = local_keys(None, Some("example.com"), &["token"]);
    assert_eq!(compare_requests_with_whitelist(&a, &b, false, &here).status, "whitelisted");
    let elsewhere = local_keys(None, Some("other.org"), &["token"]);
    assert_eq!(compare_requests_with_whitelist(&a, &b, false, &elsewhere).status, "partial");
}

#[test]
fn nested_payload_difference_under_plain_key() {
    let mut a = record("POST", "/p");
    let mut b = record("POST", "/p");
    a.post_data = Some("{\"user\":{\"id\":1,\"nonce\":\"a\"}}".to_string());
    b.post_data = Some("{\"user\":{\"id\":1,\"nonce\":\"b\"}}".to_string());
    let wl = local_keys(Some("example.com"), None, &["nonce"]);
    assert_eq!(compare_requests_with_whitelist(&a, &b, false, &wl).status, "whitelisted");
    let outer = local_keys(Some("example.com"), None, &["id"]);
    assert_eq!(compare_requests_with_whitelist(&a, &b, false, &outer).status, "partial");
}

#[test]
fn array_difference_is_never_exempt() {
    let mut a = record("POST", "/p");
    let mut b = record("POST", "/p");
    a.post_data = Some("[{\"nonce\":1}]".to_string());
    b.post_data = Some("[{\"nonce\":2}]".to_string());
    let wl = local_keys(Some("example.com"), None, &["nonce"]);
    assert_eq!(compare_requests_with_whitelist(&a, &b, false, &wl).status, "partial");
}

#[test]
fn json_bodies_compare_as_values() {
    let mut a = record("POST", "/p");
    let mut b = record("POST", "/p");
    a.post_data = Some("{\"a\":1,\"b\":2}".to_string());
    b.post_data = Some("{ \"b\": 2, \"a\": 1 }".to_string());
    assert_eq!(compare_requests(&a, &b, false).status, "match");
}

#[test]
fn text_bodies_compare_as_text() {
    let mut a = record("POST", "/p");
    let mut b = record("POST", "/p");
    a.post_data = Some("token=X".to_string());
    b.post_data = Some("token=Y".to_string());
    let wl = local_keys(Some("example.com"), None, &["token"]);
    assert_eq!(compare_requests_with_whitelist(&a, &b, false, &wl).status, "partial");
}

#[test]
fn one_sided_body_is_partial() {
    let a = record("POST", "/p");
    let mut b = record("POST", "/p");
    b.post_data = Some("{}".to_string());
    assert_eq!(compare_requests(&a, &b, false).status, "partial");
}

#[test]
fn method_difference_is_partial() {
    let a = record("PUT", "/p");
    let b = record("PATCH", "/p");
    assert_eq!(compare_requests(&a, &b, false).status, "partial");
}

#[test]
fn upper_cased_methods_decide_the_path_gate() {
    let a = record("get", "/a?x=1");
    let b = record("get", "/a?x=2");
    let wl = WhitelistConfig::new();
    let as_get = har_compare::compare::compare_with_upper_methods(&a, &b, "GET", "GET", &wl);
    assert_eq!(as_get.status, "match");
    let as_other = har_compare::compare::compare_with_upper_methods(&a, &b, "get", "get", &wl);
    assert_eq!(as_other.status, "different");
}

#[test]
fn json_values_collect_exempt_and_plain_differences() {
    let obj = |k: &str, v: &str| JsonValue::Object(vec![(k.to_string(), JsonValue::Str(v.to_string()))]);
    let wl = local_keys(Some("example.com"), None, &["token"]);
    let mut result = DiffResult { has_non_whitelisted_diff: false, has_whitelisted_diff: false };
    compare_json_values(&obj("token", "a"), &obj("token", "b"), "https://api.example.com/", &wl, &mut result);
    assert!(result.has_whitelisted_diff && !result.has_non_whitelisted_diff);
    compare_json_values(&obj("id", "a"), &obj("id", "b"), "https://api.example.com/", &wl, &mut result);
    assert!(result.has_whitelisted_diff && result.has_non_whitelisted_diff);
}

use har_compare::{parse_whitelist_config, LocalWhitelistRule, ParseError, WhitelistConfig, WhitelistRules};

#[test]
fn empty_config_exempts_nothing() {
    let wl = WhitelistConfig::new();
    assert!(!wl.is_header_whitelisted("Accept", "https://a.example.com/"));
    assert!(!wl.is_payload_key_whitelisted("token", "https://a.example.com/"));
}

#[test]
fn header_names_match_ignoring_case_and_keys_exactly() {
    let wl = WhitelistConfig {
        global: Some(WhitelistRules {
            headers: Some(vec!["X-Request-ID".to_string()]),
            payload_keys: Some(vec!["nonce".to_string()]),
        }),
        local: None,
    };
    assert!(wl.is_header_whitelisted("x-request-id", "https://a.example.com/"));
    assert!(wl.is_payload_key_whitelisted("nonce", "https://a.example.com/"));
    assert!(!wl.is_payload_key_whitelisted("Nonce", "https://a.example.com/"));
}

#[test]
fn local_rules_select_by_url_or_host() {
    let wl = WhitelistConfig {
        global: None,
        local: Some(vec![
            LocalWhitelistRule {
                host: None,
                url: Some("/login".to_string()),
                headers: Some(vec!["cookie".to_string()]),
                payload_keys: None,
            },
            LocalWhitelistRule {
                host: Some("pay.".to_string()),
                url: None,
                headers: None,
                payload_keys: Some(vec!["amount".to_string()]),
            },
        ]),
    };
    assert!(wl.is_header_whitelisted("Cookie", "https://a.example.com/login?x"));
    assert!(!wl.is_header_whitelisted("Cookie", "https://a.example.com/home"));
    assert!(wl.is_payload_key_whitelisted("amount", "https://pay.example.com/checkout"));
    assert!(!wl.is_payload_key_whitelisted("amount", "https://shop.example.com/pay./x"));
    assert!(!wl.is_payload_key_whitelisted("amount", "not a url pay."));
}

#[test]
fn config_document_is_read() {
    let text = "{\"global\":{\"headers\":[\"Date\"]},\"local\":[{\"url\":\"/api\",\"payload_keys\":[\"ts\"],\"host\":null}]}";
    let wl = parse_whitelist_config(text).expect("valid document");
    let global = wl.global.clone().expect("global rules");
    assert_eq!(global.headers, Some(vec!["Date".to_string()]));
    assert_eq!(global.payload_keys, None);
    let local = wl.local.clone().expect("local rules");
    assert_eq!(local.len(), 1);
    assert_eq!(local[0].url, Some("/api".to_string()));
    assert_eq!(local[0].host, None);
    assert_eq!(local[0].payload_keys, Some(vec!["ts".to_string()]));
    assert!(wl.is_header_whitelisted("date", "https://x.example.com/"));
    assert!(wl.is_payload_key_whitelisted("ts", "https://x.example.com/api/v1"));
}

#[test]
fn empty_document_has_no_rules() {
    let wl = parse_whitelist_config("{}").expect("valid document");
    assert!(wl.global.is_none());
    assert!(wl.local.is_none());
    let nulls = parse_whitelist_config("{\"global\":null,\"local\":null}").expect("valid document");
    assert!(nulls.global.is_none() && nulls.local.is_none());
}

#[test]
fn malformed_json_is_fatal_and_falls_back_to_empty() {
    let result = parse_whitelist_config("{\"global\": {\"headers\": [");
    assert!(matches!(result, Err(ParseError::NotJson)));
    let wl = result.unwrap_or_else(|_| WhitelistConfig::new());
    assert!(!wl.is_header_whitelisted("Date", "https://x.example.com/"));
}

#[test]
fn wrong_shape_is_fatal() {
    assert!(matches!(parse_whitelist_config("{\"global\": 5}"), Err(ParseError::BadStructure)));
    assert!(matches!(
        parse_whitelist_config("{\"local\": [{\"url\": 3}]}"),
        Err(ParseError::BadStructure)
    ));
    assert!(matches!(parse_whitelist_config("[1]"), Err(ParseError::BadStructure)));
}

#[test]
fn rule_selects_by_given_host() {
    let rule = LocalWhitelistRule {
        host: Some("example".to_string()),
        url: None,
        headers: None,
        payload_keys: None,
    };
    let url = "https://a.example.com/";
    assert!(har_compare::whitelist::rule_selects(&rule, url, &Some("a.example.com".to_string())));
    assert!(!har_compare::whitelist::rule_selects(&rule, url, &Some("other.org".to_string())));
    assert!(!har_compare::whitelist::rule_selects(&rule, url, &None));
}

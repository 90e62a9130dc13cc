use har_compare::{
    align_requests, align_requests_like_vscode, align_requests_like_vscode_with_whitelist,
    align_requests_with_whitelist, AlignedPair, HarRequest, WhitelistConfig,
};

fn record(method: &str, path: &str) -> HarRequest {
    HarRequest {
        method: method.to_string(),
        url: format!("https://api.example.com{}", path),
        path: path.to_string(),
        headers: vec![("Accept".to_string(), "*/*".to_string())],
        query_params: vec![],
        post_data: None,
        response_status: 200,
        response_headers: vec![],
        response_body: None,
        index: 1,
    }
}

fn records(paths: &[&str]) -> Vec<HarRequest> {
    paths.iter().map(|p| record("GET", p)).collect()
}

fn slots(out: &[AlignedPair]) -> Vec<(Option<usize>, Option<usize>)> {
    out.iter().map(|p| (p.index1, p.index2)).collect()
}

fn status(p: &AlignedPair) -> Option<String> {
    p.comparison.as_ref().map(|c| c.status.clone())
}

#[test]
fn identical_single_records_match_in_both_strategies() {
    let a = records(&["/a"]);
    let b = records(&["/a"]);
    for out in [align_requests(&a, &b), align_requests_like_vscode(&a, &b)] {
        assert_eq!(slots(&out), vec![(Some(0), Some(0))]);
        assert_eq!(status(&out[0]), Some("match".to_string()));
        assert_eq!(out[0].comparison.as_ref().unwrap().details, "Full match");
    }
}

#[test]
fn deletion_before_shared_record_in_both_strategies() {
    let a = records(&["/a", "/b"]);
    let b = records(&["/b"]);
    let expected = vec![(Some(0), None), (Some(1), Some(0))];
    let greedy = align_requests(&a, &b);
    let lookahead = align_requests_like_vscode(&a, &b);
    assert_eq!(slots(&greedy), expected);
    assert_eq!(slots(&lookahead), expected);
    assert!(greedy[0].comparison.is_none());
    assert_eq!(status(&greedy[1]), Some("match".to_string()));
    assert_eq!(status(&lookahead[1]), Some("match".to_string()));
}

#[test]
fn empty_captures_align_to_nothing() {
    let none: Vec<HarRequest> = vec![];
    assert!(align_requests(&none, &none).is_empty());
    assert!(align_requests_like_vscode(&none, &none).is_empty());
}

#[test]
fn one_empty_side_is_all_one_sided() {
    let a = records(&["/a", "/b"]);
    let none: Vec<HarRequest> = vec![];
    assert_eq!(slots(&align_requests(&a, &none)), vec![(Some(0), None), (Some(1), None)]);
    assert_eq!(slots(&align_requests_like_vscode(&none, &a)), vec![(None, Some(0)), (None, Some(1))]);
}

#[test]
fn greedy_places_unmatched_second_records_before_next_larger_pair() {
    let a = records(&["/x", "/c", "/y"]);
    let b = records(&["/p", "/c", "/q", "/r"]);
    let out = align_requests(&a, &b);
    assert_eq!(
        slots(&out),
        vec![
            (Some(0), None),
            (None, Some(0)),
            (Some(1), Some(1)),
            (Some(2), None),
            (None, Some(2)),
            (None, Some(3)),
        ]
    );
}

#[test]
fn greedy_pairs_crossing_records_in_first_capture_order() {
    let a = records(&["/x", "/y"]);
    let b = records(&["/y", "/x"]);
    let out = align_requests(&a, &b);
    assert_eq!(slots(&out), vec![(Some(0), Some(1)), (Some(1), Some(0))]);
}

#[test]
fn lookahead_drains_second_side_on_tie() {
    let a = records(&["/x", "/y"]);
    let b = records(&["/y", "/x"]);
    let out = align_requests_like_vscode(&a, &b);
    assert_eq!(slots(&out), vec![(None, Some(0)), (Some(0), Some(1)), (Some(1), None)]);
}

#[test]
fn lookahead_drains_both_when_neither_path_recurs() {
    let a = records(&["/a", "/c"]);
    let b = records(&["/b", "/c"]);
    let out = align_requests_like_vscode(&a, &b);
    assert_eq!(slots(&out), vec![(Some(0), None), (None, Some(0)), (Some(1), Some(1))]);
}

#[test]
fn lookahead_waits_for_the_sooner_match() {
    let a = records(&["/a", "/b", "/c"]);
    let b = records(&["/c", "/a"]);
    let out = align_requests_like_vscode(&a, &b);
    assert_eq!(
        slots(&out),
        vec![(None, Some(0)), (Some(0), Some(1)), (Some(1), None), (Some(2), None)]
    );
}

#[test]
fn every_index_is_used_once_and_count_matches() {
    let a = records(&["/a", "/b", "/a", "/c", "/d"]);
    let b = records(&["/b", "/a", "/e", "/c", "/a"]);
    for out in [align_requests(&a, &b), align_requests_like_vscode(&a, &b)] {
        let matched = out.iter().filter(|p| p.index1.is_some() && p.index2.is_some()).count();
        assert_eq!(out.len(), a.len() + b.len() - matched);
        let mut firsts: Vec<usize> = out.iter().filter_map(|p| p.index1).collect();
        let mut seconds: Vec<usize> = out.iter().filter_map(|p| p.index2).collect();
        assert_eq!(firsts, (0..a.len()).collect::<Vec<_>>());
        seconds.sort();
        assert_eq!(seconds, (0..b.len()).collect::<Vec<_>>());
    }
    let lookahead = align_requests_like_vscode(&a, &b);
    let seconds: Vec<usize> = lookahead.iter().filter_map(|p| p.index2).collect();
    assert_eq!(seconds, (0..b.len()).collect::<Vec<_>>());
}

#[test]
fn paired_records_carry_the_whitelisted_comparison() {
    let mut a = records(&["/a"]);
    let mut b = records(&["/a"]);
    a[0].headers.push(("X-Request-Id".to_string(), "1".to_string()));
    b[0].headers.push(("X-Request-Id".to_string(), "2".to_string()));
    let mut wl = WhitelistConfig::new();
    wl.global = Some(har_compare::WhitelistRules {
        headers: Some(vec!["x-request-id".to_string()]),
        payload_keys: None,
    });
    let greedy = align_requests_with_whitelist(&a, &b, Some(&wl));
    let lookahead = align_requests_like_vscode_with_whitelist(&a, &b, Some(&wl));
    assert_eq!(status(&greedy[0]), Some("whitelisted".to_string()));
    assert_eq!(status(&lookahead[0]), Some("whitelisted".to_string()));
    let plain = align_requests_with_whitelist(&a, &b, None);
    assert_eq!(status(&plain[0]), Some("partial".to_string()));
}

use netrail::merge::{dedupe_results, interleave_batches, merge_fanout, normalize_url_key};
use netrail::types::SearchResult;

fn result(url: &str, snippet: &str, backend: &str) -> SearchResult {
    SearchResult {
        title: "Title".into(),
        url: url.into(),
        snippet: snippet.into(),
        image: None,
        source: String::new(),
        backend: backend.into(),
        provenance: String::new(),
    }
}

#[test]
fn strips_tracking_params() {
    let a = normalize_url_key("https://www.Example.com/page?utm_source=x&id=1");
    let b = normalize_url_key("https://example.com/page?id=1");
    assert_eq!(a, b);
}

#[test]
fn scheme_and_host_case_insensitive() {
    assert_eq!(
        normalize_url_key("HTTPS://EXAMPLE.com/Page"),
        normalize_url_key("https://example.com/Page")
    );
    assert_eq!(
        normalize_url_key("https://www.example.com/Page"),
        normalize_url_key("https://example.com/Page")
    );
}

#[test]
fn path_case_sensitive() {
    assert_ne!(
        normalize_url_key("https://example.com/Page"),
        normalize_url_key("https://example.com/page")
    );
}

#[test]
fn query_case_sensitive() {
    assert_ne!(
        normalize_url_key("https://example.com/search?q=Hello"),
        normalize_url_key("https://example.com/search?q=hello")
    );
    assert_ne!(
        normalize_url_key("https://example.com/Page?A=1"),
        normalize_url_key("https://example.com/Page?a=1")
    );
}

#[test]
fn query_param_order_normalized() {
    assert_eq!(
        normalize_url_key("https://example.com/Page?a=1&b=2"),
        normalize_url_key("https://example.com/Page?b=2&a=1")
    );
}

#[test]
fn fragment_stripped() {
    assert_eq!(
        normalize_url_key("https://example.com/Page#section"),
        normalize_url_key("https://example.com/Page")
    );
}

#[test]
fn default_port_stripped_non_default_kept() {
    assert_eq!(
        normalize_url_key("https://example.com:443/Page"),
        normalize_url_key("https://example.com/Page")
    );
    assert_ne!(
        normalize_url_key("https://example.com:8443/Page"),
        normalize_url_key("https://example.com/Page")
    );
}

#[test]
fn tracking_param_match_case_insensitive() {
    assert_eq!(
        normalize_url_key("https://example.com/Page?UTM_SOURCE=x&id=1"),
        normalize_url_key("https://example.com/Page?id=1")
    );
}

#[test]
fn dedupe_respects_path_case() {
    let items = vec![
        result("https://a.test/Page", "first", "ddgs"),
        result("https://a.test/page", "second", "searxng"),
    ];
    assert_eq!(dedupe_results(items).len(), 2);
}

#[test]
fn exact_keys_match_python_parity() {
    assert_eq!(
        normalize_url_key("https://EXAMPLE.com/Page"),
        "https://example.com/Page"
    );
    assert_eq!(
        normalize_url_key("https://www.example.com/Page?a=1&b=2&utm_source=x"),
        "https://example.com/Page?a=1&b=2"
    );
    assert_eq!(
        normalize_url_key("https://example.com:443/Page#s"),
        "https://example.com/Page"
    );
    assert_eq!(
        normalize_url_key("http://example.com:8080/A?B=C"),
        "http://example.com:8080/A?B=C"
    );
    assert_eq!(normalize_url_key("https://example.com"), "https://example.com");
    assert_eq!(
        normalize_url_key("https://example.com/?id=1"),
        "https://example.com/?id=1"
    );
    assert_eq!(
        normalize_url_key("https://example.com/search?q=rust+programming"),
        "https://example.com/search?q=rust%20programming"
    );
    assert_eq!(
        normalize_url_key("https://example.com/calc?a=1%2B2"),
        "https://example.com/calc?a=1+2"
    );
}

#[test]
fn plus_unifies_with_percent20_space() {
    assert_eq!(
        normalize_url_key("https://example.com/search?q=rust+programming"),
        normalize_url_key("https://example.com/search?q=rust%20programming")
    );
}

#[test]
fn encoded_plus_stays_distinct_from_space() {
    assert_ne!(
        normalize_url_key("https://example.com/calc?a=1%2B2"),
        normalize_url_key("https://example.com/calc?a=1%202")
    );
}

#[test]
fn plus_in_path_untouched() {
    let key = normalize_url_key("https://example.com/a+b?x=1");
    assert!(key.contains("a+b"), "path plus must survive: {key}");
    assert!(key.contains("?x=1"), "query must survive: {key}");
}

#[test]
fn keeps_richer_snippet_on_dedupe() {
    let items = vec![
        result("https://a.test/x", "short", "ddgs"),
        result("https://a.test/x/", "much longer snippet here", "searxng"),
    ];
    let merged = dedupe_results(items);
    assert_eq!(merged.len(), 1);
    assert_eq!(merged[0].snippet, "much longer snippet here");
    assert_eq!(merged[0].backend, "searxng");
}

#[test]
fn single_batch_respects_max_results() {
    let batch = vec![
        result("https://a/1", "", "ddgs"),
        result("https://a/2", "", "ddgs"),
        result("https://a/3", "", "ddgs"),
    ];
    let out = interleave_batches(vec![batch], 2);
    assert_eq!(out.len(), 2);
}

#[test]
fn interleaves_backends() {
    let batches = vec![
        vec![result("https://a/1", "", "ddgs"), result("https://a/2", "", "ddgs")],
        vec![result("https://b/1", "", "searxng")],
    ];
    let out = interleave_batches(batches, 10);
    assert_eq!(out.len(), 3);
    assert_eq!(out[0].backend, "ddgs");
    assert_eq!(out[1].backend, "searxng");
    assert_eq!(out[2].backend, "ddgs");
}

fn result_from(url: &str, backend: &str) -> SearchResult {
    SearchResult {
        title: format!("Result from {backend}"),
        url: url.into(),
        snippet: "Test snippet".into(),
        image: None,
        source: String::new(),
        backend: backend.into(),
        provenance: backend.into(),
    }
}

#[test]
fn merge_fanout_round_robins_in_input_order() {
    let batches = vec![
        ("ddgs".to_string(), vec![result_from("https://ddgs.com/0", "ddgs")]),
        ("searxng".to_string(), vec![result_from("https://searxng.com/0", "searxng")]),
        ("brave".to_string(), vec![result_from("https://brave.com/0", "brave")]),
    ];
    let merged = merge_fanout(batches, 10);
    let backends: Vec<&str> = merged.iter().map(|r| r.backend.as_str()).collect();
    assert_eq!(backends, vec!["ddgs", "searxng", "brave"]);
}

#[test]
fn merge_fanout_follows_batch_order_not_arrival() {
    let batches = vec![
        (
            "slow".to_string(),
            vec![result("https://slow/1", "s", "slow"), result("https://slow/2", "s", "slow")],
        ),
        ("fast".to_string(), vec![result("https://fast/1", "f", "fast")]),
    ];
    let out = merge_fanout(batches, 10);
    let urls: Vec<&str> = out.iter().map(|r| r.url.as_str()).collect();
    assert_eq!(urls, vec!["https://slow/1", "https://fast/1", "https://slow/2"]);
}

#[test]
fn dedupe_keeps_first_on_equal_richness() {
    let items = vec![
        result("https://a.test/x", "same", "ddgs"),
        result("https://a.test/x#frag", "same", "searxng"),
    ];
    let merged = dedupe_results(items);
    assert_eq!(merged.len(), 1);
    assert_eq!(merged[0].backend, "ddgs");
}

#[test]
fn dedupe_twice_changes_nothing() {
    let items = vec![
        result("https://a.test/x", "one", "ddgs"),
        result("https://b.test/y", "two", "ddgs"),
        result("https://a.test/x/", "longer one", "searxng"),
        result("https://www.b.test/y", "t", "brave"),
    ];
    let once = dedupe_results(items);
    let twice = dedupe_results(once.clone());
    assert_eq!(once.len(), 2);
    let a: Vec<(&str, &str)> = once.iter().map(|r| (r.url.as_str(), r.snippet.as_str())).collect();
    let b: Vec<(&str, &str)> = twice.iter().map(|r| (r.url.as_str(), r.snippet.as_str())).collect();
    assert_eq!(a, b);
}

#[test]
fn interleave_skips_duplicate_keys_across_batches() {
    let batches = vec![
        vec![result("https://a/1", "", "x"), result("https://a/2", "", "x")],
        vec![result("https://a/1/", "", "y"), result("https://b/1", "", "y")],
    ];
    let out = interleave_batches(batches, 10);
    let urls: Vec<&str> = out.iter().map(|r| r.url.as_str()).collect();
    assert_eq!(urls, vec!["https://a/1", "https://b/1", "https://a/2"]);
}

#[test]
fn interleave_zero_max_gives_nothing() {
    let batches = vec![vec![result("https://a/1", "", "x")], vec![result("https://b/1", "", "y")]];
    assert!(interleave_batches(batches, 0).is_empty());
    assert!(interleave_batches(vec![], 5).is_empty());
}

#[test]
fn merge_fanout_drops_empty_backends_and_caps() {
    let batches = vec![
        ("a".to_string(), vec![result("https://a/1", "", "a"), result("https://a/2", "", "a")]),
        ("b".to_string(), vec![]),
        ("c".to_string(), vec![result("https://c/1", "", "c")]),
    ];
    let out = merge_fanout(batches, 2);
    let urls: Vec<&str> = out.iter().map(|r| r.url.as_str()).collect();
    assert_eq!(urls, vec!["https://a/1", "https://c/1"]);
}

#[test]
fn unparseable_url_key_is_trimmed_and_lowercased() {
    assert_eq!(normalize_url_key("Not A URL///"), "not a url");
}

use netrail::backends::{
    assemble_response, brave_key_from_env, empty_response, failed_response, get_enabled_backends,
    prepare_search, sovereignty_step, split_available, BackendKind, BackendOutcome,
};
use netrail::config::{BackendConfig, Settings};
use netrail::types::{SearchMode, SearchResult};

fn env(pairs: &[(&str, &str)]) -> Vec<(String, String)> {
    pairs.iter().map(|(k, v)| (k.to_string(), v.to_string())).collect()
}

fn names(ks: &[BackendKind]) -> Vec<&str> {
    ks.iter().map(|b| b.name()).collect()
}

fn result(url: &str, backend: &str) -> SearchResult {
    SearchResult {
        title: format!("Result from {backend}"),
        url: url.into(),
        snippet: "Test snippet".into(),
        image: None,
        source: String::new(),
        backend: backend.into(),
        provenance: backend.into(),
    }
}

#[test]
fn structured_empty_falls_back_to_legacy_ddgs() {
    let settings = Settings {
        backends: vec![BackendConfig {
            id: "searxng".into(),
            enabled: true,
            url: None,
            api_key_env: None,
        }],
        ddgs_enabled: true,
        ..Settings::default()
    };
    let enabled = get_enabled_backends(&settings, &vec![]);
    assert_eq!(names(&enabled), vec!["ddgs"]);
}

#[test]
fn brave_not_added_without_api_key() {
    let settings = Settings {
        backends: vec![BackendConfig {
            id: "brave".into(),
            enabled: true,
            url: None,
            api_key_env: Some("BRAVE_SEARCH_API_KEY".into()),
        }],
        ..Settings::default()
    };
    let enabled = get_enabled_backends(&settings, &vec![]);
    assert!(names(&enabled).iter().all(|n| *n != "brave"));
}

#[test]
fn brave_added_with_api_key() {
    let settings = Settings {
        backends: vec![BackendConfig {
            id: "brave".into(),
            enabled: true,
            url: None,
            api_key_env: Some("MY_BRAVE_KEY".into()),
        }],
        ..Settings::default()
    };
    let e = env(&[("MY_BRAVE_KEY", "k-123")]);
    let enabled = get_enabled_backends(&settings, &e);
    assert_eq!(names(&enabled), vec!["brave"]);
}

#[test]
fn structured_searxng_uses_global_url() {
    let settings = Settings {
        searxng_url: Some("http://sx.local".into()),
        backends: vec![
            BackendConfig { id: "searxng".into(), enabled: true, url: None, api_key_env: None },
            BackendConfig { id: "ddgs".into(), enabled: false, url: None, api_key_env: None },
        ],
        ..Settings::default()
    };
    let enabled = get_enabled_backends(&settings, &vec![]);
    assert_eq!(enabled.len(), 1);
    assert_eq!(enabled[0].provenance(), "SearXNG @ http://sx.local (your instance, your engines)");
}

#[test]
fn nothing_enabled_still_gives_ddgs() {
    let settings = Settings {
        backends: vec![],
        backend_order: vec!["brave".into()],
        ddgs_enabled: false,
        ..Settings::default()
    };
    let enabled = get_enabled_backends(&settings, &vec![]);
    assert_eq!(names(&enabled), vec!["ddgs"]);
}

#[test]
fn brave_key_fallbacks_and_blank() {
    assert_eq!(brave_key_from_env(&env(&[("NETRAIL_BRAVE_API_KEY", "x")]), None).as_deref(), Some("x"));
    assert_eq!(brave_key_from_env(&env(&[("BRAVE_SEARCH_API_KEY", "   ")]), None), None);
    assert_eq!(brave_key_from_env(&vec![], None), None);
    assert_eq!(
        brave_key_from_env(&env(&[("OTHER", "o"), ("BRAVE_SEARCH_API_KEY", "b")]), Some("OTHER")).as_deref(),
        Some("o")
    );
}

#[test]
fn backend_kind_name_parity_smoke() {
    assert_eq!(BackendKind::Ddgs.name(), "ddgs");
}

#[test]
fn sovereignty_steps() {
    let s = |v: &[&str]| sovereignty_step(&v.iter().map(|x| x.to_string()).collect::<Vec<_>>());
    assert_eq!(s(&["ddgs"]), 1);
    assert_eq!(s(&["none"]), 1);
    assert_eq!(s(&["ddgs", "wikipedia"]), 2);
    assert_eq!(s(&["ddgs", "searxng"]), 3);
    assert_eq!(s(&["brave"]), 3);
}

#[test]
fn prepare_search_trims_and_clamps() {
    let (q, m) = prepare_search("  rust  ", 0);
    assert_eq!(q, "rust");
    assert_eq!(m, 1);
    assert_eq!(prepare_search("x", 99).1, 50);
    assert_eq!(prepare_search("x", 7).1, 7);
}

#[test]
fn empty_query_response_is_bare() {
    let r = empty_response("", SearchMode::Web);
    assert!(r.results.is_empty());
    assert!(r.backends_used.is_empty());
    assert_eq!(r.sovereignty_step, 1);
    assert_eq!(r.search_strategy, "fanout");
}

#[test]
fn unavailable_backends_become_errors() {
    let enabled = vec![BackendKind::Ddgs, BackendKind::Searxng("http://x".into())];
    let (up, down) = split_available(&enabled, &vec![true, false]);
    assert_eq!(names(&up), vec!["ddgs"]);
    assert_eq!(down, vec!["searxng: unavailable".to_string()]);
    let none = failed_response("q", SearchMode::Web, "No backend available", down, "fanout");
    assert_eq!(none.backends_used, vec!["none".to_string()]);
    assert_eq!(none.provenance_chain, vec!["No backend available".to_string()]);
}

#[test]
fn fanout_partial_failure_merges_results_and_errors() {
    let outcomes = vec![
        BackendOutcome {
            name: "searxng".into(),
            provenance: "SearXNG @ a".into(),
            results: Ok(vec![result("https://www.rust-lang.org", "searxng")]),
        },
        BackendOutcome {
            name: "searxng".into(),
            provenance: "SearXNG @ b".into(),
            results: Err("searxng: HTTP 500".into()),
        },
    ];
    let r = assemble_response("rust", SearchMode::Web, 10, "fanout", vec![], outcomes);
    assert!(!r.results.is_empty());
    assert!(r.errors.iter().any(|e| e.contains("searxng")));
    assert_eq!(r.sovereignty_step, 3);
}

#[test]
fn empty_backend_consumes_no_interleave_slot() {
    // Two SearXNG instances: the first answers with no results, the second
    // with one; the fan-out's outcomes come in configured order.
    let outcomes = vec![
        BackendOutcome {
            name: "searxng".into(),
            provenance: "SearXNG @ http://empty (your instance, your engines)".into(),
            results: Ok(vec![]),
        },
        BackendOutcome {
            name: "searxng".into(),
            provenance: "SearXNG @ http://fast (your instance, your engines)".into(),
            results: Ok(vec![result("https://fast.example/1", "searxng")]),
        },
    ];
    let response = assemble_response("rust", SearchMode::Web, 10, "fanout", vec![], outcomes);
    assert_eq!(response.backends_used, vec!["searxng"]);
    assert_eq!(
        response.results.iter().map(|r| r.url.as_str()).collect::<Vec<_>>(),
        vec!["https://fast.example/1"]
    );
    assert!(
        response.errors.iter().any(|e| e.contains("returned no results")),
        "empty backend must be recorded: {:?}",
        response.errors
    );
}

#[test]
fn empty_batches_take_no_interleave_slot() {
    let outcomes = vec![
        BackendOutcome { name: "a".into(), provenance: "pa".into(), results: Ok(vec![]) },
        BackendOutcome {
            name: "b".into(),
            provenance: "pb".into(),
            results: Ok(vec![result("https://b/1", "b"), result("https://b/2", "b")]),
        },
        BackendOutcome {
            name: "c".into(),
            provenance: "pc".into(),
            results: Ok(vec![result("https://c/1", "c")]),
        },
    ];
    let r = assemble_response("q", SearchMode::Web, 10, "fanout", vec![], outcomes);
    let urls: Vec<&str> = r.results.iter().map(|x| x.url.as_str()).collect();
    assert_eq!(urls, vec!["https://b/1", "https://c/1", "https://b/2"]);
    assert_eq!(r.provenance_chain, vec!["pb".to_string(), "pc".to_string()]);
    assert_eq!(r.backends_used, vec!["b".to_string(), "c".to_string()]);
    assert_eq!(r.errors, vec!["a: returned no results".to_string()]);
}

#[test]
fn fallback_strategy_dedupes_and_cuts() {
    let outcomes = vec![
        BackendOutcome {
            name: "ddgs".into(),
            provenance: "p".into(),
            results: Ok(vec![result("https://a/1", "ddgs"), result("https://a/2", "ddgs")]),
        },
        BackendOutcome {
            name: "brave".into(),
            provenance: "q".into(),
            results: Ok(vec![result("https://a/1/", "brave"), result("https://a/3", "brave")]),
        },
    ];
    let r = assemble_response("q", SearchMode::Web, 2, "fallback", vec![], outcomes);
    let urls: Vec<&str> = r.results.iter().map(|x| x.url.as_str()).collect();
    // The Brave copy of the first URL has the longer title, so it is kept in
    // the first URL's place.
    assert_eq!(urls, vec!["https://a/1/", "https://a/2"]);
    assert_eq!(r.results[0].backend, "brave");
}

#[test]
fn no_results_reports_none_used() {
    let outcomes = vec![BackendOutcome {
        name: "ddgs".into(),
        provenance: "p".into(),
        results: Err("ddgs: boom".into()),
    }];
    let r = assemble_response("q", SearchMode::Images, 5, "fanout", vec!["x: unavailable".into()], outcomes);
    assert!(r.results.is_empty());
    assert_eq!(r.backends_used, vec!["none".to_string()]);
    assert_eq!(r.provenance_chain, vec!["No backend returned results".to_string()]);
    assert_eq!(r.errors, vec!["x: unavailable".to_string(), "ddgs: boom".to_string()]);
    assert_eq!(r.sovereignty_step, 1);
}

#[test]
fn supports_operators_lists_the_operators() {
    let ops = BackendKind::Ddgs.supports_operators();
    assert_eq!(ops, ["site:", "filetype:", "intitle:", "inurl:", "\"", "-"]);
}

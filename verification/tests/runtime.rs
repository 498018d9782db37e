use netrail::history::{backends_json, cipher_state, stored_backends};
use netrail::hits::{ddg_token_url, wikipedia_extracts_url, wikipedia_search_url};
use netrail::text::lowercase_str;
use netrail::audit::{audit_target, limit_from_env, rotation_limits, rotation_plan, AuditTarget, DEFAULT_MAX_BYTES, DEFAULT_MAX_FILES};
use netrail::auth::{check_if_match, settings_etag};
use netrail::backends::{fanout_deadline_secs, timeout_response, BackendOutcome};
use netrail::types::SearchResult;
use netrail::browsers::{command_program, spawn_failed, BrowserInfo};
use netrail::history::{cipher_mode, collection_not_found, encryption_degraded_message, export_format};
use netrail::instance::{
    attach_after_bind_failure, doc_view_script, menu_action, startup_action, HealthFingerprint, MenuAction,
    ProbeOutcome, StartupAction,
};
use netrail::types::SearchMode;

#[test]
fn rotation_moves_oldest_first_then_active() {
    assert_eq!(rotation_plan(20, 10, 3), vec![(2, 3), (1, 2), (0, 1)]);
    assert_eq!(rotation_plan(10, 10, 1), vec![(0, 1)]);
}

#[test]
fn rotation_skipped_below_limit_or_when_off() {
    assert!(rotation_plan(9, 10, 3).is_empty());
    assert!(rotation_plan(100, 0, 3).is_empty());
    assert!(rotation_plan(100, 10, 0).is_empty());
}

#[test]
fn rotation_limits_parse_or_default() {
    assert_eq!(rotation_limits(None, None), (DEFAULT_MAX_BYTES, DEFAULT_MAX_FILES));
    assert_eq!(rotation_limits(Some(" 2048 "), Some("5")), (2048, 5));
    assert_eq!(rotation_limits(Some("lots"), Some("99999999999")), (DEFAULT_MAX_BYTES, DEFAULT_MAX_FILES));
    assert_eq!(limit_from_env(Some("-1"), 7), 7);
    assert_eq!(limit_from_env(Some("0"), 7), 0);
}

#[test]
fn audit_target_prefers_explicit_path() {
    match audit_target(Some("  /tmp/audit.jsonl "), Some("0")) {
        AuditTarget::Path(p) => assert_eq!(p, "/tmp/audit.jsonl"),
        _ => panic!("expected a path"),
    }
    assert!(matches!(audit_target(Some("   "), Some("1")), AuditTarget::DefaultFile));
    assert!(matches!(audit_target(None, Some("FALSE")), AuditTarget::Off));
    assert!(matches!(audit_target(None, Some("0")), AuditTarget::Off));
    assert!(matches!(audit_target(None, Some("")), AuditTarget::Off));
    assert!(matches!(audit_target(None, None), AuditTarget::Off));
    assert!(matches!(audit_target(None, Some("yes")), AuditTarget::DefaultFile));
}

#[test]
fn startup_binds_attaches_or_refuses() {
    assert!(matches!(startup_action(&ProbeOutcome::Empty), StartupAction::Bind));
    let fp = HealthFingerprint { body_snippet: "{\"status\":\"ok\"}".to_string() };
    match startup_action(&ProbeOutcome::NetRail(fp)) {
        StartupAction::Attach(s) => assert_eq!(s, "{\"status\":\"ok\"}"),
        _ => panic!("expected attach"),
    }
    match startup_action(&ProbeOutcome::Foreign("HTTP 404".to_string())) {
        StartupAction::Refuse(m) => {
            assert!(m.starts_with("Port 7421 is occupied by a non-NetRail process (HTTP 404)."));
        }
        _ => panic!("expected refusal"),
    }
}

#[test]
fn reprobe_attaches_only_to_netrail() {
    let fp = HealthFingerprint { body_snippet: String::new() };
    assert!(attach_after_bind_failure(&ProbeOutcome::NetRail(fp)));
    assert!(!attach_after_bind_failure(&ProbeOutcome::Empty));
    assert!(!attach_after_bind_failure(&ProbeOutcome::Foreign("x".to_string())));
}

#[test]
fn menu_items_map_to_actions() {
    assert!(matches!(menu_action("show"), MenuAction::Show));
    assert!(matches!(menu_action("quit"), MenuAction::Quit));
    assert!(matches!(menu_action("doc-manual"), MenuAction::OpenDoc("manual")));
    assert!(matches!(menu_action("doc-about"), MenuAction::OpenDoc("about")));
    assert!(matches!(menu_action("donate"), MenuAction::Donate));
    assert!(matches!(menu_action("other"), MenuAction::Nothing));
    assert_eq!(doc_view_script("manual"), "window.netrailOpenDoc('manual')");
}

#[test]
fn timeout_response_reports_fanout_timeout() {
    let r = timeout_response("q", SearchMode::Web, 10, "fanout", vec!["brave: no key".to_string()], vec![]);
    assert!(r.results.is_empty());
    assert_eq!(r.backends_used, vec!["none".to_string()]);
    assert_eq!(r.provenance_chain, vec!["No backend returned results".to_string()]);
    assert_eq!(r.sovereignty_step, 1);
    assert_eq!(r.errors, vec!["fanout: timed out after 20 seconds".to_string(), "brave: no key".to_string()]);
    assert_eq!(r.query, "q");
    assert_eq!(r.search_strategy, "fanout");
}

#[test]
fn partial_results_kept_when_slow_backend_hangs() {
    // The fast instance finished before the deadline; the slow one did not.
    let fast = BackendOutcome {
        name: "searxng".to_string(),
        provenance: "SearXNG @ http://fast (your instance, your engines)".to_string(),
        results: Ok(vec![SearchResult {
            title: "Fast".to_string(),
            url: "https://fast.example/1".to_string(),
            snippet: String::new(),
            image: None,
            source: String::new(),
            backend: "searxng".to_string(),
            provenance: "SearXNG @ http://fast (your instance, your engines)".to_string(),
        }]),
    };
    let response = timeout_response("rust", SearchMode::Web, 10, "fanout", vec![], vec![fast]);
    assert!(!response.results.is_empty(), "fast backend partial results must be kept");
    assert!(response.errors.iter().any(|e| e.contains("timed out after 20 seconds")));
    assert_eq!(response.backends_used, vec!["searxng".to_string()]);
}

#[test]
fn fanout_deadline_from_environment() {
    assert_eq!(fanout_deadline_secs(Some("2")), 2);
    assert_eq!(fanout_deadline_secs(Some(" 7 ")), 7);
    assert_eq!(fanout_deadline_secs(Some("soon")), 20);
    assert_eq!(fanout_deadline_secs(None), 20);
}

#[test]
fn cipher_mode_and_export_format() {
    assert_eq!(cipher_mode(true, true), (true, false));
    assert_eq!(cipher_mode(true, false), (false, true));
    assert_eq!(cipher_mode(false, true), (false, false));
    assert_eq!(export_format("csv"), ("csv", "text/csv"));
    assert_eq!(export_format("xml"), ("json", "application/json"));
    assert!(!encryption_degraded_message().is_empty());
}

#[test]
fn missing_collection_error() {
    let e = collection_not_found(42);
    assert_eq!(e.error_code(), "COLLECTION_NOT_FOUND");
    assert_eq!(e.status_code(), 404);
    assert_eq!(e.detail_message(), "collection 42 not found");
    assert_eq!(collection_not_found(-7).detail_message(), "collection -7 not found");
}

#[test]
fn browser_command_and_spawn_error() {
    assert_eq!(command_program("  /usr/bin/firefox --new-window "), Some("/usr/bin/firefox".to_string()));
    assert_eq!(command_program("   "), None);
    let b = BrowserInfo {
        id: "firefox".to_string(),
        name: "Firefox".to_string(),
        executable: "/usr/bin/firefox".to_string(),
        supports_private: true,
    };
    let e = spawn_failed(&b, "not found");
    assert_eq!(e.error_code(), "BROWSER_SPAWN_FAILED");
    assert_eq!(e.detail_message(), "Internal error: Failed to launch browser /usr/bin/firefox (Firefox): not found");
}

#[test]
fn settings_etag_is_quoted_digest() {
    let a = settings_etag(b"{\"a\":1}");
    let b = settings_etag(b"{\"a\":2}");
    assert!(a.starts_with('"') && a.ends_with('"'));
    assert_eq!(a.len(), 46);
    assert_ne!(a, b);
    assert_eq!(a, settings_etag(b"{\"a\":1}"));
    // SHA-256 of the empty input, base64 encoded.
    assert_eq!(settings_etag(b""), "\"47DEQpj8HBSa+/TImW+5JCeuQeRkm5NMpJWZG3hSuFU=\"");
}

#[test]
fn if_match_must_name_current_version() {
    assert!(check_if_match(None, "\"x\"").is_ok());
    assert!(check_if_match(Some(" \"x\" "), "\"x\"").is_ok());
    let e = check_if_match(Some("\"y\""), "\"x\"").unwrap_err();
    assert_eq!(e.error_code(), "SETTINGS_CONFLICT");
    assert_eq!(e.status_code(), 409);
}

#[test]
fn query_urls_are_percent_encoded() {
    assert_eq!(ddg_token_url("https://duckduckgo.com", "rust & c"), "https://duckduckgo.com/?q=rust%20%26%20c");
    assert_eq!(
        wikipedia_search_url("rust lang", 5),
        "https://en.wikipedia.org/w/api.php?action=opensearch&profile=fuzzy&search=rust%20lang&limit=5&namespace=0&format=json"
    );
    assert_eq!(
        wikipedia_extracts_url(&vec!["Rust (language)".to_string(), "C".to_string()]),
        "https://en.wikipedia.org/w/api.php?action=query&format=json&prop=extracts&exintro=1&explaintext=1&exchars=400&redirects=1&titles=Rust%20%28language%29|C"
    );
}

#[test]
fn lowercasing_covers_unicode() {
    assert_eq!(lowercase_str("ÄBC Straße"), "äbc straße");
}

#[test]
fn refusals_carry_their_details() {
    let e = netrail::api::ensure_mutable(true).unwrap_err();
    assert_eq!(e.status_code(), 403);
    assert_eq!(e.detail_message(), "Read-only: Read-only mode: mutations are disabled (NETRAIL_READONLY=1).");
    assert!(netrail::api::ensure_mutable(false).is_ok());
    let mut limiter = netrail::rate_limit::RateLimiter::with_limits(1, 1, 1);
    assert!(limiter.check_search("a").is_ok());
    let e = limiter.check_search("a").unwrap_err();
    assert_eq!(e.status_code(), 429);
    assert_eq!(e.detail_message(), "Rate limited: Too many searches (max 90/minute). Wait a moment.");
    assert!(limiter.check_search("b").is_ok());
}

#[test]
fn fanout_answer_keeps_finished_outcomes() {
    let fast = BackendOutcome {
        name: "searxng".to_string(),
        provenance: "p".to_string(),
        results: Ok(vec![SearchResult {
            title: "Fast".to_string(),
            url: "https://fast.example/1".to_string(),
            snippet: String::new(),
            image: None,
            source: String::new(),
            backend: "searxng".to_string(),
            provenance: "p".to_string(),
        }]),
    };
    let r = netrail::backends::fanout_answer("rust", SearchMode::Web, 10, "fanout", vec![], vec![Some(fast), None]);
    assert_eq!(r.results.len(), 1);
    assert_eq!(r.errors, vec!["fanout: timed out after 20 seconds".to_string()]);
    let r2 = netrail::backends::fanout_answer("rust", SearchMode::Web, 10, "fanout", vec![], vec![]);
    assert!(r2.errors.is_empty());
}

#[test]
fn health_report_names() {
    assert_eq!(cipher_state(true, true), "encrypted");
    assert_eq!(cipher_state(true, false), "degraded");
    assert_eq!(cipher_state(false, true), "plaintext");
    assert_eq!(netrail::rate_limit::rate_limit_mode(Some("secret")), "per-token");
    assert_eq!(netrail::rate_limit::rate_limit_mode(Some("  ")), "process");
    assert_eq!(netrail::rate_limit::rate_limit_mode(None), "process");
    assert_eq!(netrail::hits::brave_count(50), 20);
    assert_eq!(netrail::hits::brave_count(7), 7);
    let j = backends_json(&vec!["ddgs".to_string(), "brave".to_string()]).unwrap();
    assert_eq!(j, r#"["ddgs","brave"]"#);
    assert_eq!(stored_backends(&j), vec!["ddgs".to_string(), "brave".to_string()]);
    assert!(stored_backends("not json").is_empty());
}

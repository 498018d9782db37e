use netrail::api::{
    ensure_mutable, fanout_failure, fts_query, history_disabled_error, history_limit,
    recovery_hints, rejection_error, search_mode, sovereignty_with_history,
    validate_collection_item, validate_collection_name, validate_search_request,
};
use netrail::backends::failed_response;
use netrail::config::Settings;
use netrail::types::SearchMode;

#[test]
fn search_empty_query_returns_query_invalid() {
    assert_eq!(validate_search_request("   ", 10).unwrap_err().error_code(), "QUERY_INVALID");
    assert_eq!(validate_search_request(&"x".repeat(501), 10).unwrap_err().error_code(), "QUERY_INVALID");
    assert_eq!(validate_search_request(" rust ", 10).unwrap(), "rust");
}

#[test]
fn search_out_of_range_max_results_returns_config_max_results() {
    assert_eq!(validate_search_request("rust", 0).unwrap_err().error_code(), "CONFIG_MAX_RESULTS");
    assert_eq!(validate_search_request("rust", 51).unwrap_err().error_code(), "CONFIG_MAX_RESULTS");
}

#[test]
fn empty_collection_name_returns_collection_name_invalid() {
    assert_eq!(validate_collection_name("  ").unwrap_err().error_code(), "COLLECTION_NAME_INVALID");
    assert_eq!(validate_collection_name(" Reading ").unwrap(), "Reading");
    assert!(validate_collection_item(" T ", Some(&"n".repeat(2001))).is_err());
    assert_eq!(validate_collection_item(" T ", None).unwrap(), "T");
}

#[test]
fn readonly_refuses_mutations() {
    let err = ensure_mutable(true).unwrap_err();
    assert_eq!(err.error_code(), "READONLY_MODE");
    assert_eq!(err.status_code(), 403);
    assert!(ensure_mutable(false).is_ok());
}

#[test]
fn history_disabled_returns_history_disabled() {
    assert_eq!(history_disabled_error().error_code(), "HISTORY_DISABLED");
    assert_eq!(history_limit(0), 1);
    assert_eq!(history_limit(500), 200);
}

#[test]
fn search_missing_field_returns_typed_query_invalid() {
    assert_eq!(
        rejection_error("Failed to deserialize the JSON body into the target type: missing field `query` at line 1 column 2").error_code(),
        "QUERY_INVALID"
    );
}

#[test]
fn open_missing_field_returns_typed_open_url_invalid() {
    let e = rejection_error("missing field `url` at line 1 column 20");
    assert_eq!(e.error_code(), "OPEN_URL_INVALID");
    assert_eq!(e.status_code(), 400);
}

#[test]
fn collection_missing_name_returns_typed_collection_name_invalid() {
    assert_eq!(rejection_error("missing field `name`").error_code(), "COLLECTION_NAME_INVALID");
}

#[test]
fn search_malformed_json_returns_typed_request_invalid() {
    let e = rejection_error("Failed to parse the request body as JSON: expected value");
    assert_eq!(e.error_code(), "REQUEST_INVALID");
    assert_eq!(rejection_error("invalid type: string, expected u32 for max_results").error_code(), "CONFIG_MAX_RESULTS");
}

#[test]
fn fts_query_quotes_words() {
    assert_eq!(fts_query("rust  lang"), "\"rust\" \"lang\"");
    assert_eq!(fts_query("c++ & \"go\""), "\"c\" \"go\"");
    assert_eq!(fts_query("!!!"), "\"\"");
    assert_eq!(fts_query("well-known"), "\"well-known\"");
}

#[test]
fn modes_and_failures() {
    assert_eq!(search_mode(" IMAGES "), SearchMode::Images);
    assert_eq!(search_mode("web"), SearchMode::Web);
    assert_eq!(search_mode("video"), SearchMode::Web);
    let r = failed_response("q", SearchMode::Web, "x", vec!["a: down".into(), "b: down".into()], "fanout");
    match fanout_failure(&r) {
        Some(e) => {
            assert_eq!(e.error_code(), "FANOUT_TOTAL_FAILURE");
            assert_eq!(e.detail_message(), "Fanout failed: a: down; b: down");
        }
        None => panic!("expected failure"),
    }
    let ok = failed_response("q", SearchMode::Web, "x", vec![], "fanout");
    assert!(fanout_failure(&ok).is_none());
}

#[test]
fn history_raises_sovereignty() {
    assert_eq!(sovereignty_with_history(1, true, Some(3)), 4);
    assert_eq!(sovereignty_with_history(5, true, Some(3)), 5);
    assert_eq!(sovereignty_with_history(1, false, Some(3)), 1);
    assert_eq!(sovereignty_with_history(2, true, Some(0)), 2);
}

#[test]
fn health_hints() {
    let s = Settings::default();
    assert_eq!(recovery_hints(&s, false).len(), 2);
    let s = Settings { searxng_url: Some("http://x".into()), brave_enabled: true, ..Settings::default() };
    assert!(recovery_hints(&s, true).is_empty());
}

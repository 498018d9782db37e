use netrail::error::{json_parse_error, network_error, NetRailError};
use netrail::types::{SearchMode, SearchResponse};
use netrail::url_resolve::{clean_result_title, resolve_result_url};

#[test]
fn unwraps_ddg_redirect() {
    let raw = "https://duckduckgo.com/l/?uddg=https%3A%2F%2Frust-lang.org%2F&rut=abc";
    assert_eq!(resolve_result_url(raw, 0), "https://rust-lang.org/");
}

#[test]
fn cleans_encoded_title() {
    let raw = "https://duckduckgo.com/l/?uddg=https%3A%2F%2Fexample.com%2Fdoc";
    let title = clean_result_title(raw, raw, Some("example.com › doc"));
    assert_eq!(title, "example.com › doc");
}

#[test]
fn unwraps_protocol_relative_ddg_redirect() {
    let raw = "//duckduckgo.com/l/?uddg=https%3A%2F%2Fexample.com%2F";
    assert_eq!(resolve_result_url(raw, 0), "https://example.com/");
}

#[test]
fn client_error_codes_map_to_400() {
    let err = NetRailError::InvalidQuery { code: "QUERY_INVALID", message: "bad".into() };
    assert_eq!(err.status_code(), 400);
    assert_eq!(err.error_code(), "QUERY_INVALID");
}

#[test]
fn not_found_maps_to_404() {
    let err = NetRailError::NotFound { code: "DOC_NOT_FOUND", entity: "x".into() };
    assert_eq!(err.status_code(), 404);
}

#[test]
fn fanout_failure_maps_to_502() {
    let err = NetRailError::FanoutFailure {
        code: "FANOUT_TOTAL_FAILURE",
        message: "all backends down".into(),
    };
    assert_eq!(err.status_code(), 502);
    assert_eq!(err.error_code(), "FANOUT_TOTAL_FAILURE");
}

#[test]
fn to_json_includes_code_detail_status() {
    let err = NetRailError::InvalidConfig {
        code: "CONFIG_MAX_RESULTS",
        message: "max_results must be between 1 and 50.".into(),
    };
    assert_eq!(err.error_code(), "CONFIG_MAX_RESULTS");
    assert_eq!(err.status_code(), 400);
    assert!(err.detail_message().contains("max_results"));
}

#[test]
fn json_parse_error_maps_to_parse_code() {
    let err = json_parse_error("expected value at line 1 column 1".into());
    assert_eq!(err.error_code(), "JSON_PARSE_ERROR");
    assert_eq!(err.status_code(), 500);
}

#[test]
fn network_errors_are_classified() {
    assert_eq!(network_error(true, false, "x".into()).error_code(), "NETWORK_TIMEOUT");
    assert_eq!(network_error(false, true, "x".into()).error_code(), "NETWORK_CONNECT");
    let e = network_error(false, false, "boom".into());
    assert_eq!(e.error_code(), "NETWORK_ERROR");
    assert_eq!(e.detail_message(), "Network error: boom");
}

#[test]
fn error_statuses_for_newer_variants() {
    assert_eq!(NetRailError::Unauthorized { code: "AUTH_REQUIRED", message: "m".into() }.status_code(), 401);
    assert_eq!(NetRailError::Readonly { code: "READONLY_MODE", message: "m".into() }.status_code(), 403);
    assert_eq!(NetRailError::Conflict { code: "SETTINGS_CONFLICT", message: "m".into() }.status_code(), 409);
    assert_eq!(NetRailError::RateLimited { code: "RATE_LIMITED", message: "m".into() }.status_code(), 429);
    assert_eq!(
        NetRailError::BackendHttp { code: "BRAVE_HTTP_ERROR", backend: "brave".into(), status: 429 }
            .detail_message(),
        "brave: HTTP 429"
    );
}

#[test]
fn search_mode_round_trip() {
    assert_eq!(SearchMode::from_str("images"), SearchMode::Images);
    assert_eq!(SearchMode::from_str("anything"), SearchMode::Web);
    assert_eq!(SearchMode::from_str(SearchMode::Images.as_str()), SearchMode::Images);
    assert_eq!(SearchMode::Web.as_str(), "web");
}

#[test]
fn sovereignty_labels() {
    assert_eq!(SearchResponse::sovereignty_label(3), "Self-hosted discovery (SearXNG)");
    assert_eq!(SearchResponse::sovereignty_label(1), "Local console — borrowed indexes");
    assert_eq!(SearchResponse::sovereignty_label(9), "Local console — borrowed indexes");
}

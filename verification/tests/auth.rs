use netrail::auth::{
    check_request_token, client_identity, csp_with_script_hash, headless_token_gate,
    inject_token_script, inject_ui_token, path_requires_token, token_required, token_script_parts,
};
use netrail::security::CSP;

#[test]
fn path_health_exempt() {
    assert!(!path_requires_token(None, "/api/health"));
    assert!(!path_requires_token(None, "/api/search"));
}

#[test]
fn paths_need_token_when_configured() {
    let tok = Some("secret");
    assert!(!path_requires_token(tok, "/api/health"));
    assert!(path_requires_token(tok, "/api/search"));
    assert!(!path_requires_token(tok, "/index.html"));
    assert!(!path_requires_token(Some("   "), "/api/search"));
}

#[test]
fn accepts_bearer_when_token_set() {
    let env = Some("secret-test-token");
    assert!(check_request_token(env, Some("Bearer secret-test-token"), None).is_ok());
    assert!(check_request_token(env, None, Some("secret-test-token")).is_ok());
    assert!(check_request_token(env, Some("Bearer wrong"), None).is_err());
}

#[test]
fn refusal_is_auth_required_401() {
    let err = check_request_token(Some("t"), None, None).unwrap_err();
    assert_eq!(err.error_code(), "AUTH_REQUIRED");
    assert_eq!(err.status_code(), 401);
    assert!(check_request_token(None, None, None).is_ok());
    assert!(check_request_token(Some("t"), Some("  bearer t  "), None).is_ok());
}

#[test]
fn token_required_only_for_non_blank_token() {
    assert!(token_required(Some("x")));
    assert!(!token_required(Some("  ")));
    assert!(!token_required(None));
}

#[test]
fn headless_gate_missing_exits_1() {
    assert_eq!(headless_token_gate(None), Err(1));
}

#[test]
fn headless_gate_explicit_empty_warns_but_runs() {
    assert_eq!(headless_token_gate(Some("")), Ok(()));
    assert_eq!(headless_token_gate(Some("   ")), Ok(()));
}

#[test]
fn headless_gate_configured_runs() {
    assert_eq!(headless_token_gate(Some("headless-secret")), Ok(()));
}

#[test]
fn identity_is_token_digest_or_anonymous() {
    assert_eq!(client_identity(None, Some("Bearer abc"), None), "anonymous");
    let id = client_identity(Some("t"), Some("Bearer abc"), None);
    assert!(id.starts_with("token:"));
    assert!(!id.contains("abc"));
    assert_eq!(id, client_identity(Some("t"), None, Some(" abc ")));
    assert_ne!(id, client_identity(Some("t"), None, Some("abd")));
    assert_eq!(client_identity(Some("t"), Some("Bearer    "), Some("abc")), id);
    assert_eq!(client_identity(Some("t"), Some("Basic zzz"), None), "anonymous");
    assert_eq!(
        client_identity(Some("t"), None, Some("abc")),
        "token:ungWv48Bz+pBQUDeXa4iI7ADYaOWF3qctBD/YfIAFa0="
    );
}

#[test]
fn csp_hash_matches_injected_script_content() {
    let (snippet, hash) = token_script_parts("tok-42\"quote\\back");
    let content = snippet
        .strip_prefix("<script>")
        .and_then(|s| s.strip_suffix("</script>"))
        .expect("script wrapper");
    assert_eq!(content, "window.NETRAIL_API_TOKEN=\"tok-42\\\"quote\\\\back\";");
    let (_, again) = token_script_parts("tok-42\"quote\\back");
    assert_eq!(hash, again);
    assert!(hash.starts_with("'sha256-") && hash.ends_with("='"));
}

#[test]
fn csp_with_script_hash_keeps_other_directives() {
    let csp = csp_with_script_hash("'sha256-abc'");
    assert!(csp.contains("script-src 'self' 'sha256-abc'"));
    assert!(csp.contains("img-src 'self' https: data:"));
    assert!(csp.contains("connect-src 'self'"));
    assert!(!csp.contains("script-src 'self' 'unsafe-inline'"));
    assert!(CSP.contains("script-src 'self'"));
}

#[test]
fn no_token_means_no_injection() {
    let (html, hash) = inject_token_script("<!DOCTYPE html><head></head><body></body>", None, None);
    assert_eq!(html, "<!DOCTYPE html><head></head><body></body>");
    assert!(hash.is_none());
}

#[test]
fn token_injected_before_head_end() {
    let (html, hash) = inject_token_script("<head></head><body></body>", Some("tk"), None);
    assert_eq!(
        html,
        "<head><script>window.NETRAIL_API_TOKEN=\"tk\";</script></head><body></body>"
    );
    assert!(hash.is_some());
    let (html2, _) = inject_token_script("<p>x</p>", Some("tk"), None);
    assert!(html2.starts_with("<script>"));
    let (html3, hash3) = inject_token_script("<head></head>", Some("tk"), Some("FALSE"));
    assert_eq!(html3, "<head></head>");
    assert!(hash3.is_none());
}

#[test]
fn inject_switch() {
    assert!(inject_ui_token(Some("t"), None));
    assert!(!inject_ui_token(Some("t"), Some("0")));
    assert!(!inject_ui_token(Some("t"), Some("False")));
    assert!(inject_ui_token(Some("t"), Some("1")));
    assert!(!inject_ui_token(None, Some("1")));
}

use netrail::instance::{classify_probe_reply, is_netrail_body, ProbeOutcome};
use netrail::rate_limit::{rate_limit_enabled, RateLimiter, WindowCounter};
use std::time::Instant;

#[test]
fn allows_under_limit() {
    let mut c = WindowCounter { window_start: Instant::now(), count: 0 };
    assert!(c.try_acquire(3));
    assert!(c.try_acquire(3));
    assert!(c.try_acquire(3));
    assert!(!c.try_acquire(3));
}

#[test]
fn zero_limit_disables() {
    let mut c = WindowCounter { window_start: Instant::now(), count: 0 };
    for _ in 0..20 {
        assert!(c.try_acquire(0));
    }
}

#[test]
fn expired_window_restarts() {
    let start = Instant::now();
    let mut c = WindowCounter { window_start: start, count: 5 };
    assert!(!c.acquire_at(5, Instant::now(), false));
    assert_eq!(c.count, 5);
    let now = Instant::now();
    assert!(c.acquire_at(5, now, true));
    assert_eq!(c.count, 1);
    assert_eq!(c.window_start, now);
}

#[test]
fn buckets_are_keyed_by_identity() {
    let mut limiter = RateLimiter::with_limits(2, 0, 0);
    assert!(limiter.check_search("alice").is_ok());
    assert!(limiter.check_search("alice").is_ok());
    assert!(limiter.check_search("alice").is_err());
    assert!(limiter.check_search("bob").is_ok());
    assert!(limiter.check_open("alice").is_ok());
}

#[test]
fn rate_limited_is_429() {
    let mut limiter = RateLimiter::with_limits(0, 0, 1);
    assert!(limiter.check_mutate("x").is_ok());
    let err = limiter.check_mutate("x").unwrap_err();
    assert_eq!(err.error_code(), "RATE_LIMITED");
    assert_eq!(err.status_code(), 429);
}

#[test]
fn rate_limit_switch() {
    assert!(rate_limit_enabled(None));
    assert!(!rate_limit_enabled(Some("0")));
    assert!(!rate_limit_enabled(Some("FaLsE")));
    assert!(rate_limit_enabled(Some("1")));
    let off = RateLimiter::from_env(Some("0"));
    assert_eq!(off.search_limit, 0);
    let on = RateLimiter::from_env(None);
    assert_eq!((on.search_limit, on.open_limit, on.mutate_limit), (90, 120, 60));
}

#[test]
fn fingerprint_requires_all_three_keys() {
    assert!(is_netrail_body(r#"{"status":"ok","version":"1.6.6","api_contract":"1.4"}"#));
    assert!(!is_netrail_body(r#"{"status":"ok","version":"1.6.6"}"#));
    assert!(!is_netrail_body(r#"{"status":"ok"}"#));
    assert!(!is_netrail_body("<html>hello</html>"));
}

#[test]
fn fingerprint_ignores_whitespace() {
    assert!(is_netrail_body("{ \"status\" : \"ok\",\n \"version\": 1, \"api_contract\": 2 }"));
}

#[test]
fn stub_netrail_body_classifies_attach() {
    let body = r#"{"status":"ok","version":"1.6.6","api_contract":"1.4"}"#;
    let reply = format!("HTTP/1.0 200 OK\r\nContent-Length: {}\r\n\r\n{body}", body.len());
    match classify_probe_reply(&reply) {
        ProbeOutcome::NetRail(f) => assert_eq!(f.body_snippet, body),
        other => panic!("expected attach, got {other:?}"),
    }
}

#[test]
fn stub_foreign_body_classifies_abort() {
    let reply = "HTTP/1.0 200 OK\r\nContent-Length: 22\r\n\r\n<html>other app</html>";
    assert!(matches!(classify_probe_reply(reply), ProbeOutcome::Foreign(_)));
}

#[test]
fn non_200_and_silence() {
    match classify_probe_reply("HTTP/1.1 404 Not Found\r\nX: y\r\n\r\n{}") {
        ProbeOutcome::Foreign(m) => assert_eq!(m, "non-200 from :7421 (HTTP/1.1 404 Not Found)"),
        other => panic!("{other:?}"),
    }
    assert!(matches!(classify_probe_reply(""), ProbeOutcome::Empty));
    match classify_probe_reply("garbage") {
        ProbeOutcome::Foreign(m) => assert_eq!(m, "non-200 from :7421 (?)"),
        other => panic!("{other:?}"),
    }
}

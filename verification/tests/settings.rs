use netrail::config::{apply_env_overrides, default_backends, parse_bool, validate_settings, BackendConfig, Settings};

fn env(pairs: &[(&str, &str)]) -> Vec<(String, String)> {
    pairs.iter().map(|(k, v)| (k.to_string(), v.to_string())).collect()
}

#[test]
fn defaults_are_valid() {
    let s = Settings::default();
    assert_eq!(s.max_results, 25);
    assert_eq!(s.backend_order, vec!["searxng", "ddgs", "brave"]);
    assert_eq!(s.search_strategy, "fanout");
    assert_eq!(s.history_ttl_days, 90);
    assert!(validate_settings(&s).is_ok());
    let b = default_backends();
    assert_eq!(b.len(), 3);
    assert!(!b[2].enabled);
    assert_eq!(b[2].api_key_env.as_deref(), Some("BRAVE_SEARCH_API_KEY"));
}

#[test]
fn invalid_settings_returns_config_max_results() {
    let s = Settings { max_results: 0, ..Settings::default() };
    assert_eq!(validate_settings(&s).unwrap_err().error_code(), "CONFIG_MAX_RESULTS");
    let s = Settings { max_results: 51, ..Settings::default() };
    assert_eq!(validate_settings(&s).unwrap_err().error_code(), "CONFIG_MAX_RESULTS");
}

#[test]
fn other_checks() {
    let s = Settings { history_ttl_days: 3651, ..Settings::default() };
    assert_eq!(validate_settings(&s).unwrap_err().error_code(), "CONFIG_HISTORY_TTL");
    let s = Settings { search_strategy: "random".into(), ..Settings::default() };
    assert_eq!(validate_settings(&s).unwrap_err().error_code(), "CONFIG_SEARCH_STRATEGY");
    let s = Settings { searxng_url: Some("http://169.254.169.254/".into()), ..Settings::default() };
    assert_eq!(validate_settings(&s).unwrap_err().error_code(), "BACKEND_URL_CLOUD_METADATA");
    let s = Settings {
        backends: vec![BackendConfig {
            id: "searxng".into(),
            enabled: true,
            url: Some("ftp://x/".into()),
            api_key_env: None,
        }],
        ..Settings::default()
    };
    assert!(validate_settings(&s).is_err());
}

#[test]
fn bool_texts() {
    for v in ["1", "true", "YES", "On"] {
        assert!(parse_bool(v), "{v}");
    }
    for v in ["0", "no", "", "enabled"] {
        assert!(!parse_bool(v), "{v}");
    }
}

#[test]
fn env_overrides_apply() {
    let mut s = Settings::default();
    apply_env_overrides(
        &mut s,
        &env(&[
            ("NETRAIL_SEARXNG_URL", "http://sx.local"),
            ("BRAVE_SEARCH_API_KEY", "k"),
            ("NETRAIL_SEARCH_STRATEGY", "FALLBACK"),
            ("NETRAIL_HISTORY_ENABLED", "0"),
            ("NETRAIL_HISTORY_TTL_DAYS", "30"),
            ("NETRAIL_MAX_RESULTS", "not-a-number"),
        ]),
    );
    assert_eq!(s.searxng_url.as_deref(), Some("http://sx.local"));
    assert!(s.brave_enabled);
    assert!(s.backends.iter().find(|b| b.id == "brave").unwrap().enabled);
    assert_eq!(s.backend_order.iter().filter(|b| *b == "brave").count(), 1);
    assert_eq!(s.search_strategy, "fallback");
    assert!(!s.history_enabled);
    assert_eq!(s.history_ttl_days, 30);
    assert_eq!(s.max_results, 25);
}

#[test]
fn brave_key_adds_brave_to_order_once() {
    let mut s = Settings { backend_order: vec!["ddgs".into()], ..Settings::default() };
    apply_env_overrides(&mut s, &env(&[("NETRAIL_BRAVE_API_KEY", "")]));
    assert_eq!(s.backend_order, vec!["ddgs", "brave"]);
    apply_env_overrides(&mut s, &env(&[("NETRAIL_BRAVE_API_KEY", "")]));
    assert_eq!(s.backend_order, vec!["ddgs", "brave"]);
}

#[test]
fn empty_searxng_override_ignored() {
    let mut s = Settings::default();
    apply_env_overrides(&mut s, &env(&[("NETRAIL_SEARXNG_URL", ""), ("SEARXNG_URL", "http://b")]));
    assert_eq!(s.searxng_url, None);
    apply_env_overrides(&mut s, &env(&[("SEARXNG_URL", "http://b")]));
    assert_eq!(s.searxng_url.as_deref(), Some("http://b"));
}

#[test]
fn env_overrides_applied_twice_read_back_the_same() {
    let env = vec![
        ("BRAVE_SEARCH_API_KEY".to_string(), "k".to_string()),
        ("NETRAIL_SEARCH_STRATEGY".to_string(), "Fallback".to_string()),
        ("NETRAIL_MAX_RESULTS".to_string(), "30".to_string()),
    ];
    let mut once = Settings { backend_order: vec!["ddgs".to_string()], ..Settings::default() };
    apply_env_overrides(&mut once, &env);
    let mut twice = once.clone();
    apply_env_overrides(&mut twice, &env);
    assert_eq!(once.backend_order, vec!["ddgs".to_string(), "brave".to_string()]);
    assert_eq!(twice.backend_order, once.backend_order);
    assert_eq!(twice.search_strategy, "fallback");
    assert_eq!(twice.max_results, 30);
    assert!(twice.brave_enabled);
    assert!(twice.backends.iter().filter(|b| b.id == "brave").all(|b| b.enabled));
}

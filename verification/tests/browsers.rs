use netrail::browsers::{
    assemble_browsers, dry_run_enabled, dry_run_result, find_browser, known_browsers,
    launch_args, opened_result, parse_desktop, private_flag_for, BrowserInfo,
};

fn browser_desktop_lines(extra: &[&str]) -> String {
    let mut lines: Vec<&str> = vec![
        "[Desktop Entry]",
        "Type=Application",
        "Name=Test Browser",
        "Exec=test-browser %U",
        "MimeType=x-scheme-handler/http;",
    ];
    lines.extend_from_slice(extra);
    lines.join("\n")
}

#[test]
fn parse_desktop_scopes_name_to_entry_section() {
    let content = [
        "[Desktop Entry]",
        "Type=Application",
        "Name=Test Browser",
        "Exec=test-browser %U",
        "MimeType=x-scheme-handler/http;",
        "",
        "[Desktop Action new-window]",
        "Name=New Window",
    ]
    .join("\n");
    let (name, exec) = parse_desktop("test-browser", &content).expect("parses");
    assert_eq!(name, "Test Browser", "action section Name leaked into entry");
    assert_eq!(exec, "test-browser");
}

#[test]
fn parse_desktop_ignores_localized_name_variant() {
    let content = browser_desktop_lines(&["Name[de]=Lokaler Browser"]);
    let (name, _) = parse_desktop("test-browser", &content).expect("parses");
    assert_eq!(name, "Test Browser", "localized Name[xx]= must not override Name");
}

#[test]
fn parse_desktop_requires_exact_application_type() {
    for bad in ["Application2", "X-Application", "application"] {
        let line = format!("Type={bad}");
        let content = browser_desktop_lines(&[&line]);
        assert!(parse_desktop("test-browser", &content).is_none(), "Type={bad} must be rejected");
    }
}

#[test]
fn parse_desktop_nodisplay_only_rejected_inside_entry() {
    let inside = browser_desktop_lines(&["NoDisplay=true"]);
    assert!(parse_desktop("test-browser", &inside).is_none());
    let outside = browser_desktop_lines(&["", "[Desktop Action foo]", "NoDisplay=true"]);
    assert!(parse_desktop("test-browser", &outside).is_some(), "NoDisplay outside [Desktop Entry] must be ignored");
}

#[test]
fn parse_desktop_requires_entry_section_header() {
    let content = ["Type=Application", "Name=No Section", "Exec=test-browser", "Categories=Network;"].join("\n");
    assert!(parse_desktop("test-browser", &content).is_none());
}

#[test]
fn parse_desktop_truncates_exec_at_percent() {
    let content = browser_desktop_lines(&["Exec=env FOO=1 test-browser --profile %u %U"]);
    let (_, exec) = parse_desktop("test-browser", &content).expect("parses");
    assert_eq!(exec, "env FOO=1 test-browser --profile");
}

#[test]
fn parse_desktop_needs_browser_claim_and_uses_stem_name() {
    let content = ["[Desktop Entry]", "Type=Application", "Exec=editor", "Categories=Utility;"].join("\n");
    assert!(parse_desktop("editor", &content).is_none());
    let content = ["[Desktop Entry]", "Exec=web %u", "Categories=Network;WebBrowser;"].join("\r\n");
    assert_eq!(parse_desktop("web-app", &content), Some(("web-app".to_string(), "web".to_string())));
}

#[test]
fn known_table_has_the_browsers() {
    let known = known_browsers();
    assert_eq!(known.len(), 13);
    assert_eq!(known[0], ("firefox", "Firefox", Some("--private-window")));
    assert_eq!(known[7], ("microsoft-edge", "Microsoft Edge", Some("--inprivate")));
}

#[test]
fn unknown_browser_gets_no_fabricated_private_flag() {
    let found = assemble_browsers(
        &vec![("Unknown Co.".to_string(), "/tmp/bin/unknown-browser-bin".to_string())],
        &vec![],
    );
    let unknown = found.iter().find(|b| b.id == "unknown-browser-bin").expect("discovered");
    assert_eq!(unknown.name, "Unknown Co.");
    assert!(!unknown.supports_private);
    assert!(private_flag_for(&unknown.id).is_none());
    assert_eq!(private_flag_for("opera"), Some("--private"));
}

#[test]
fn assembled_list_dedupes_and_sorts() {
    let mut known: Vec<Option<String>> = vec![None; 13];
    known[0] = Some("/usr/bin/firefox".into());
    known[4] = Some("/usr/bin/chromium".into());
    let found = assemble_browsers(
        &vec![
            ("Mozilla Firefox".to_string(), "/usr/bin/firefox".to_string()),
            ("zeta".to_string(), "/opt/zeta/zeta".to_string()),
        ],
        &known,
    );
    let names: Vec<&str> = found.iter().map(|b| b.name.as_str()).collect();
    assert_eq!(names, vec!["Chromium", "Firefox", "zeta"]);
    assert!(found[1].supports_private);
}

fn info(id: &str, name: &str, private: bool) -> BrowserInfo {
    BrowserInfo {
        id: id.into(),
        name: name.into(),
        executable: format!("/usr/bin/{id}"),
        supports_private: private,
    }
}

#[test]
fn find_browser_prefers_requested_id() {
    let list = vec![info("chromium", "Chromium", true), info("firefox", "Firefox", true)];
    assert_eq!(find_browser(&list, Some("firefox")).unwrap().id, "firefox");
    assert_eq!(find_browser(&list, Some("nope")).unwrap().id, "chromium");
    assert_eq!(find_browser(&list, None).unwrap().id, "chromium");
    assert!(find_browser(&vec![], Some("firefox")).is_none());
}

#[test]
fn dry_run_env_parsing() {
    for (value, expected) in [
        ("1", true),
        ("true", true),
        ("yes", true),
        ("0", false),
        ("false", false),
        ("FALSE", false),
        ("", false),
    ] {
        assert_eq!(dry_run_enabled(Some(value)), expected, "NETRAIL_NO_OPEN={value}");
    }
    assert!(!dry_run_enabled(None));
}

#[test]
fn netrail_no_open_returns_dry_run_without_discovery() {
    let result = dry_run_result("https://example.com/", true);
    assert_eq!(result.browser, "dry-run");
    assert_eq!(result.executable, "dry-run");
    assert_eq!(result.mode, "private");
    assert_eq!(result.url, "https://example.com/");
}

#[test]
fn launch_and_result() {
    assert_eq!(launch_args("firefox", true, "https://x/"), vec!["--private-window", "https://x/"]);
    assert_eq!(launch_args("firefox", false, "https://x/"), vec!["https://x/"]);
    assert_eq!(launch_args("mystery", true, "https://x/"), vec!["https://x/"]);
    let b = info("firefox", "Firefox", true);
    let r = opened_result(&b, true, "https://x/", false);
    assert_eq!(r.mode, "private");
    assert_eq!(r.sandbox, "native");
    let r = opened_result(&info("x", "X", false), true, "https://x/", true);
    assert_eq!(r.mode, "normal");
    assert_eq!(r.sandbox, "flatpak-host");
}

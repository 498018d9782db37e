use netrail::crypto::{decrypt_text, encrypt_text, open_field, DECRYPTION_FAILED_MARKER};
use netrail::docs::{doc_title, is_plain_file_name, media_type, rewrite_asset_paths};
use netrail::history::{collection_csv, csv_escape, normalize_url, sql_placeholders, ttl_offset, CollectionItem};

const KEY: &str = "cw_0x689RpI-jtRR7oE8h_eQsKImvJapLeSbXpwF4e4=";
const OTHER_KEY: &str = "7UgQGfuuBQ1bK0ffk7QqxG9Bx0jN3wDKBMBtTbpN2GY=";

#[test]
fn roundtrip_matches_python_fernet_format() {
    let encrypted = encrypt_text("battery regulations EU", true, Some(KEY));
    let token = String::from_utf8_lossy(&encrypted);
    assert!(token.starts_with("gAAAAA"));
    let decrypted = decrypt_text(&encrypted, true, Some(KEY));
    assert_eq!(decrypted, "battery regulations EU");
}

#[test]
fn wrong_key_surfaces_marker_not_garbage() {
    let encrypted = encrypt_text("battery regulations EU", true, Some(KEY));
    assert_eq!(decrypt_text(&encrypted, true, Some(OTHER_KEY)), DECRYPTION_FAILED_MARKER);
}

#[test]
fn missing_key_surfaces_marker() {
    let encrypted = encrypt_text("battery regulations EU", true, Some(KEY));
    assert_eq!(decrypt_text(&encrypted, true, None), DECRYPTION_FAILED_MARKER);
}

#[test]
fn corrupt_token_surfaces_marker() {
    assert_eq!(decrypt_text(b"gAAAAAnot-a-valid-token", true, Some(KEY)), DECRYPTION_FAILED_MARKER);
}

#[test]
fn legacy_plaintext_passes_through() {
    assert_eq!(decrypt_text(b"pre-encryption era row", true, Some(KEY)), "pre-encryption era row");
}

#[test]
fn empty_and_plaintext_mode() {
    assert_eq!(decrypt_text(b"", true, Some(KEY)), "");
    let encrypted = encrypt_text("battery regulations EU", true, Some(KEY));
    assert_eq!(decrypt_text(&encrypted, false, Some(KEY)), DECRYPTION_FAILED_MARKER);
}

#[test]
fn no_encryption_stores_plain_bytes() {
    assert_eq!(encrypt_text("abc", false, Some(KEY)), b"abc".to_vec());
    assert_eq!(encrypt_text("", true, Some(KEY)), Vec::<u8>::new());
    assert_eq!(encrypt_text("abc", true, None), b"abc".to_vec());
    assert_eq!(encrypt_text("abc", true, Some("not-a-key")), b"abc".to_vec());
}

#[test]
fn history_url_norm() {
    assert_eq!(normalize_url("  HTTPS://Example.com/Path//  "), "https://example.com/path");
}

#[test]
fn csv_fields_are_quoted_when_needed() {
    assert_eq!(csv_escape("plain"), "plain");
    assert_eq!(csv_escape("a,b"), "\"a,b\"");
    assert_eq!(csv_escape("say \"hi\""), "\"say \"\"hi\"\"\"");
    assert_eq!(csv_escape("two\nlines"), "\"two\nlines\"");
}

#[test]
fn collection_export_csv() {
    let items = vec![
        CollectionItem {
            url: "https://a/".into(),
            title: "A, the first".into(),
            notes: None,
            saved_at: "2024-01-01".into(),
        },
        CollectionItem {
            url: "https://b/".into(),
            title: "B".into(),
            notes: Some("n".into()),
            saved_at: "2024-01-02".into(),
        },
    ];
    assert_eq!(
        collection_csv(&items),
        "url,title,notes,saved_at\nhttps://a/,\"A, the first\",,2024-01-01\nhttps://b/,B,n,2024-01-02\n"
    );
}

#[test]
fn purge_offset_and_placeholders() {
    assert_eq!(ttl_offset(0), None);
    assert_eq!(ttl_offset(90).as_deref(), Some("-90 days"));
    assert_eq!(sql_placeholders(0), "");
    assert_eq!(sql_placeholders(3), "?,?,?");
}

#[test]
fn docs_helpers() {
    assert_eq!(doc_title("manual").unwrap(), "User Manual");
    assert_eq!(doc_title("about").unwrap(), "About NetRail");
    assert_eq!(doc_title("x").unwrap_err(), "Unknown document.");
    assert_eq!(
        rewrite_asset_paths("![a](docs/assets/x.png) ![b](docs/assets\\y.png)"),
        "![a](/static/docs/assets/x.png) ![b](/static/docs/assets/y.png)"
    );
    assert!(is_plain_file_name("shot.png"));
    assert!(!is_plain_file_name("../etc/passwd"));
    assert!(!is_plain_file_name("a/b.png"));
    assert!(!is_plain_file_name("a\\b.png"));
    assert_eq!(media_type("x.jpeg"), "image/jpeg");
    assert_eq!(media_type("x.tar.png"), "image/png");
    assert_eq!(media_type("README"), "application/octet-stream");
}

#[test]
fn opened_field_gives_text_or_marker() {
    assert_eq!(open_field(Some(b"battery".to_vec())), "battery");
    assert_eq!(open_field(None), DECRYPTION_FAILED_MARKER);
    assert_eq!(open_field(Some(vec![0x66, 0xff])), "f\u{fffd}");
}

#[test]
fn encrypted_field_is_a_token_that_reads_back() {
    let e = encrypt_text("python tutorial", true, Some(KEY));
    assert!(String::from_utf8_lossy(&e).starts_with("gAAAAA"));
    assert_ne!(e, b"python tutorial".to_vec());
    assert_eq!(decrypt_text(&e, true, Some(KEY)), "python tutorial");
    assert_eq!(encrypt_text("python tutorial", true, Some("not a key")), b"python tutorial".to_vec());
}

use netrail::hits::{
    check_ddg_page, ddg_images_url, ddg_text_form, extract_vqd_token, is_ddg_bot_challenge,
    normalize_extract, parse_text_html, results_from_hits, vqd_or_error, wikipedia_results,
    wikipedia_rows, Field, HitStyle, RawHit, WikiRow,
};
use netrail::hits::{brave_hits, ddg_image_hits, searxng_hits};
use netrail::types::SearchMode;

const DDG_TEXT_HTML: &str = r#"<!DOCTYPE html><html><body>
<div class="result">
  <a class="result__a" href="https://rust-lang.org/">Rust Programming Language</a>
  <span class="result__snippet">A systems programming language.</span>
</div>
<div class="result">
  <a class="result__a" href="https://example.com/empty-snippet">Untitled Page</a>
</div>
<div class="result"><span class="no-link">no anchor here</span></div>
</body></html>"#;

fn t(s: &str) -> Field {
    Field::Text(s.to_string())
}

fn hit(url: Field, title: Field, text: Field) -> RawHit {
    RawHit {
        url,
        url_alt: Field::Absent,
        title,
        text,
        source: Field::Absent,
        thumb: Field::Absent,
        thumb_alt: Field::Absent,
    }
}

#[test]
fn detects_ddg_bot_challenge_page() {
    let html = r#"<div class="anomaly-modal__title">Unfortunately, bots use DuckDuckGo too.</div>"#;
    assert!(is_ddg_bot_challenge(html));
}

#[test]
fn normal_result_html_is_not_challenge() {
    let html = r#"<div class="result"><a class="result__a" href="https://example.com">Example</a></div>"#;
    assert!(!is_ddg_bot_challenge(html));
}

#[test]
fn parse_skips_blocks_without_links_and_empty_hrefs() {
    let html = r#"<div class="result"><span>no anchor</span></div>
        <div class="result"><a class="result__a" href="">empty</a></div>
        <div class="result"><a class="result__a" href="https://kept.test/">Kept</a></div>"#;
    let results = parse_text_html(html, 10).unwrap();
    assert_eq!(results.len(), 1);
    assert_eq!(results[0].url, "https://kept.test/");
}

#[test]
fn parse_respects_max_results() {
    let html = (0..5)
        .map(|i| {
            format!(
                r#"<div class="result"><a class="result__a" href="https://a.test/{i}">T{i}</a></div>"#
            )
        })
        .collect::<String>();
    let results = parse_text_html(&html, 3).unwrap();
    assert_eq!(results.len(), 3);
}

#[test]
fn parse_empty_title_falls_back_to_url() {
    let html = r#"<div class="result"><a class="result__a" href="https://bare.test/doc"></a></div>"#;
    let results = parse_text_html(html, 10).unwrap();
    assert_eq!(results.len(), 1);
    assert_eq!(results[0].title, "bare.test/doc");
    assert_eq!(results[0].url, "https://bare.test/doc");
}

#[test]
fn vqd_extraction_supports_quoted_variants() {
    assert_eq!(extract_vqd_token("<html>vqd=abc123&more</html>").as_deref(), Some("abc123"));
    assert_eq!(extract_vqd_token("x vqd='q1' y").as_deref(), Some("q1"));
    assert_eq!(extract_vqd_token("x vqd=\"q2\" y").as_deref(), Some("q2"));
}

#[test]
fn vqd_extraction_rejects_empty_token() {
    assert_eq!(extract_vqd_token("<html>no token</html>"), None);
    assert_eq!(extract_vqd_token("vqd=&x=1"), None);
}

#[test]
fn ddgs_text_parses_fixture_html() {
    let results = parse_text_html(DDG_TEXT_HTML, 10).unwrap();
    assert_eq!(results.len(), 2);
    assert_eq!(results[0].url, "https://rust-lang.org/");
    assert_eq!(results[0].title, "Rust Programming Language");
    assert_eq!(results[0].snippet, "A systems programming language.");
    assert_eq!(results[1].url, "https://example.com/empty-snippet");
}

#[test]
fn ddgs_bot_challenge_maps_to_typed_code() {
    let err = check_ddg_page("<html><div class=\"anomaly-modal\">bots use DuckDuckGo</div></html>")
        .unwrap_err();
    assert_eq!(err.error_code(), "DDGS_BOT_CHALLENGE");
    assert!(check_ddg_page(DDG_TEXT_HTML).is_ok());
}

#[test]
fn ddgs_images_missing_vqd_maps_to_typed_code() {
    let err = vqd_or_error("<html>no token here</html>").unwrap_err();
    assert_eq!(err.error_code(), "DDGS_VQD_TOKEN_MISSING");
    assert_eq!(vqd_or_error("<html>vqd=abc123&</html>").unwrap(), "abc123");
}

#[test]
fn brave_web_success_parses_results() {
    let hits = vec![
        hit(t("https://a.test/1"), t("A"), t("desc a")),
        hit(t(""), t("Skipped"), t("no url")),
        hit(t("https://a.test/2"), Field::Absent, Field::Absent),
    ];
    let results = results_from_hits(&hits, &HitStyle::BraveWeb, 10);
    assert_eq!(results.len(), 2);
    assert_eq!(results[0].url, "https://a.test/1");
    assert_eq!(results[0].title, "A");
    assert_eq!(results[0].snippet, "desc a");
    assert_eq!(results[0].backend, "brave");
    assert_eq!(results[1].title, "https://a.test/2");
}

#[test]
fn brave_images_success_parses_thumbnails() {
    let mut first = hit(t("https://img.test/1.jpg"), t("Pic"), t("img.test"));
    first.source = t("img.test");
    first.thumb = t("https://img.test/t1.jpg");
    let hits = vec![first, hit(t(""), t("Skipped"), Field::Absent)];
    let results = results_from_hits(&hits, &HitStyle::BraveImages, 10);
    assert_eq!(results.len(), 1);
    assert_eq!(results[0].image.as_deref(), Some("https://img.test/t1.jpg"));
    assert_eq!(results[0].backend, "brave");
}

#[test]
fn brave_looks_at_first_max_hits_only() {
    let hits = vec![
        hit(t(""), t("a"), Field::Absent),
        hit(t("https://x/1"), t("b"), Field::Absent),
        hit(t("https://x/2"), t("c"), Field::Absent),
    ];
    let results = results_from_hits(&hits, &HitStyle::BraveWeb, 2);
    assert_eq!(results.len(), 1);
}

#[test]
fn ddgs_images_fetches_vqd_then_results() {
    let mut first = hit(t("https://img.test/1.jpg"), t("Pic"), t("img.test"));
    first.source = t("img.test");
    first.thumb = t("https://img.test/t1.jpg");
    let hits = vec![first, hit(Field::Absent, t("Skipped, no url"), Field::Absent)];
    let results = results_from_hits(&hits, &HitStyle::DdgsImages, 10);
    assert_eq!(results.len(), 1);
    assert_eq!(results[0].image.as_deref(), Some("https://img.test/t1.jpg"));
}

#[test]
fn ddgs_images_url_falls_back_to_image_field() {
    let mut h = hit(Field::Absent, Field::Absent, Field::Absent);
    h.url_alt = t("https://img.test/2.png");
    h.thumb_alt = t("https://img.test/2.png");
    let results = results_from_hits(&vec![h], &HitStyle::DdgsImages, 5);
    assert_eq!(results.len(), 1);
    assert_eq!(results[0].url, "https://img.test/2.png");
    assert_eq!(results[0].title, "Image result");
    assert_eq!(results[0].image.as_deref(), Some("https://img.test/2.png"));
}

#[test]
fn searxng_hits_use_thumbnail_then_img_src() {
    let mut h = hit(t("https://s/1"), t("S"), t("content"));
    h.source = t("google");
    h.thumb_alt = t("https://s/i.png");
    let results = results_from_hits(&vec![h], &HitStyle::Searxng("http://sx".into()), 5);
    assert_eq!(results[0].image.as_deref(), Some("https://s/i.png"));
    assert_eq!(results[0].source, "google");
    assert_eq!(results[0].provenance, "SearXNG @ http://sx (your instance, your engines)");
}

#[test]
fn normalize_extract_collapses_whitespace() {
    let raw = "Music is an art form.\n\nIt includes rhythm and melody.";
    assert_eq!(
        normalize_extract(raw),
        "Music is an art form. It includes rhythm and melody."
    );
}

#[test]
fn wikipedia_opensearch_with_descriptions_needs_no_extracts() {
    let (rows, pending) = wikipedia_rows(
        &vec![t("Music")],
        &vec![t("Art form")],
        &vec![t("https://en.wikipedia.org/wiki/Music")],
        10,
    );
    assert!(pending.is_empty());
    let results = wikipedia_results(&rows, &vec![]);
    assert_eq!(results.len(), 1);
    assert_eq!(results[0].title, "Music");
    assert_eq!(results[0].snippet, "Art form");
    assert_eq!(results[0].backend, "wikipedia");
}

#[test]
fn wikipedia_empty_description_falls_back_to_extracts() {
    let (rows, pending) = wikipedia_rows(
        &vec![t("Music")],
        &vec![t("")],
        &vec![t("https://en.wikipedia.org/wiki/Music")],
        10,
    );
    assert_eq!(pending, vec!["Music".to_string()]);
    let pages = vec![(t("Music"), t("Music is\n\nan art form."))];
    let results = wikipedia_results(&rows, &pages);
    assert_eq!(results.len(), 1);
    assert_eq!(results[0].snippet, "Music is an art form.");
}

#[test]
fn parses_opensearch_payload() {
    let (rows, pending) = wikipedia_rows(
        &vec![t("Music"), t("MusicBrainz")],
        &vec![t("Art form"), t("")],
        &vec![
            t("https://en.wikipedia.org/wiki/Music"),
            t("https://en.wikipedia.org/wiki/MusicBrainz"),
        ],
        10,
    );
    assert_eq!(rows.len(), 2);
    assert_eq!(rows[0].url, "https://en.wikipedia.org/wiki/Music");
    assert_eq!(pending, vec!["MusicBrainz".to_string()]);
}

#[test]
fn wikipedia_rows_skip_missing_urls_and_stop_at_max() {
    let (rows, _) = wikipedia_rows(
        &vec![t("A"), Field::Other, t("B"), t("C")],
        &vec![],
        &vec![Field::Absent, t("https://x/skip"), t("https://x/b"), t("https://x/c")],
        1,
    );
    assert_eq!(rows.len(), 1);
    assert_eq!(rows[0].title, "B");
}

#[test]
fn request_urls_are_encoded() {
    assert_eq!(ddg_text_form("a b&c"), "q=a%20b%26c&b=&l=us-en");
    assert_eq!(
        ddg_images_url("https://duckduckgo.com", "cats", "x/y"),
        "https://duckduckgo.com/i.js?o=json&q=cats&vqd=x%2Fy"
    );
}

#[test]
fn parses_extract_query_payload() {
    let payload: serde_json::Value = serde_json::from_str(
        r#"{"query": {"pages": {"44057": {"pageid": 44057, "title": "Music",
            "extract": "Music is an art form and cultural activity."}}}}"#,
    )
    .unwrap();
    let pages = payload["query"]["pages"].as_object().unwrap();
    let page = pages["44057"].as_object().unwrap();
    assert_eq!(page["title"], "Music");
    assert!(page["extract"].as_str().unwrap().starts_with("Music is"));

    let pairs: Vec<(Field, Field)> = pages
        .values()
        .map(|p| {
            let f = |k: &str| match p.get(k) {
                None => Field::Absent,
                Some(serde_json::Value::String(s)) => Field::Text(s.clone()),
                Some(_) => Field::Other,
            };
            (f("title"), f("extract"))
        })
        .collect();
    let rows = vec![WikiRow {
        title: "Music".to_string(),
        url: "https://en.wikipedia.org/wiki/Music".to_string(),
        snippet: String::new(),
    }];
    let results = wikipedia_results(&rows, &pairs);
    assert_eq!(results[0].snippet, "Music is an art form and cultural activity.");
}

#[test]
fn image_answer_items_become_hits() {
    let body = r#"{"results": [
        {"image": "https://img/1.png", "title": "One", "source": "Bing", "thumbnail": "https://t/1", "width": 10},
        {"url": "https://page/2", "title": 7},
        "not an object"
    ]}"#;
    let hits = ddg_image_hits(body).unwrap();
    assert_eq!(hits.len(), 3);
    let results = results_from_hits(&hits, &HitStyle::DdgsImages, 10);
    assert_eq!(results.len(), 2);
    assert_eq!(results[0].url, "https://img/1.png");
    assert_eq!(results[0].snippet, "Bing");
    assert_eq!(results[0].image.as_deref(), Some("https://t/1"));
    assert_eq!(results[1].url, "https://page/2");
    assert_eq!(results[1].title, "Image result");
    let e = ddg_image_hits("not json").unwrap_err();
    assert_eq!(e.error_code(), "DDGS_IMAGES_PARSE");
    assert!(ddg_image_hits(r#"{"other": 1}"#).unwrap().is_empty());
}

#[test]
fn searxng_and_brave_answers_become_hits() {
    let s = searxng_hits(r#"{"results": [{"url": "https://a/", "content": "A", "engine": "bing", "img_src": "https://i/"}]}"#)
        .unwrap();
    let r = results_from_hits(&s, &HitStyle::Searxng("http://sx".to_string()), 10);
    assert_eq!(r[0].snippet, "A");
    assert_eq!(r[0].source, "bing");
    assert_eq!(r[0].image.as_deref(), Some("https://i/"));
    assert!(searxng_hits("{").is_err());

    let w = brave_hits(r#"{"web": {"results": [{"url": "https://b/", "title": "B", "description": "d"}]}}"#, SearchMode::Web)
        .unwrap();
    let r = results_from_hits(&w, &HitStyle::BraveWeb, 10);
    assert_eq!(r[0].title, "B");
    assert_eq!(r[0].snippet, "d");
    let i = brave_hits(r#"{"results": [{"url": "https://c/", "source": "c.com", "thumbnail": {"src": "https://t/"}}]}"#, SearchMode::Images)
        .unwrap();
    let r = results_from_hits(&i, &HitStyle::BraveImages, 10);
    assert_eq!(r[0].image.as_deref(), Some("https://t/"));
    assert_eq!(brave_hits("oops", SearchMode::Web).unwrap_err().error_code(), "JSON_PARSE_ERROR");
}

//! The request rules of the HTTP API: what a request must hold, how a
//! refused request body is answered, and the full-text search query.
use crate::backends::{concat_str, ResponseView};
use crate::config::{strings_view, Settings, SettingsView};
use crate::error::{config_error, is_config_error, NetRailError};
use crate::merge::{byte_len, utf8_len};
use crate::text::{
    chars_of, contains, contains_str, eq_str, join, join_exec, lowercase, lowercase_exec,
    split_ws, split_ws_exec, string_of, trim, trim_exec,
};
use crate::types::{SearchMode, SearchResponse};
use vstd::prelude::*;

verus! {

// ---------------------------------------------------------------------------
// Request checks
// ---------------------------------------------------------------------------

pub open spec fn query_ok(q: Seq<char>) -> bool {
    let t = trim(q);
    t.len() > 0 && utf8_len(t) <= 500
}

/// Checks a search request: the trimmed query must hold 1 to 500 bytes and
/// the result limit lie in 1..=50. Gives the trimmed query.
pub fn validate_search_request(query: &str, max_results: u32) -> (r: Result<String, NetRailError>)
    ensures
        !query_ok(query@) ==> (r matches Err(e) && e matches NetRailError::InvalidQuery {
            code,
            message,
        } && code@ == "QUERY_INVALID"@ && message@ == "Query must be 1-500 characters."@),
        query_ok(query@) && !(1 <= max_results <= 50) ==> (r matches Err(e) && is_config_error(
            e,
            ("CONFIG_MAX_RESULTS"@, "max_results must be between 1 and 50."@),
        )),
        query_ok(query@) && 1 <= max_results <= 50 ==> (r matches Ok(q) && q@ == trim(query@)),
{
    let t = trim_exec(chars_of(query).as_slice());
    if t.len() == 0 || byte_len(t.as_slice()) > 500 {
        return Err(
            NetRailError::InvalidQuery {
                code: "QUERY_INVALID",
                message: String::from_str("Query must be 1-500 characters."),
            },
        );
    }
    if max_results < 1 || max_results > 50 {
        return Err(config_error("CONFIG_MAX_RESULTS", "max_results must be between 1 and 50."));
    }
    Ok(string_of(t.as_slice()))
}

/// Checks the name of a new collection: 1 to 120 bytes once trimmed. Gives the
/// trimmed name.
pub fn validate_collection_name(name: &str) -> (r: Result<String, NetRailError>)
    ensures
        ({
            let t = trim(name@);
            if t.len() == 0 || utf8_len(t) > 120 {
                r matches Err(e) && is_config_error(
                    e,
                    ("COLLECTION_NAME_INVALID"@, "Collection name must be 1-120 characters."@),
                )
            } else {
                r matches Ok(n) && n@ == t
            }
        }),
{
    let t = trim_exec(chars_of(name).as_slice());
    if t.len() == 0 || byte_len(t.as_slice()) > 120 {
        return Err(
            config_error("COLLECTION_NAME_INVALID", "Collection name must be 1-120 characters."),
        );
    }
    Ok(string_of(t.as_slice()))
}

/// Checks a collection item: a title of 1 to 500 bytes once trimmed, notes of
/// at most 2000 bytes. Gives the trimmed title.
pub fn validate_collection_item(title: &str, notes: Option<&str>) -> (r: Result<
    String,
    NetRailError,
>)
    ensures
        ({
            let t = trim(title@);
            if t.len() == 0 || utf8_len(t) > 500 {
                r matches Err(e) && is_config_error(
                    e,
                    ("COLLECTION_ITEM_TITLE_INVALID"@, "Title must be 1-500 characters."@),
                )
            } else if notes is Some && utf8_len(notes.unwrap()@) > 2000 {
                r matches Err(e) && is_config_error(
                    e,
                    ("COLLECTION_ITEM_NOTES_INVALID"@, "Notes must be at most 2000 characters."@),
                )
            } else {
                r matches Ok(n) && n@ == t
            }
        }),
{
    let t = trim_exec(chars_of(title).as_slice());
    if t.len() == 0 || byte_len(t.as_slice()) > 500 {
        return Err(
            config_error("COLLECTION_ITEM_TITLE_INVALID", "Title must be 1-500 characters."),
        );
    }
    if let Some(n) = notes {
        if byte_len(chars_of(n).as_slice()) > 2000 {
            return Err(
                config_error(
                    "COLLECTION_ITEM_NOTES_INVALID",
                    "Notes must be at most 2000 characters.",
                ),
            );
        }
    }
    Ok(string_of(t.as_slice()))
}

/// Refuses mutations in read-only mode (`READONLY_MODE`, HTTP 403).
pub fn ensure_mutable(readonly: bool) -> (r: Result<(), NetRailError>)
    ensures
        r is Ok <==> !readonly,
        r matches Err(e) ==> e.code_view() == "READONLY_MODE"@ && e.status_view() == 403
            && e.detail_view() == "Read-only: "@ + "Read-only mode: mutations are disabled (NETRAIL_READONLY=1)."@,
{
    if readonly {
        Err(
            NetRailError::Readonly {
                code: "READONLY_MODE",
                message: String::from_str(
                    "Read-only mode: mutations are disabled (NETRAIL_READONLY=1).",
                ),
            },
        )
    } else {
        Ok(())
    }
}

/// The answer to a history request while history is off.
pub fn history_disabled_error() -> (e: NetRailError)
    ensures
        is_config_error(e, ("HISTORY_DISABLED"@, "History is disabled in settings."@)),
{
    config_error("HISTORY_DISABLED", "History is disabled in settings.")
}

/// The history page size, clamped to 1..=200.
pub fn history_limit(limit: u32) -> (r: u32)
    ensures
        r == (if limit < 1 {
            1
        } else if limit > 200 {
            200
        } else {
            limit
        }),
{
    if limit < 1 {
        1
    } else if limit > 200 {
        200
    } else {
        limit
    }
}

// ---------------------------------------------------------------------------
// Refused request bodies
// ---------------------------------------------------------------------------

/// The kind of error a refused request body gives.
pub enum RejectionKind {
    Query,
    OpenUrl,
    Config,
}

/// The typed error for a request body that did not deserialize, from the
/// deserializer's message: its kind, code and message.
pub open spec fn rejection_of(text: Seq<char>) -> (RejectionKind, Seq<char>, Seq<char>) {
    let lower = lowercase(text);
    if contains(lower, "missing field `query`"@) || (contains(lower, "query"@) && !contains(
        lower,
        "max_results"@,
    )) {
        (RejectionKind::Query, "QUERY_INVALID"@, "Query must be 1-500 characters."@)
    } else if contains(lower, "missing field `url`"@) {
        (RejectionKind::OpenUrl, "OPEN_URL_INVALID"@, "URL is required."@)
    } else if contains(lower, "max_results"@) {
        (RejectionKind::Config, "CONFIG_MAX_RESULTS"@, "max_results must be between 1 and 50."@)
    } else if contains(lower, "`mode`"@) {
        (RejectionKind::Query, "QUERY_INVALID"@, "mode must be 'web' or 'images'."@)
    } else if contains(lower, "missing field `name`"@) {
        (
            RejectionKind::Config,
            "COLLECTION_NAME_INVALID"@,
            "Collection name must be 1-120 characters."@,
        )
    } else if contains(lower, "title"@) {
        (
            RejectionKind::Config,
            "COLLECTION_ITEM_TITLE_INVALID"@,
            "Title must be 1-500 characters."@,
        )
    } else if contains(lower, "notes"@) {
        (
            RejectionKind::Config,
            "COLLECTION_ITEM_NOTES_INVALID"@,
            "Notes must be at most 2000 characters."@,
        )
    } else {
        (RejectionKind::Config, "REQUEST_INVALID"@, text)
    }
}

/// Whether `e` is the error that `x` describes.
pub open spec fn is_rejection(e: NetRailError, x: (RejectionKind, Seq<char>, Seq<char>)) -> bool {
    match x.0 {
        RejectionKind::Query => e matches NetRailError::InvalidQuery { code, message } && code@
            == x.1 && message@ == x.2,
        RejectionKind::OpenUrl => e matches NetRailError::InvalidOpenUrl { code, message } && code@
            == x.1 && message@ == x.2,
        RejectionKind::Config => is_config_error(e, (x.1, x.2)),
    }
}

/// Maps a refused JSON body onto the typed error contract: every 4xx carries
/// a code, never the deserializer's bare text alone.
pub fn rejection_error(text: &str) -> (e: NetRailError)
    ensures
        is_rejection(e, rejection_of(text@)),
        e.status_view() == 400,
{
    let l = lowercase_exec(chars_of(text).as_slice());
    let ls = l.as_slice();
    if contains_str(ls, "missing field `query`") || (contains_str(ls, "query") && !contains_str(
        ls,
        "max_results",
    )) {
        NetRailError::InvalidQuery {
            code: "QUERY_INVALID",
            message: String::from_str("Query must be 1-500 characters."),
        }
    } else if contains_str(ls, "missing field `url`") {
        NetRailError::InvalidOpenUrl {
            code: "OPEN_URL_INVALID",
            message: String::from_str("URL is required."),
        }
    } else if contains_str(ls, "max_results") {
        config_error("CONFIG_MAX_RESULTS", "max_results must be between 1 and 50.")
    } else if contains_str(ls, "`mode`") {
        NetRailError::InvalidQuery {
            code: "QUERY_INVALID",
            message: String::from_str("mode must be 'web' or 'images'."),
        }
    } else if contains_str(ls, "missing field `name`") {
        config_error("COLLECTION_NAME_INVALID", "Collection name must be 1-120 characters.")
    } else if contains_str(ls, "title") {
        config_error("COLLECTION_ITEM_TITLE_INVALID", "Title must be 1-500 characters.")
    } else if contains_str(ls, "notes") {
        config_error("COLLECTION_ITEM_NOTES_INVALID", "Notes must be at most 2000 characters.")
    } else {
        config_error("REQUEST_INVALID", text)
    }
}

// ---------------------------------------------------------------------------
// Full-text search
// ---------------------------------------------------------------------------

/// The characters a history search keeps: word characters, whitespace and
/// `-`; every other one is replaced by [`FTS_REPLACEMENT`].
pub const FTS_STRIP_PATTERN: &'static str = "[^\\w\\s-]";

pub const FTS_REPLACEMENT: &'static str = " ";

/// The name for what `Regex::new(pattern)` then `replace_all(text, rep)` makes
/// of a text; nothing when the pattern does not compile.
pub uninterp spec fn regex_replaced(pattern: Seq<char>, text: Seq<char>, rep: Seq<char>) -> Option<
    Seq<char>,
>;

/// `regex::Regex::new(pattern)`, then `replace_all(text, rep)`.
#[verifier::external_body]
fn regex_replace_all(pattern: &str, text: &str, rep: &str) -> (r: Option<String>)
    ensures
        match r {
            Some(t) => regex_replaced(pattern@, text@, rep@) == Some(t@),
            None => regex_replaced(pattern@, text@, rep@) is None,
        },
{
    regex::Regex::new(pattern).ok().map(|re| re.replace_all(text, rep).into_owned())
}

/// The query with the characters outside `[\w\s-]` replaced by spaces (the
/// pattern always compiles; were it not to, nothing would be kept).
pub open spec fn fts_stripped(q: Seq<char>) -> Seq<char> {
    match regex_replaced(FTS_STRIP_PATTERN@, q, FTS_REPLACEMENT@) {
        Some(t) => t,
        None => Seq::empty(),
    }
}

/// Each remaining word quoted, the quoted words joined by spaces; `""` when
/// no word remains.
pub open spec fn fts_text(q: Seq<char>) -> Seq<char> {
    let cleaned = trim(fts_stripped(q));
    if cleaned.len() == 0 {
        "\"\""@
    } else {
        join(split_ws(cleaned).map_values(|w: Seq<char>| seq!['"'] + w + seq!['"']), seq![' '])
    }
}

/// The FTS5 match expression for a history search.
pub fn fts_query(q: &str) -> (r: String)
    ensures
        r@ == fts_text(q@),
{
    let s = match regex_replace_all(FTS_STRIP_PATTERN, q, FTS_REPLACEMENT) {
        Some(t) => t,
        None => String::new(),
    };
    let cleaned = trim_exec(chars_of(s.as_str()).as_slice());
    if cleaned.len() == 0 {
        return String::from_str("\"\"");
    }
    let words = split_ws_exec(cleaned.as_slice());
    let ghost wv = words@.map_values(|p: Vec<char>| p@);
    let mut quoted: Vec<Vec<char>> = Vec::new();
    let mut i: usize = 0;
    while i < words.len()
        invariant
            i <= words@.len(),
            wv == words@.map_values(|p: Vec<char>| p@),
            quoted@.map_values(|p: Vec<char>| p@) == wv.take(i as int).map_values(
                |w: Seq<char>| seq!['"'] + w + seq!['"'],
            ),
        decreases words.len() - i,
    {
        let ghost before = quoted@;
        let mut w: Vec<char> = vec!['"'];
        let mut body = crate::text::slice_of(words[i].as_slice(), 0, words[i].len());
        w.append(&mut body);
        w.push('"');
        assert(w@ =~= seq!['"'] + wv[i as int] + seq!['"']);
        quoted.push(w);
        proof {
            let f = |w: Seq<char>| seq!['"'] + w + seq!['"'];
            assert(wv.take(i + 1) =~= wv.take(i as int).push(wv[i as int]));
            assert(wv.take(i + 1).map_values(f) =~= wv.take(i as int).map_values(f).push(
                f(wv[i as int]),
            ));
            assert(quoted@.map_values(|p: Vec<char>| p@) =~= before.map_values(|p: Vec<char>| p@).push(
                f(wv[i as int]),
            ));
        }
        i = i + 1;
    }
    assert(wv.take(wv.len() as int) =~= wv);
    let sep: Vec<char> = vec![' '];
    assert(sep@ =~= seq![' ']);
    let j = join_exec(&quoted, sep.as_slice());
    string_of(j.as_slice())
}

// ---------------------------------------------------------------------------
// Search request handling
// ---------------------------------------------------------------------------

/// The mode a search request asks for: `images` (any case, trimmed) is image
/// search, anything else web search.
pub open spec fn requested_mode(mode: Seq<char>) -> SearchMode {
    if lowercase(trim(mode)) == "images"@ {
        SearchMode::Images
    } else {
        SearchMode::Web
    }
}

pub fn search_mode(mode: &str) -> (r: SearchMode)
    ensures
        r == requested_mode(mode@),
{
    let t = trim_exec(chars_of(mode).as_slice());
    let l = lowercase_exec(t.as_slice());
    if eq_str(l.as_slice(), "images") {
        SearchMode::Images
    } else {
        SearchMode::Web
    }
}

/// A search that found nothing while backends failed is a failure
/// (`FANOUT_TOTAL_FAILURE`, HTTP 502) carrying the errors joined by `; `.
pub fn fanout_failure(response: &SearchResponse) -> (r: Option<NetRailError>)
    ensures
        r is Some <==> response@.results.len() == 0 && response@.errors.len() > 0,
        r matches Some(e) ==> e matches NetRailError::FanoutFailure { code, message }
            && code@ == "FANOUT_TOTAL_FAILURE"@ && message@ == join(response@.errors, "; "@),
{
    if response.results.len() == 0 && response.errors.len() > 0 {
        let mut parts: Vec<Vec<char>> = Vec::new();
        let mut i: usize = 0;
        let ghost ev = response@.errors;
        while i < response.errors.len()
            invariant
                i <= response.errors@.len(),
                ev == strings_view(response.errors@),
                parts@.map_values(|p: Vec<char>| p@) == ev.take(i as int),
            decreases response.errors.len() - i,
        {
            let ghost before = parts@;
            let p = chars_of(response.errors[i].as_str());
            parts.push(p);
            assert(parts@.map_values(|p: Vec<char>| p@) =~= before.map_values(|p: Vec<char>| p@).push(
                ev[i as int],
            ));
            assert(ev.take(i + 1) =~= ev.take(i as int).push(ev[i as int]));
            i = i + 1;
        }
        assert(ev.take(ev.len() as int) =~= ev);
        let sep = chars_of("; ");
        let j = join_exec(&parts, sep.as_slice());
        Some(
            NetRailError::FanoutFailure {
                code: "FANOUT_TOTAL_FAILURE",
                message: string_of(j.as_slice()),
            },
        )
    } else {
        None
    }
}

/// The sovereignty step with local history counted: at least step 4 once the
/// history holds a search.
pub fn sovereignty_with_history(step: u8, history_enabled: bool, recorded_queries: Option<i64>) -> (r:
    u8)
    ensures
        r == (if history_enabled && recorded_queries is Some && recorded_queries.unwrap() > 0
            && step < 4 {
            4
        } else {
            step
        }),
{
    if !history_enabled {
        return step;
    }
    match recorded_queries {
        Some(q) => if q > 0 && step < 4 {
            4
        } else {
            step
        },
        None => step,
    }
}

// ---------------------------------------------------------------------------
// Health
// ---------------------------------------------------------------------------

/// Whether a SearXNG instance is configured, globally or on a backend entry.
pub open spec fn searxng_configured(s: SettingsView) -> bool {
    s.searxng_url is Some || exists|i: int|
        0 <= i < s.backends.len() && #[trigger] s.backends[i].id == "searxng"@
            && s.backends[i].url is Some
}

pub open spec fn recovery_hints_of(s: SettingsView, brave_key_present: bool) -> Seq<Seq<char>> {
    let a: Seq<Seq<char>> = if !searxng_configured(s) {
        seq!["Set NETRAIL_SEARXNG_URL to a SearXNG instance for self-hosted metasearch."@]
    } else {
        Seq::empty()
    };
    if !s.brave_enabled || !brave_key_present {
        a.push("Export BRAVE_SEARCH_API_KEY and enable Brave in settings for richer web results."@)
    } else {
        a
    }
}

pub fn is_searxng_configured(settings: &Settings) -> (r: bool)
    ensures
        r == searxng_configured(settings@),
{
    if settings.searxng_url.is_some() {
        return true;
    }
    let mut i: usize = 0;
    while i < settings.backends.len()
        invariant
            i <= settings.backends@.len(),
            settings@.searxng_url is None,
            forall|k: int|
                0 <= k < i ==> !(settings@.backends[k].id == "searxng"@
                    && settings@.backends[k].url is Some),
        decreases settings.backends.len() - i,
    {
        let b = &settings.backends[i];
        assert(settings@.backends[i as int] == b@);
        if eq_str(chars_of(b.id.as_str()).as_slice(), "searxng") && b.url.is_some() {
            assert(settings@.backends[i as int].id == "searxng"@);
            assert(settings@.backends[i as int].url is Some);
            return true;
        }
        i = i + 1;
    }
    false
}

/// The setup hints the health report gives for getting better results.
pub fn recovery_hints(settings: &Settings, brave_key_present: bool) -> (r: Vec<&'static str>)
    ensures
        r@.map_values(|s: &'static str| s@) == recovery_hints_of(settings@, brave_key_present),
{
    let mut hints: Vec<&'static str> = Vec::new();
    if !is_searxng_configured(settings) {
        hints.push("Set NETRAIL_SEARXNG_URL to a SearXNG instance for self-hosted metasearch.");
    }
    if !settings.brave_enabled || !brave_key_present {
        hints.push(
            "Export BRAVE_SEARCH_API_KEY and enable Brave in settings for richer web results.",
        );
    }
    assert(hints@.map_values(|s: &'static str| s@) =~= recovery_hints_of(
        settings@,
        brave_key_present,
    ));
    hints
}

} // verus!

//! Result links and titles: DuckDuckGo redirect links are unwrapped to their
//! destination, and titles that merely repeat an encoded URL are replaced.
use crate::security::{ddg_host, host_matches};
use crate::text::{
    chars_of, contains, contains_str, eq_str, lowercase, lowercase_exec, starts_with,
    starts_with_str, string_of, trim, trim_exec,
};
use crate::urlparts::{first_pair_value, find_pair, parse_url, parsed_url};
use vstd::prelude::*;

verus! {

/// `is_ddg_host` after lowercasing.
pub open spec fn ddg_host_any_case(host: Seq<char>) -> bool {
    ddg_host(lowercase(host))
}

/// A protocol-relative link (`//host/...`) made absolute with `https:`.
pub open spec fn absolute_link(raw: Seq<char>) -> Seq<char> {
    let t = trim(raw);
    if starts_with(t, "//"@) {
        "https:"@ + t
    } else {
        t
    }
}

/// The destination of a result link, unwrapping up to five nested
/// DuckDuckGo redirects (`/l/?uddg=...`).
pub open spec fn resolved_link(raw: Seq<char>, depth: nat) -> Seq<char>
    decreases 5 - depth,
{
    if depth > 4 {
        trim(raw)
    } else {
        let absolute = absolute_link(raw);
        match parsed_url(absolute) {
            None => absolute,
            Some(u) => match u.host {
                Some(h) => {
                    let wrapped = first_pair_value(u.query_pairs, "uddg"@);
                    if ddg_host_any_case(h) && wrapped is Some {
                        resolved_link(wrapped->0, depth + 1)
                    } else {
                        absolute
                    }
                },
                None => absolute,
            },
        }
    }
}

/// A value that looks like a raw or percent-encoded redirect URL.
pub open spec fn encoded_url_like(value: Seq<char>) -> bool {
    let lower = lowercase(value);
    contains(lower, "%2f"@) || contains(lower, "%3a"@) || contains(lower, "uddg="@) || contains(
        lower,
        "duckduckgo.com/l/"@,
    )
}

/// A title made from a URL: its host, followed by its path unless that is empty or `/`.
pub open spec fn url_title(url: Seq<char>) -> Seq<char> {
    match parsed_url(url) {
        None => url,
        Some(u) => {
            let host = match u.host {
                Some(h) => h,
                None => url,
            };
            if u.path.len() == 0 || u.path == "/"@ {
                host
            } else {
                host + u.path
            }
        },
    }
}

/// The display title of a result.
pub open spec fn cleaned_title(title: Seq<char>, url: Seq<char>, hint: Option<Seq<char>>) -> Seq<
    char,
> {
    let t = trim(title);
    let resolved = resolved_link(url, 0);
    let usable_hint = match hint {
        Some(h) => trim(h).len() != 0 && !encoded_url_like(trim(h)),
        None => false,
    };
    if usable_hint {
        trim(hint->0)
    } else if t.len() == 0 || t == url || t == resolved || encoded_url_like(t) {
        url_title(resolved)
    } else {
        t
    }
}

fn is_ddg_host_any_case(host: &str) -> (r: bool)
    ensures
        r == ddg_host_any_case(host@),
{
    let v = chars_of(host);
    let l = lowercase_exec(v.as_slice());
    host_matches_str(l.as_slice(), "duckduckgo.com") || host_matches_str(l.as_slice(), "duck.com")
}

fn host_matches_str(h: &[char], base: &str) -> (r: bool)
    ensures
        r == host_matches(h@, base@),
{
    if eq_str(h, base) {
        return true;
    }
    let mut pat: Vec<char> = Vec::new();
    pat.push('.');
    let mut b = chars_of(base);
    pat.append(&mut b);
    assert(pat@ =~= seq!['.'] + base@);
    crate::text::ends_with_exec(h, pat.as_slice())
}

/// Unwraps DuckDuckGo redirect links (`/l/?uddg=...`) to the destination URL.
pub fn resolve_result_url(raw: &str, depth: u8) -> (r: String)
    ensures
        r@ == resolved_link(raw@, depth as nat),
    decreases 5 - depth,
{
    let v = chars_of(raw);
    let trimmed = trim_exec(v.as_slice());
    if depth > 4 {
        return string_of(trimmed.as_slice());
    }
    let absolute: String = if starts_with_str(trimmed.as_slice(), "//") {
        let mut s = String::from_str("https:");
        let t = string_of(trimmed.as_slice());
        s.append(t.as_str());
        s
    } else {
        string_of(trimmed.as_slice())
    };
    let parsed = match parse_url(absolute.as_str()) {
        Some(p) => p,
        None => {
            return absolute;
        },
    };
    if let Some(host) = &parsed.host {
        if is_ddg_host_any_case(host.as_str()) {
            if let Some(uddg) = find_pair(&parsed.query_pairs, "uddg") {
                return resolve_result_url(uddg.as_str(), depth + 1);
            }
        }
    }
    absolute
}

/// Heuristic: the value mirrors a raw or encoded redirect URL.
pub fn looks_like_encoded_url(value: &str) -> (r: bool)
    ensures
        r == encoded_url_like(value@),
{
    let v = chars_of(value);
    let lower = lowercase_exec(v.as_slice());
    contains_str(lower.as_slice(), "%2f") || contains_str(lower.as_slice(), "%3a")
        || contains_str(lower.as_slice(), "uddg=") || contains_str(
        lower.as_slice(),
        "duckduckgo.com/l/",
    )
}

/// A title made from a URL: host, plus path when it is not `/`.
pub fn title_from_url(url: &str) -> (r: String)
    ensures
        r@ == url_title(url@),
{
    let parsed = match parse_url(url) {
        Some(p) => p,
        None => {
            return String::from_str(url);
        },
    };
    let host: String = match &parsed.host {
        Some(h) => h.clone(),
        None => String::from_str(url),
    };
    let path = chars_of(parsed.path.as_str());
    if path.len() == 0 || eq_str(path.as_slice(), "/") {
        host
    } else {
        let mut s = host;
        s.append(parsed.path.as_str());
        s
    }
}

/// Replaces a title that is empty or merely mirrors a raw or encoded redirect
/// URL: a usable display-URL hint wins, then a title made from the destination.
pub fn clean_result_title(title: &str, url: &str, display_url_hint: Option<&str>) -> (r: String)
    ensures
        r@ == cleaned_title(
            title@,
            url@,
            match display_url_hint {
                Some(h) => Some(h@),
                None => None,
            },
        ),
{
    let tv = chars_of(title);
    let t = trim_exec(tv.as_slice());
    let resolved = resolve_result_url(url, 0);
    if let Some(hint) = display_url_hint {
        let hv = chars_of(hint);
        let ht = trim_exec(hv.as_slice());
        let hs = string_of(ht.as_slice());
        if ht.len() != 0 && !looks_like_encoded_url(hs.as_str()) {
            return hs;
        }
    }
    let ts = string_of(t.as_slice());
    let uv = chars_of(url);
    let rv = chars_of(resolved.as_str());
    if t.len() == 0 || crate::text::chars_eq(t.as_slice(), uv.as_slice())
        || crate::text::chars_eq(t.as_slice(), rv.as_slice()) || looks_like_encoded_url(
        ts.as_str(),
    ) {
        return title_from_url(resolved.as_str());
    }
    ts
}

} // verus!

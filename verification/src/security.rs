//! URL policy: which links may be opened from search results, which backend
//! URLs may be configured, and the DNS pinning of opened hosts.
use crate::error::{
    backend_url_error, is_backend_url_error, is_open_url_error, open_url_error, NetRailError,
    NetRailResult,
};
use crate::ip::{
    cloud_metadata_ip, host_ip, ip_link_local, ip_loopback, ip_non_public, ip_unspecified,
    is_cloud_metadata_ip, is_link_local, is_loopback, is_non_public, is_unspecified,
    parse_host_ip, IpAddress, IpView,
};
use crate::text::{
    ascii_lower_char, char_pred, chars_of, ends_with, ends_with_exec, eq_str, lemma_char_nonneg,
    lemma_trim_end_by_is_prefix, lemma_trim_end_last, lemma_trim_end_take, lowercase,
    lowercase_exec, string_of, trim, trim_end_char, trim_end_char_exec, trim_exec,
};
use vstd::utf8::is_ascii_chars;
use crate::urlparts::{first_pair_value, find_pair, parse_url, parsed_url, UrlParts};
use vstd::prelude::*;

verus! {

/// How many DuckDuckGo redirect wrappers are unwrapped before giving up.
pub const MAX_REDIRECT_DEPTH: u8 = 5;

// ---------------------------------------------------------------------------
// Host names
// ---------------------------------------------------------------------------

/// `host` is `base` or a subdomain of it.
pub open spec fn host_matches(host: Seq<char>, base: Seq<char>) -> bool {
    host == base || ends_with(host, seq!['.'] + base)
}

/// DuckDuckGo's registrable hosts (`duckduckgo.com`, `duck.com`) and their subdomains.
pub open spec fn ddg_host(h: Seq<char>) -> bool {
    host_matches(h, "duckduckgo.com"@) || host_matches(h, "duck.com"@)
}

/// Wildcard-DNS services that resolve any name to any address.
pub open spec fn rebinding_host(h: Seq<char>) -> bool {
    host_matches(h, "nip.io"@) || host_matches(h, "sslip.io"@) || host_matches(h, "xip.io"@)
        || host_matches(h, "localtest.me"@)
}

/// Cloud instance-metadata host names.
pub open spec fn metadata_host(h: Seq<char>) -> bool {
    host_matches(h, "metadata.google.internal"@) || host_matches(h, "metadata"@) || host_matches(
        h,
        "instance-data"@,
    )
}

pub open spec fn localhost_name(h: Seq<char>) -> bool {
    h == "localhost"@ || h == "127.0.0.1"@ || h == "::1"@ || h == "0.0.0.0"@ || h == "[::1]"@
}

/// `normalize_host`: trailing dots removed, then lowercased.
pub open spec fn normalized_host(h: Seq<char>) -> Seq<char> {
    lowercase(trim_end_char(h, '.'))
}

// ---------------------------------------------------------------------------
// Refusals (code, message)
// ---------------------------------------------------------------------------

pub open spec fn open_localhost() -> (Seq<char>, Seq<char>) {
    ("OPEN_URL_LOCALHOST"@, "Localhost URLs cannot be opened from search results."@)
}

pub open spec fn open_link_local() -> (Seq<char>, Seq<char>) {
    (
        "OPEN_URL_LINK_LOCAL"@,
        "Local or link-local IP addresses cannot be opened from search results."@,
    )
}

pub open spec fn open_private() -> (Seq<char>, Seq<char>) {
    (
        "OPEN_URL_PRIVATE"@,
        "Private or non-public IP addresses cannot be opened from search results."@,
    )
}

pub open spec fn open_rebinding() -> (Seq<char>, Seq<char>) {
    ("OPEN_URL_DNS_REBINDING"@, "DNS rebinding hostnames cannot be opened from search results."@)
}

pub open spec fn open_metadata() -> (Seq<char>, Seq<char>) {
    ("OPEN_URL_CLOUD_METADATA"@, "Cloud metadata hostnames cannot be opened from search results."@)
}

pub open spec fn open_depth() -> (Seq<char>, Seq<char>) {
    ("OPEN_URL_REDIRECT_DEPTH"@, "Too many redirect wrappers."@)
}

pub open spec fn open_invalid() -> (Seq<char>, Seq<char>) {
    ("OPEN_URL_INVALID"@, "Invalid URL."@)
}

pub open spec fn open_scheme() -> (Seq<char>, Seq<char>) {
    ("OPEN_URL_INVALID_SCHEME"@, "Only http:// and https:// URLs are supported."@)
}

pub open spec fn open_credentials() -> (Seq<char>, Seq<char>) {
    ("OPEN_URL_CREDENTIALS"@, "URLs with embedded credentials are not allowed."@)
}

pub open spec fn open_no_host() -> (Seq<char>, Seq<char>) {
    ("OPEN_URL_NO_HOST"@, "URL must include a host."@)
}

pub open spec fn backend_empty() -> (Seq<char>, Seq<char>) {
    ("BACKEND_URL_EMPTY"@, "Backend URL cannot be empty."@)
}

pub open spec fn backend_invalid() -> (Seq<char>, Seq<char>) {
    ("BACKEND_URL_INVALID"@, "Invalid backend URL."@)
}

pub open spec fn backend_scheme() -> (Seq<char>, Seq<char>) {
    ("BACKEND_URL_INVALID_SCHEME"@, "Backend URL must use http:// or https://."@)
}

pub open spec fn backend_credentials() -> (Seq<char>, Seq<char>) {
    ("BACKEND_URL_CREDENTIALS"@, "Backend URLs with embedded credentials are not allowed."@)
}

pub open spec fn backend_no_host() -> (Seq<char>, Seq<char>) {
    ("BACKEND_URL_NO_HOST"@, "Backend URL must include a host."@)
}

pub open spec fn backend_rebinding() -> (Seq<char>, Seq<char>) {
    ("BACKEND_URL_DNS_REBINDING"@, "DNS rebinding hostnames are not allowed in backend URLs."@)
}

pub open spec fn backend_metadata() -> (Seq<char>, Seq<char>) {
    ("BACKEND_URL_CLOUD_METADATA"@, "Cloud metadata addresses cannot be used as backend URLs."@)
}

pub open spec fn backend_strict_localhost() -> (Seq<char>, Seq<char>) {
    ("BACKEND_URL_STRICT_PRIVATE"@, "strict_backend_urls rejects localhost backends."@)
}

pub open spec fn backend_link_local() -> (Seq<char>, Seq<char>) {
    (
        "BACKEND_URL_LINK_LOCAL"@,
        "Unspecified or link-local addresses cannot be used as backend URLs."@,
    )
}

pub open spec fn backend_strict_private() -> (Seq<char>, Seq<char>) {
    ("BACKEND_URL_STRICT_PRIVATE"@, "strict_backend_urls rejects private/loopback backend hosts."@)
}

/// Why an address may not be opened from search results (`None`: it may).
pub open spec fn ip_refusal(ip: IpView) -> Option<(Seq<char>, Seq<char>)> {
    if ip_loopback(ip) || ip_unspecified(ip) {
        Some(open_localhost())
    } else if ip_link_local(ip) {
        Some(open_link_local())
    } else if ip_non_public(ip) {
        Some(open_private())
    } else {
        None
    }
}

/// Why a host may not be opened from search results (`None`: it may).
pub open spec fn host_refusal(host: Seq<char>) -> Option<(Seq<char>, Seq<char>)> {
    let h = normalized_host(host);
    if localhost_name(h) {
        Some(open_localhost())
    } else if rebinding_host(h) {
        Some(open_rebinding())
    } else if metadata_host(h) {
        Some(open_metadata())
    } else {
        match host_ip(h) {
            Some(ip) => ip_refusal(ip),
            None => None,
        }
    }
}

/// The outcome of validating `raw` as a link to open, `depth` redirect
/// wrappers deep: the URL to open, or the refusal.
pub open spec fn open_url_verdict(raw: Seq<char>, depth: nat) -> Result<
    Seq<char>,
    (Seq<char>, Seq<char>),
>
    decreases 6 - depth,
{
    if depth > 5 {
        Err(open_depth())
    } else {
        match parsed_url(raw) {
            None => Err(open_invalid()),
            Some(u) => if u.scheme != "http"@ && u.scheme != "https"@ {
                Err(open_scheme())
            } else if u.username.len() != 0 || u.has_password {
                Err(open_credentials())
            } else {
                match u.host {
                    None => Err(open_no_host()),
                    Some(host) => {
                        let wrapped = first_pair_value(u.query_pairs, "uddg"@);
                        if ddg_host(trim_end_char(lowercase(host), '.')) && wrapped is Some {
                            open_url_verdict(wrapped->0, depth + 1)
                        } else {
                            match host_refusal(host) {
                                Some(r) => Err(r),
                                None => Ok(raw),
                            }
                        }
                    },
                }
            },
        }
    }
}

/// Why a host may not serve as a search backend (`None`: it may).
pub open spec fn backend_host_refusal(host: Seq<char>, strict: bool) -> Option<
    (Seq<char>, Seq<char>),
> {
    let h = normalized_host(host);
    if rebinding_host(h) {
        Some(backend_rebinding())
    } else if metadata_host(h) {
        Some(backend_metadata())
    } else if strict && localhost_name(h) {
        Some(backend_strict_localhost())
    } else {
        match host_ip(h) {
            Some(ip) => if cloud_metadata_ip(ip) {
                Some(backend_metadata())
            } else if ip_unspecified(ip) || ip_link_local(ip) {
                Some(backend_link_local())
            } else if strict && (ip_non_public(ip) || ip_loopback(ip)) {
                Some(backend_strict_private())
            } else {
                None
            },
            None => None,
        }
    }
}

/// The outcome of validating a backend URL: the trimmed URL, or the refusal.
pub open spec fn backend_url_verdict(raw: Seq<char>, strict: bool) -> Result<
    Seq<char>,
    (Seq<char>, Seq<char>),
> {
    let t = trim(raw);
    if t.len() == 0 {
        Err(backend_empty())
    } else {
        match parsed_url(t) {
            None => Err(backend_invalid()),
            Some(u) => if u.scheme != "http"@ && u.scheme != "https"@ {
                Err(backend_scheme())
            } else if u.username.len() != 0 || u.has_password {
                Err(backend_credentials())
            } else {
                match u.host {
                    None => Err(backend_no_host()),
                    Some(host) => match backend_host_refusal(host, strict) {
                        Some(r) => Err(r),
                        None => Ok(t),
                    },
                }
            },
        }
    }
}

/// The refusal of the first resolved address that may not be opened.
pub open spec fn resolved_refusal(ips: Seq<IpView>) -> Option<(Seq<char>, Seq<char>)>
    decreases ips.len(),
{
    if ips.len() == 0 {
        None
    } else {
        match ip_refusal(ips[0]) {
            Some(r) => Some(r),
            None => resolved_refusal(ips.drop_first()),
        }
    }
}

pub open spec fn unresolvable(host: Seq<char>) -> (Seq<char>, Seq<char>) {
    ("OPEN_URL_DNS_UNRESOLVABLE"@, "Could not resolve host "@ + host + "."@)
}

/// The outcome of checking a host's DNS answers: no answer, or any answer
/// that may not be opened, refuses the host.
pub open spec fn resolved_verdict(host: Seq<char>, ips: Seq<IpView>) -> Option<
    (Seq<char>, Seq<char>),
> {
    if ips.len() == 0 {
        Some(unresolvable(host))
    } else {
        resolved_refusal(ips)
    }
}

/// What DNS pinning must do with an already validated URL: refuse it (it does
/// not parse), accept it (no host, or an IP literal), or resolve the host.
pub open spec fn pin_target(url: Seq<char>) -> Result<Option<Seq<char>>, (Seq<char>, Seq<char>)> {
    match parsed_url(url) {
        None => Err(open_invalid()),
        Some(u) => match u.host {
            None => Ok(None),
            Some(h) => {
                let hl = normalized_host(h);
                if host_ip(hl) is Some {
                    Ok(None)
                } else {
                    Ok(Some(hl))
                }
            },
        },
    }
}

pub open spec fn ips_view(ips: Seq<IpAddress>) -> Seq<IpView> {
    ips.map_values(|ip: IpAddress| ip@)
}

// ---------------------------------------------------------------------------
// Executable checks
// ---------------------------------------------------------------------------

fn host_matches_exec(h: &[char], base: &str) -> (r: bool)
    ensures
        r == host_matches(h@, base@),
{
    if eq_str(h, base) {
        return true;
    }
    let mut pat: Vec<char> = Vec::new();
    pat.push('.');
    let mut b = chars_of(base);
    pat.append(&mut b);
    assert(pat@ =~= seq!['.'] + base@);
    ends_with_exec(h, pat.as_slice())
}

fn is_ddg_host(h: &[char]) -> (r: bool)
    ensures
        r == ddg_host(h@),
{
    host_matches_exec(h, "duckduckgo.com") || host_matches_exec(h, "duck.com")
}

fn is_dns_rebinding_helper(h: &[char]) -> (r: bool)
    ensures
        r == rebinding_host(h@),
{
    host_matches_exec(h, "nip.io") || host_matches_exec(h, "sslip.io") || host_matches_exec(
        h,
        "xip.io",
    ) || host_matches_exec(h, "localtest.me")
}

fn is_cloud_metadata_host(h: &[char]) -> (r: bool)
    ensures
        r == metadata_host(h@),
{
    host_matches_exec(h, "metadata.google.internal") || host_matches_exec(h, "metadata")
        || host_matches_exec(h, "instance-data")
}

fn is_localhost_name(h: &[char]) -> (r: bool)
    ensures
        r == localhost_name(h@),
{
    eq_str(h, "localhost") || eq_str(h, "127.0.0.1") || eq_str(h, "::1") || eq_str(h, "0.0.0.0")
        || eq_str(h, "[::1]")
}

fn normalize_host_chars(host: &[char]) -> (r: Vec<char>)
    ensures
        r@ == normalized_host(host@),
{
    let t = trim_end_char_exec(host, '.');
    lowercase_exec(t.as_slice())
}

/// Trailing dots removed, then lowercased.
pub fn normalize_host(host: &str) -> (r: String)
    ensures
        r@ == normalized_host(host@),
{
    let v = chars_of(host);
    let n = normalize_host_chars(v.as_slice());
    string_of(n.as_slice())
}

/// Refuses loopback, unspecified, link-local and other non-public addresses.
pub fn block_ip(ip: &IpAddress) -> (r: NetRailResult<()>)
    ensures
        match ip_refusal(ip@) {
            Some(x) => r matches Err(e) && is_open_url_error(e, x),
            None => r is Ok,
        },
{
    if is_loopback(ip) || is_unspecified(ip) {
        Err(
            open_url_error(
                "OPEN_URL_LOCALHOST",
                "Localhost URLs cannot be opened from search results.",
            ),
        )
    } else if is_link_local(ip) {
        Err(
            open_url_error(
                "OPEN_URL_LINK_LOCAL",
                "Local or link-local IP addresses cannot be opened from search results.",
            ),
        )
    } else if is_non_public(ip) {
        Err(
            open_url_error(
                "OPEN_URL_PRIVATE",
                "Private or non-public IP addresses cannot be opened from search results.",
            ),
        )
    } else {
        Ok(())
    }
}

/// Refuses local, rebinding, metadata and non-public hosts of a link to open.
pub fn block_unsafe_host(host: &str) -> (r: NetRailResult<()>)
    ensures
        match host_refusal(host@) {
            Some(x) => r matches Err(e) && is_open_url_error(e, x),
            None => r is Ok,
        },
{
    let hv = chars_of(host);
    let h = normalize_host_chars(hv.as_slice());
    if is_localhost_name(h.as_slice()) {
        return Err(
            open_url_error(
                "OPEN_URL_LOCALHOST",
                "Localhost URLs cannot be opened from search results.",
            ),
        );
    }
    if is_dns_rebinding_helper(h.as_slice()) {
        return Err(
            open_url_error(
                "OPEN_URL_DNS_REBINDING",
                "DNS rebinding hostnames cannot be opened from search results.",
            ),
        );
    }
    if is_cloud_metadata_host(h.as_slice()) {
        return Err(
            open_url_error(
                "OPEN_URL_CLOUD_METADATA",
                "Cloud metadata hostnames cannot be opened from search results.",
            ),
        );
    }
    match parse_host_ip(h.as_slice()) {
        Some(ip) => block_ip(&ip),
        None => Ok(()),
    }
}

/// Validates a link to open from search results; DuckDuckGo redirect links are
/// unwrapped and their destination validated instead.
pub fn validate_open_url(raw: &str) -> (r: NetRailResult<String>)
    ensures
        match open_url_verdict(trim(raw@), 0) {
            Ok(s) => r matches Ok(v) && v@ == s,
            Err(x) => r matches Err(e) && is_open_url_error(e, x),
        },
{
    let v = chars_of(raw);
    let t = trim_exec(v.as_slice());
    let ts = string_of(t.as_slice());
    validate_open_url_inner(ts.as_str(), 0)
}

fn validate_open_url_inner(raw: &str, depth: u8) -> (r: NetRailResult<String>)
    ensures
        match open_url_verdict(raw@, depth as nat) {
            Ok(s) => r matches Ok(v) && v@ == s,
            Err(x) => r matches Err(e) && is_open_url_error(e, x),
        },
    decreases 6 - depth,
{
    if depth > MAX_REDIRECT_DEPTH {
        return Err(open_url_error("OPEN_URL_REDIRECT_DEPTH", "Too many redirect wrappers."));
    }
    let parsed: UrlParts = match parse_url(raw) {
        Some(p) => p,
        None => {
            return Err(open_url_error("OPEN_URL_INVALID", "Invalid URL."));
        },
    };
    let scheme = chars_of(parsed.scheme.as_str());
    if !eq_str(scheme.as_slice(), "http") && !eq_str(scheme.as_slice(), "https") {
        return Err(
            open_url_error(
                "OPEN_URL_INVALID_SCHEME",
                "Only http:// and https:// URLs are supported.",
            ),
        );
    }
    if !parsed.username.as_str().is_empty() || parsed.has_password {
        return Err(
            open_url_error(
                "OPEN_URL_CREDENTIALS",
                "URLs with embedded credentials are not allowed.",
            ),
        );
    }
    match &parsed.host {
        None => Err(open_url_error("OPEN_URL_NO_HOST", "URL must include a host.")),
        Some(host) => {
            let hv = chars_of(host.as_str());
            let lower = lowercase_exec(hv.as_slice());
            let host_norm = trim_end_char_exec(lower.as_slice(), '.');
            if is_ddg_host(host_norm.as_slice()) {
                if let Some(uddg) = find_pair(&parsed.query_pairs, "uddg") {
                    return validate_open_url_inner(uddg.as_str(), depth + 1);
                }
            }
            block_unsafe_host(host.as_str())?;
            Ok(String::from_str(raw))
        },
    }
}

/// Validates a user-configured backend URL with the permissive policy:
/// localhost and private LAN hosts are allowed.
pub fn validate_backend_url(raw: &str) -> (r: NetRailResult<String>)
    ensures
        match backend_url_verdict(raw@, false) {
            Ok(s) => r matches Ok(v) && v@ == s,
            Err(x) => r matches Err(e) && is_backend_url_error(e, x),
        },
{
    validate_backend_url_with_options(raw, false)
}

/// Refuses rebinding and metadata hosts, unspecified and link-local addresses,
/// and with `strict` also loopback and private addresses.
pub fn block_backend_host(host: &str, strict: bool) -> (r: NetRailResult<()>)
    ensures
        match backend_host_refusal(host@, strict) {
            Some(x) => r matches Err(e) && is_backend_url_error(e, x),
            None => r is Ok,
        },
{
    let hv = chars_of(host);
    let h = normalize_host_chars(hv.as_slice());
    if is_dns_rebinding_helper(h.as_slice()) {
        return Err(
            backend_url_error(
                "BACKEND_URL_DNS_REBINDING",
                "DNS rebinding hostnames are not allowed in backend URLs.",
            ),
        );
    }
    if is_cloud_metadata_host(h.as_slice()) {
        return Err(
            backend_url_error(
                "BACKEND_URL_CLOUD_METADATA",
                "Cloud metadata addresses cannot be used as backend URLs.",
            ),
        );
    }
    if strict && is_localhost_name(h.as_slice()) {
        return Err(
            backend_url_error(
                "BACKEND_URL_STRICT_PRIVATE",
                "strict_backend_urls rejects localhost backends.",
            ),
        );
    }
    if let Some(ip) = parse_host_ip(h.as_slice()) {
        if is_cloud_metadata_ip(ip) {
            return Err(
                backend_url_error(
                    "BACKEND_URL_CLOUD_METADATA",
                    "Cloud metadata addresses cannot be used as backend URLs.",
                ),
            );
        }
        if is_unspecified(&ip) || is_link_local(&ip) {
            return Err(
                backend_url_error(
                    "BACKEND_URL_LINK_LOCAL",
                    "Unspecified or link-local addresses cannot be used as backend URLs.",
                ),
            );
        }
        if strict && (is_non_public(&ip) || is_loopback(&ip)) {
            return Err(
                backend_url_error(
                    "BACKEND_URL_STRICT_PRIVATE",
                    "strict_backend_urls rejects private/loopback backend hosts.",
                ),
            );
        }
    }
    Ok(())
}

/// Validates a backend URL; `strict` also refuses loopback and private hosts.
pub fn validate_backend_url_with_options(raw: &str, strict: bool) -> (r: NetRailResult<String>)
    ensures
        match backend_url_verdict(raw@, strict) {
            Ok(s) => r matches Ok(v) && v@ == s,
            Err(x) => r matches Err(e) && is_backend_url_error(e, x),
        },
{
    let v = chars_of(raw);
    let t = trim_exec(v.as_slice());
    if t.len() == 0 {
        return Err(backend_url_error("BACKEND_URL_EMPTY", "Backend URL cannot be empty."));
    }
    let trimmed = string_of(t.as_slice());
    let parsed: UrlParts = match parse_url(trimmed.as_str()) {
        Some(p) => p,
        None => {
            return Err(backend_url_error("BACKEND_URL_INVALID", "Invalid backend URL."));
        },
    };
    let scheme = chars_of(parsed.scheme.as_str());
    if !eq_str(scheme.as_slice(), "http") && !eq_str(scheme.as_slice(), "https") {
        return Err(
            backend_url_error(
                "BACKEND_URL_INVALID_SCHEME",
                "Backend URL must use http:// or https://.",
            ),
        );
    }
    if !parsed.username.as_str().is_empty() || parsed.has_password {
        return Err(
            backend_url_error(
                "BACKEND_URL_CREDENTIALS",
                "Backend URLs with embedded credentials are not allowed.",
            ),
        );
    }
    match &parsed.host {
        None => Err(backend_url_error("BACKEND_URL_NO_HOST", "Backend URL must include a host.")),
        Some(host) => {
            block_backend_host(host.as_str(), strict)?;
            Ok(trimmed)
        },
    }
}

/// Rejects a host whose DNS answers are empty (fail closed) or include any
/// address that may not be opened.
pub fn check_resolved_host(host: &str, ips: &[IpAddress]) -> (r: NetRailResult<()>)
    ensures
        match resolved_verdict(host@, ips_view(ips@)) {
            Some(x) => r matches Err(e) && is_open_url_error(e, x),
            None => r is Ok,
        },
{
    let ghost views = ips_view(ips@);
    if ips.len() == 0 {
        let mut msg = String::from_str("Could not resolve host ");
        msg.append(host);
        msg.append(".");
        return Err(NetRailError::InvalidOpenUrl { code: "OPEN_URL_DNS_UNRESOLVABLE", message: msg });
    }
    let mut i: usize = 0;
    assert(views.skip(0) =~= views);
    while i < ips.len()
        invariant
            i <= ips@.len(),
            views == ips_view(ips@),
            views.len() > 0,
            resolved_refusal(views) == resolved_refusal(views.skip(i as int)),
        decreases ips.len() - i,
    {
        assert(views.skip(i as int)[0] == ips@[i as int]@);
        assert(views.skip(i as int).drop_first() =~= views.skip(i + 1));
        block_ip(&ips[i])?;
        i = i + 1;
    }
    Ok(())
}

/// Pins a validated URL to its current DNS answers before a browser opens it:
/// IP-literal hosts were checked already; other hosts are resolved with
/// `resolve` and every answer must be a public address.
pub fn pin_open_host<F: Fn(&str) -> Vec<IpAddress>>(safe_url: &str, resolve: F) -> (r:
    NetRailResult<()>)
    requires
        forall|h: &str| #[trigger] resolve.requires((h,)),
    ensures
        match pin_target(safe_url@) {
            Err(x) => r matches Err(e) && is_open_url_error(e, x),
            Ok(None) => r is Ok,
            Ok(Some(h)) => exists|arg: &str, ips: Vec<IpAddress>|
                #![trigger resolve.ensures((arg,), ips)]
                arg@ == h && resolve.ensures((arg,), ips) && match resolved_verdict(
                    h,
                    ips_view(ips@),
                ) {
                    Some(x) => r matches Err(e) && is_open_url_error(e, x),
                    None => r is Ok,
                },
        },
{
    let parsed: UrlParts = match parse_url(safe_url) {
        Some(p) => p,
        None => {
            return Err(open_url_error("OPEN_URL_INVALID", "Invalid URL."));
        },
    };
    match &parsed.host {
        None => Ok(()),
        Some(host) => {
            let hv = chars_of(host.as_str());
            let hl = normalize_host_chars(hv.as_slice());
            if parse_host_ip(hl.as_slice()).is_some() {
                return Ok(());
            }
            let hs = string_of(hl.as_slice());
            let ips = resolve(hs.as_str());
            check_resolved_host(hs.as_str(), ips.as_slice())
        },
    }
}

// ---------------------------------------------------------------------------
// Laws
// ---------------------------------------------------------------------------

/// A URL that passes open-URL validation is an `http`/`https` URL without
/// credentials whose host is neither local, a rebinding or metadata name, nor
/// a non-public address.
pub proof fn lemma_accepted_open_url_is_safe(raw: Seq<char>, depth: nat)
    ensures
        open_url_verdict(raw, depth) matches Ok(s) ==> {
            &&& parsed_url(s) matches Some(u)
            &&& (u.scheme == "http"@ || u.scheme == "https"@)
            &&& u.username.len() == 0
            &&& !u.has_password
            &&& u.host matches Some(h)
            &&& host_refusal(h) is None
        },
    decreases 6 - depth,
{
    if depth <= 5 {
        if let Some(u) = parsed_url(raw) {
            if let Some(host) = u.host {
                let wrapped = first_pair_value(u.query_pairs, "uddg"@);
                if ddg_host(trim_end_char(lowercase(host), '.')) && wrapped is Some {
                    lemma_accepted_open_url_is_safe(wrapped->0, depth + 1);
                }
            }
        }
    }
}

/// Validating an accepted URL again, from the top, accepts it unchanged.
pub proof fn lemma_accepted_open_url_revalidates(raw: Seq<char>, depth: nat)
    ensures
        open_url_verdict(raw, depth) matches Ok(s) ==> open_url_verdict(s, 0) == Ok::<
            Seq<char>,
            (Seq<char>, Seq<char>),
        >(s),
    decreases 6 - depth,
{
    if depth <= 5 {
        if let Some(u) = parsed_url(raw) {
            if let Some(host) = u.host {
                let wrapped = first_pair_value(u.query_pairs, "uddg"@);
                if ddg_host(trim_end_char(lowercase(host), '.')) && wrapped is Some {
                    lemma_accepted_open_url_revalidates(wrapped->0, depth + 1);
                }
            }
        }
    }
}

/// The strict backend policy only refuses more: a URL it accepts is accepted,
/// unchanged, by the permissive policy.
pub proof fn lemma_strict_backend_refuses_more(raw: Seq<char>)
    ensures
        backend_url_verdict(raw, true) is Ok ==> backend_url_verdict(raw, false)
            == backend_url_verdict(raw, true),
{
}

/// Loopback and private addresses are refused as strict backend hosts; the
/// permissive policy lets localhost and LAN backends through.
pub proof fn lemma_strict_backend_refuses_private(host: Seq<char>)
    ensures
        host_ip(normalized_host(host)) matches Some(ip) && !cloud_metadata_ip(ip)
            && !ip_unspecified(ip) && !ip_link_local(ip) && (ip_loopback(ip) || ip_non_public(ip))
            && !rebinding_host(normalized_host(host)) && !metadata_host(normalized_host(host))
            ==> backend_host_refusal(host, true) is Some && backend_host_refusal(host, false)
            is None,
{
}

/// DNS pinning fails closed: a host is accepted exactly when it resolved to at
/// least one address and every address may be opened.
pub proof fn lemma_resolved_verdict_fail_closed(host: Seq<char>, ips: Seq<IpView>)
    ensures
        resolved_verdict(host, ips) is None <==> (ips.len() > 0 && forall|i: int|
            0 <= i < ips.len() ==> #[trigger] ip_refusal(ips[i]) is None),
{
    lemma_resolved_refusal_none(ips);
}

proof fn lemma_resolved_refusal_none(ips: Seq<IpView>)
    ensures
        resolved_refusal(ips) is None <==> (forall|i: int|
            0 <= i < ips.len() ==> #[trigger] ip_refusal(ips[i]) is None),
    decreases ips.len(),
{
    if ips.len() > 0 {
        lemma_resolved_refusal_none(ips.drop_first());
        if ip_refusal(ips[0]) is None && resolved_refusal(ips.drop_first()) is None {
            assert forall|i: int| 0 <= i < ips.len() implies #[trigger] ip_refusal(ips[i]) is None by {
                if i > 0 {
                    assert(ips[i] == ips.drop_first()[i - 1]);
                }
            }
        }
        if (forall|i: int| 0 <= i < ips.len() ==> #[trigger] ip_refusal(ips[i]) is None) {
            assert(ip_refusal(ips[0]) is None);
            assert forall|i: int| 0 <= i < ips.len() - 1 implies #[trigger] ip_refusal(
                ips.drop_first()[i],
            ) is None by {
                assert(ips.drop_first()[i] == ips[i + 1]);
            }
        }
    }
}

/// Normalizing an ASCII host twice gives what normalizing it once gives.
pub proof fn lemma_normalize_host_idempotent(host: Seq<char>)
    requires
        is_ascii_chars(host),
    ensures
        normalized_host(normalized_host(host)) == normalized_host(host),
{
    let t = trim_end_char(host, '.');
    lemma_trim_end_by_is_prefix(host, char_pred('.'));
    assert(is_ascii_chars(t)) by {
        assert forall|i: int| 0 <= i < t.len() implies '\0' <= #[trigger] t[i] <= '\u{7f}' by {
            assert(t[i] == host[i]);
        }
    }
    let l = t.map_values(|c: char| ascii_lower_char(c));
    assert(normalized_host(host) == l);
    lemma_trim_end_last(host, char_pred('.'));
    assert(l.len() > 0 ==> l.last() != '.');
    assert(trim_end_char(l, '.') == l) by {
        lemma_trim_end_take(l, char_pred('.'), l.len() as int);
        assert(l.take(l.len() as int) =~= l);
    }
    assert(is_ascii_chars(l)) by {
        assert forall|i: int| 0 <= i < l.len() implies '\0' <= #[trigger] l[i] <= '\u{7f}' by {
            lemma_char_nonneg(l[i]);
            assert(t[i] <= '\u{7f}');
        }
    }
    let ll = l.map_values(|c: char| ascii_lower_char(c));
    assert(ll =~= l);
}

/// The content security policy served with every response.
pub const CSP: &'static str = "default-src 'self'; script-src 'self' 'sha256-aN9klVksJOk4OThOcI2OMlo7DsWPc+W7cPY4E+ODbD8='; style-src 'self' 'unsafe-inline'; img-src 'self' https: data:; connect-src 'self'; upgrade-insecure-requests; frame-ancestors 'none'; base-uri 'self'; form-action 'self'";

/// The private IPv4 space is exactly `10.0.0.0/8`, `172.16.0.0/12` and
/// `192.168.0.0/16`: an address there is refused as private, and an address
/// whose first octet is 172 is refused only when its second octet is in
/// 16..=31 (so `172.217.x.x` may be opened).
pub proof fn lemma_v4_private_ranges(o: Seq<u8>)
    requires
        o.len() == 4,
    ensures
        o[0] == 10 ==> ip_refusal(IpView::V4(o)) == Some(open_private()),
        o[0] == 192 && o[1] == 168 ==> ip_refusal(IpView::V4(o)) == Some(open_private()),
        o[0] == 172 && 16 <= o[1] <= 31 ==> ip_refusal(IpView::V4(o)) == Some(open_private()),
        o[0] == 172 && !(16 <= o[1] <= 31) ==> ip_refusal(IpView::V4(o)) is None,
        o[0] == 172 ==> (ip_non_public(IpView::V4(o)) <==> 16 <= o[1] <= 31),
{
}

} // verus!

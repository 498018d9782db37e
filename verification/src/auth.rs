//! The localhost API token (`NETRAIL_API_TOKEN`): when one is configured,
//! `/api/*` except `/api/health` needs `Authorization: Bearer <token>` or
//! `X-NetRail-Token: <token>`. The environment is read by the caller and its
//! value handed in.
use crate::error::NetRailError;
use crate::security::CSP;
use crate::text::{
    ascii_lower_char, ascii_lower_char_exec, chars_of, eq_str, find, find_exec, replace,
    replace_exec, slice_of, starts_with, starts_with_str, string_of, trim, trim_exec,
};
use base64::Engine;
use sha2::Digest;
use vstd::prelude::*;

verus! {

// ---------------------------------------------------------------------------
// Digests
// ---------------------------------------------------------------------------

/// The name for the SHA-256 digest of bytes (`sha2::Sha256::digest`).
pub uninterp spec fn sha256(data: Seq<u8>) -> Seq<u8>;

/// The SHA-256 digest of the UTF-8 encoding of a text.
pub open spec fn sha256_utf8(text: Seq<char>) -> Seq<u8> {
    sha256(vstd::utf8::encode_utf8(text))
}

/// `sha2::Sha256::digest`; a SHA-256 digest is 32 bytes.
#[verifier::external_body]
fn sha256_bytes(data: &[u8]) -> (r: Vec<u8>)
    ensures
        r@ == sha256(data@),
        r@.len() == 32,
{
    sha2::Sha256::digest(data).to_vec()
}

fn sha256_digest(text: &str) -> (r: Vec<u8>)
    ensures
        r@ == sha256_utf8(text@),
        r@.len() == 32,
{
    sha256_bytes(text.as_bytes())
}

/// The name for the standard (padded) base64 encoding of bytes.
pub uninterp spec fn base64_standard(data: Seq<u8>) -> Seq<char>;

/// `base64::engine::general_purpose::STANDARD.encode`.
#[verifier::external_body]
fn base64_encode(data: &[u8]) -> (r: String)
    ensures
        r@ == base64_standard(data@),
{
    base64::engine::general_purpose::STANDARD.encode(data)
}

/// Whether two texts have the same SHA-256 digest.
pub open spec fn same_digest(a: Seq<char>, b: Seq<char>) -> bool {
    sha256_utf8(a) == sha256_utf8(b)
}

/// Compares the digests of the two texts byte by byte without stopping early.
fn constant_time_eq(a: &str, b: &str) -> (r: bool)
    ensures
        r == same_digest(a@, b@),
{
    let da = sha256_digest(a);
    let db = sha256_digest(b);
    let mut acc: u8 = 0;
    let mut i: usize = 0;
    while i < 32
        invariant
            i <= 32,
            da@.len() == 32,
            db@.len() == 32,
            (acc == 0) == (forall|k: int| 0 <= k < i ==> da@[k] == db@[k]),
        decreases 32 - i,
    {
        let x = da[i];
        let y = db[i];
        let next = acc | (x ^ y);
        assert((next == 0) == (acc == 0 && x == y)) by (bit_vector)
            requires
                next == acc | (x ^ y),
        ;
        acc = next;
        i = i + 1;
    }
    proof {
        if acc == 0 {
            assert(da@ =~= db@);
        }
    }
    acc == 0
}

// ---------------------------------------------------------------------------
// The token
// ---------------------------------------------------------------------------

/// The configured token: the variable's value trimmed, when not blank.
pub open spec fn configured_token(raw: Option<Seq<char>>) -> Option<Seq<char>> {
    match raw {
        Some(v) => if trim(v).len() > 0 {
            Some(trim(v))
        } else {
            None
        },
        None => None,
    }
}

pub open spec fn opt_s(o: Option<&str>) -> Option<Seq<char>> {
    match o {
        Some(s) => Some(s@),
        None => None,
    }
}

pub open spec fn opt_string(o: Option<String>) -> Option<Seq<char>> {
    match o {
        Some(s) => Some(s@),
        None => None,
    }
}

/// The API token from the value of `NETRAIL_API_TOKEN`.
pub fn api_token_from_value(raw: Option<&str>) -> (r: Option<String>)
    ensures
        opt_string(r) == configured_token(opt_s(raw)),
{
    match raw {
        Some(v) => {
            let t = trim_exec(chars_of(v).as_slice());
            if t.len() > 0 {
                Some(string_of(t.as_slice()))
            } else {
                None
            }
        },
        None => None,
    }
}

/// Whether requests need the token.
pub fn token_required(env_token: Option<&str>) -> (r: bool)
    ensures
        r == configured_token(opt_s(env_token)) is Some,
{
    api_token_from_value(env_token).is_some()
}

/// `s` without the prefix `p`, when it starts with it.
pub open spec fn strip_prefix(s: Seq<char>, p: Seq<char>) -> Option<Seq<char>> {
    if starts_with(s, p) {
        Some(s.skip(p.len() as int))
    } else {
        None
    }
}

/// The token of an `Authorization` header: what follows `Bearer ` or
/// `bearer ` in the trimmed header.
pub open spec fn bearer_of(auth: Seq<char>) -> Option<Seq<char>> {
    let a = trim(auth);
    match strip_prefix(a, "Bearer "@) {
        Some(b) => Some(b),
        None => strip_prefix(a, "bearer "@),
    }
}

fn bearer_exec(auth: &str) -> (r: Option<Vec<char>>)
    ensures
        match r {
            Some(b) => bearer_of(auth@) == Some(b@),
            None => bearer_of(auth@) is None,
        },
{
    proof {
        reveal_strlit("Bearer ");
        reveal_strlit("bearer ");
    }
    let a = trim_exec(chars_of(auth).as_slice());
    if starts_with_str(a.as_slice(), "Bearer ") {
        let b = slice_of(a.as_slice(), 7, a.len());
        assert(b@ =~= a@.skip(7));
        Some(b)
    } else if starts_with_str(a.as_slice(), "bearer ") {
        let b = slice_of(a.as_slice(), 7, a.len());
        assert(b@ =~= a@.skip(7));
        Some(b)
    } else {
        None
    }
}

/// Whether the request's credentials carry the expected token.
pub open spec fn credentials_match(
    expected: Seq<char>,
    auth: Option<Seq<char>>,
    x_token: Option<Seq<char>>,
) -> bool {
    (match auth {
        Some(a) => match bearer_of(a) {
            Some(b) => same_digest(trim(b), expected),
            None => false,
        },
        None => false,
    }) || (match x_token {
        Some(t) => same_digest(trim(t), expected),
        None => false,
    })
}

/// Whether a request is let through: always without a configured token,
/// else when its credentials carry it.
pub open spec fn request_allowed(
    env_token: Option<Seq<char>>,
    auth: Option<Seq<char>>,
    x_token: Option<Seq<char>>,
) -> bool {
    match configured_token(env_token) {
        None => true,
        Some(expected) => credentials_match(expected, auth, x_token),
    }
}

/// Checks a request's credentials against the configured token; a refusal is
/// `AUTH_REQUIRED` (HTTP 401).
pub fn check_request_token(
    env_token: Option<&str>,
    auth_header: Option<&str>,
    x_token: Option<&str>,
) -> (r: Result<(), NetRailError>)
    ensures
        r is Ok <==> request_allowed(opt_s(env_token), opt_s(auth_header), opt_s(x_token)),
        r matches Err(e) ==> e.code_view() == "AUTH_REQUIRED"@ && e.status_view() == 401
            && e.detail_view() == "Unauthorized: "@ + "Valid NETRAIL_API_TOKEN required (Authorization: Bearer or X-NetRail-Token)."@,
{
    let expected = match api_token_from_value(env_token) {
        None => {
            return Ok(());
        },
        Some(t) => t,
    };
    let mut ok = false;
    if let Some(auth) = auth_header {
        if let Some(b) = bearer_exec(auth) {
            let bt = string_of(trim_exec(b.as_slice()).as_slice());
            if constant_time_eq(bt.as_str(), expected.as_str()) {
                ok = true;
            }
        }
    }
    if !ok {
        if let Some(tok) = x_token {
            let tt = string_of(trim_exec(chars_of(tok).as_slice()).as_slice());
            if constant_time_eq(tt.as_str(), expected.as_str()) {
                ok = true;
            }
        }
    }
    if ok {
        Ok(())
    } else {
        Err(
            NetRailError::Unauthorized {
                code: "AUTH_REQUIRED",
                message: String::from_str(
                    "Valid NETRAIL_API_TOKEN required (Authorization: Bearer or X-NetRail-Token).",
                ),
            },
        )
    }
}

/// The token a request presents: the bearer token if the `Authorization`
/// header carries one, else the `X-NetRail-Token` header, trimmed.
pub open spec fn presented_token(auth: Option<Seq<char>>, x_token: Option<Seq<char>>) -> Option<
    Seq<char>,
> {
    match (match auth {
        Some(a) => bearer_of(a),
        None => None,
    }) {
        Some(b) => Some(trim(b)),
        None => match x_token {
            Some(t) => Some(trim(t)),
            None => None,
        },
    }
}

/// The rate-limit bucket of a request: `token:` and the base64 SHA-256 of the
/// presented token when token auth is on, else `anonymous`.
pub open spec fn identity_of(
    env_token: Option<Seq<char>>,
    auth: Option<Seq<char>>,
    x_token: Option<Seq<char>>,
) -> Seq<char> {
    if configured_token(env_token) is None {
        "anonymous"@
    } else {
        match presented_token(auth, x_token) {
            Some(t) => if t.len() > 0 {
                "token:"@ + base64_standard(sha256_utf8(t))
            } else {
                "anonymous"@
            },
            None => "anonymous"@,
        }
    }
}

/// Stable per-client bucket key for rate limiting; never the token itself.
pub fn client_identity(env_token: Option<&str>, auth_header: Option<&str>, x_token: Option<&str>) -> (r:
    String)
    ensures
        r@ == identity_of(opt_s(env_token), opt_s(auth_header), opt_s(x_token)),
{
    if api_token_from_value(env_token).is_none() {
        return String::from_str("anonymous");
    }
    let bearer: Option<Vec<char>> = match auth_header {
        Some(a) => bearer_exec(a),
        None => None,
    };
    let token: Option<Vec<char>> = match bearer {
        Some(b) => Some(trim_exec(b.as_slice())),
        None => match x_token {
            Some(t) => Some(trim_exec(chars_of(t).as_slice())),
            None => None,
        },
    };
    match token {
        Some(t) => {
            if t.len() > 0 {
                let ts = string_of(t.as_slice());
                let digest = sha256_digest(ts.as_str());
                let encoded = base64_encode(digest.as_slice());
                let mut out = chars_of("token:");
                let mut e = chars_of(encoded.as_str());
                out.append(&mut e);
                proof {
                    reveal_strlit("token:");
                }
                string_of(out.as_slice())
            } else {
                String::from_str("anonymous")
            }
        },
        None => String::from_str("anonymous"),
    }
}

/// Whether a request path needs the token: `/api/*` except `/api/health`,
/// and only when a token is configured.
pub open spec fn path_needs_token(env_token: Option<Seq<char>>, path: Seq<char>) -> bool {
    configured_token(env_token) is Some && path != "/api/health"@ && starts_with(path, "/api/"@)
}

pub fn path_requires_token(env_token: Option<&str>, path: &str) -> (r: bool)
    ensures
        r == path_needs_token(opt_s(env_token), path@),
{
    if !token_required(env_token) {
        return false;
    }
    let p = chars_of(path);
    if eq_str(p.as_slice(), "/api/health") {
        return false;
    }
    starts_with_str(p.as_slice(), "/api/")
}

/// The text with ASCII letters lowercased (`eq_ignore_ascii_case`).
pub open spec fn ascii_lowered(s: Seq<char>) -> Seq<char> {
    s.map_values(|c: char| ascii_lower_char(c))
}

fn ascii_lowered_exec(s: &str) -> (r: Vec<char>)
    ensures
        r@ == ascii_lowered(s@),
{
    let v = chars_of(s);
    let mut out: Vec<char> = Vec::new();
    let mut i: usize = 0;
    while i < v.len()
        invariant
            i <= v@.len(),
            v@ == s@,
            out@ == ascii_lowered(v@).take(i as int),
        decreases v.len() - i,
    {
        let c = ascii_lower_char_exec(v[i]);
        out.push(c);
        assert(ascii_lowered(v@).take(i + 1) =~= ascii_lowered(v@).take(i as int).push(c));
        i = i + 1;
    }
    assert(ascii_lowered(v@).take(v@.len() as int) =~= ascii_lowered(v@));
    out
}

/// Whether a configured token is injected into the UI page: only with a
/// token, and unless `NETRAIL_INJECT_UI_TOKEN` is `0` or `false`.
pub open spec fn inject_wanted(env_token: Option<Seq<char>>, inject: Option<Seq<char>>) -> bool {
    configured_token(env_token) is Some && match inject {
        Some(v) => v != "0"@ && ascii_lowered(v) != "false"@,
        None => true,
    }
}

pub fn inject_ui_token(env_token: Option<&str>, inject_env: Option<&str>) -> (r: bool)
    ensures
        r == inject_wanted(opt_s(env_token), opt_s(inject_env)),
{
    if api_token_from_value(env_token).is_none() {
        return false;
    }
    match inject_env {
        Some(v) => {
            let c = chars_of(v);
            let l = ascii_lowered_exec(v);
            !eq_str(c.as_slice(), "0") && !eq_str(l.as_slice(), "false")
        },
        None => true,
    }
}

/// The headless startup gate: a missing `NETRAIL_API_TOKEN` stops the process
/// with exit code 1; a set one (even blank, which runs without
/// authentication) lets it bind.
pub fn headless_token_gate(raw: Option<&str>) -> (r: Result<(), i32>)
    ensures
        r == (match raw {
            Some(_) => Ok::<(), i32>(()),
            None => Err::<(), i32>(1),
        }),
{
    match raw {
        Some(_) => Ok(()),
        None => Err(1),
    }
}

// ---------------------------------------------------------------------------
// Token injection into the UI page
// ---------------------------------------------------------------------------

/// The token escaped for a JavaScript string in double quotes.
pub open spec fn js_escaped(token: Seq<char>) -> Seq<char> {
    replace(replace(token, "\\"@, "\\\\"@), "\""@, "\\\""@)
}

/// The script that sets the token.
pub open spec fn token_script(token: Seq<char>) -> Seq<char> {
    "window.NETRAIL_API_TOKEN=\""@ + js_escaped(token) + "\";"@
}

/// The `<script>` element and the CSP source that allows exactly it.
pub open spec fn script_parts(token: Seq<char>) -> (Seq<char>, Seq<char>) {
    let content = token_script(token);
    (
        "<script>"@ + content + "</script>"@,
        "'sha256-"@ + base64_standard(sha256_utf8(content)) + "'"@,
    )
}

fn cat(a: &[char], b: &[char]) -> (r: Vec<char>)
    ensures
        r@ == a@ + b@,
{
    let mut v = slice_of(a, 0, a.len());
    let mut w = slice_of(b, 0, b.len());
    v.append(&mut w);
    assert(v@ =~= a@ + b@);
    v
}

fn cat3(a: &str, b: &[char], c: &str) -> (r: Vec<char>)
    ensures
        r@ == a@ + b@ + c@,
{
    let x = cat(chars_of(a).as_slice(), b);
    cat(x.as_slice(), chars_of(c).as_slice())
}

/// The inline token script and its CSP hash.
pub fn token_script_parts(token: &str) -> (r: (String, String))
    ensures
        (r.0@, r.1@) == script_parts(token@),
{
    proof {
        reveal_strlit("\\");
        reveal_strlit("\"");
    }
    let t = chars_of(token);
    let bs = chars_of("\\");
    let bs2 = chars_of("\\\\");
    let q = chars_of("\"");
    let q2 = chars_of("\\\"");
    let e1 = replace_exec(t.as_slice(), bs.as_slice(), bs2.as_slice());
    let escaped = replace_exec(e1.as_slice(), q.as_slice(), q2.as_slice());
    let content = cat3("window.NETRAIL_API_TOKEN=\"", escaped.as_slice(), "\";");
    let snippet = cat3("<script>", content.as_slice(), "</script>");
    let cs = string_of(content.as_slice());
    let digest = sha256_digest(cs.as_str());
    let b64 = base64_encode(digest.as_slice());
    let hash = cat3("'sha256-", chars_of(b64.as_str()).as_slice(), "'");
    (string_of(snippet.as_slice()), string_of(hash.as_slice()))
}

/// The page with the token script put before `</head>` (or in front, without
/// one), and the CSP source for it; the page unchanged without injection.
pub open spec fn injected(html: Seq<char>, env_token: Option<Seq<char>>, inject: Option<Seq<char>>) -> (
    Seq<char>,
    Option<Seq<char>>,
) {
    if !inject_wanted(env_token, inject) {
        (html, None)
    } else {
        let parts = script_parts(configured_token(env_token).unwrap());
        match find(html, "</head>"@) {
            Some(idx) => (html.take(idx) + parts.0 + html.skip(idx), Some(parts.1)),
            None => (parts.0 + html, Some(parts.1)),
        }
    }
}

pub fn inject_token_script(html: &str, env_token: Option<&str>, inject_env: Option<&str>) -> (r: (
    String,
    Option<String>,
))
    ensures
        (r.0@, opt_string(r.1)) == injected(html@, opt_s(env_token), opt_s(inject_env)),
{
    if !inject_ui_token(env_token, inject_env) {
        return (String::from_str(html), None);
    }
    let token = api_token_from_value(env_token).unwrap();
    let (snippet, hash) = token_script_parts(token.as_str());
    let h = chars_of(html);
    let head = chars_of("</head>");
    let sn = chars_of(snippet.as_str());
    let hlen = h.len();
    match find_exec(h.as_slice(), head.as_slice()) {
        Some(idx) => {
            proof {
                crate::text::lemma_find_from_some(h@, head@, 0);
            }
            let before = slice_of(h.as_slice(), 0, idx);
            let after = slice_of(h.as_slice(), idx, hlen);
            let x = cat(before.as_slice(), sn.as_slice());
            let y = cat(x.as_slice(), after.as_slice());
            (string_of(y.as_slice()), Some(hash))
        },
        None => {
            let y = cat(sn.as_slice(), h.as_slice());
            (string_of(y.as_slice()), Some(hash))
        },
    }
}

/// The security policy with `csp_hash` added to `script-src 'self'`.
pub open spec fn csp_with_hash(csp_hash: Seq<char>) -> Seq<char> {
    replace(CSP@, "script-src 'self'"@, "script-src 'self' "@ + csp_hash)
}

pub fn csp_with_script_hash(csp_hash: &str) -> (r: String)
    ensures
        r@ == csp_with_hash(csp_hash@),
{
    proof {
        reveal_strlit("script-src 'self'");
    }
    let c = chars_of(CSP);
    let from = chars_of("script-src 'self'");
    let to = cat(chars_of("script-src 'self' ").as_slice(), chars_of(csp_hash).as_slice());
    let r = replace_exec(c.as_slice(), from.as_slice(), to.as_slice());
    string_of(r.as_slice())
}

// ---------------------------------------------------------------------------
// Laws
// ---------------------------------------------------------------------------

/// Without a configured token every request is let through.
pub proof fn lemma_no_token_allows_all(
    env_token: Option<Seq<char>>,
    auth: Option<Seq<char>>,
    x_token: Option<Seq<char>>,
)
    requires
        configured_token(env_token) is None,
    ensures
        request_allowed(env_token, auth, x_token),
        !path_needs_token(env_token, "/api/search"@),
{
}

/// The configured token, sent as `X-NetRail-Token`, is accepted.
pub proof fn lemma_configured_token_accepted(raw: Seq<char>, auth: Option<Seq<char>>)
    requires
        trim(raw).len() > 0,
    ensures
        request_allowed(Some(raw), auth, Some(raw)),
{
}

/// `/api/health` never needs the token.
pub proof fn lemma_health_exempt(env_token: Option<Seq<char>>)
    ensures
        !path_needs_token(env_token, "/api/health"@),
{
}

// ---------------------------------------------------------------------------
// Settings versions
// ---------------------------------------------------------------------------

/// The strong ETag of the canonical settings JSON: its base64 SHA-256 in
/// double quotes.
pub open spec fn etag_of(json: Seq<u8>) -> Seq<char> {
    seq!['"'] + base64_standard(sha256(json)) + seq!['"']
}

pub fn settings_etag(settings_json: &[u8]) -> (r: String)
    ensures
        r@ == etag_of(settings_json@),
{
    let d = sha256_bytes(settings_json);
    let e = base64_encode(d.as_slice());
    let q: Vec<char> = vec!['"'];
    let x = cat(q.as_slice(), chars_of(e.as_str()).as_slice());
    let y = cat(x.as_slice(), q.as_slice());
    assert(q@ =~= seq!['"']);
    string_of(y.as_slice())
}

/// A settings write with `If-Match` must name the current version; a
/// mismatch is `SETTINGS_CONFLICT` (HTTP 409).
pub fn check_if_match(if_match: Option<&str>, current_etag: &str) -> (r: Result<(), NetRailError>)
    ensures
        r is Ok <==> (match if_match {
            Some(m) => trim(m@) == current_etag@,
            None => true,
        }),
        r matches Err(e) ==> e.code_view() == "SETTINGS_CONFLICT"@ && e.status_view() == 409
            && e.detail_view() == "Conflict: "@ + "Settings changed since read (ETag mismatch). Re-fetch and retry."@,
{
    if let Some(m) = if_match {
        let t = trim_exec(chars_of(m).as_slice());
        let c = chars_of(current_etag);
        if !crate::text::chars_eq(t.as_slice(), c.as_slice()) {
            return Err(
                NetRailError::Conflict {
                    code: "SETTINGS_CONFLICT",
                    message: String::from_str(
                        "Settings changed since read (ETag mismatch). Re-fetch and retry.",
                    ),
                },
            );
        }
    }
    Ok(())
}

} // verus!

//! Settings: their defaults, their validation and the environment overrides.
use crate::error::{
    backend_url_error, config_error, is_backend_url_error, is_config_error, NetRailError,
    NetRailResult,
};
use crate::security::{backend_url_verdict, validate_backend_url};
use crate::text::{chars_of, eq_str, lowercase, lowercase_exec, string_of, trim};
use crate::ip::{from_str_radix, from_str_radix_exec};
use crate::urlparts::{find_pair, first_pair_value, pair_view};
use vstd::prelude::*;

verus! {

pub const VERSION: &'static str = "1.1.0";

pub const HOST: &'static str = "127.0.0.1";

pub const PORT: u16 = 7421;

/// One configured search backend.
#[derive(Debug)]
pub struct BackendConfig {
    pub id: String,
    pub enabled: bool,
    pub url: Option<String>,
    /// Name of the environment variable that holds the API key; the key itself
    /// is never stored in the settings.
    pub api_key_env: Option<String>,
}

pub struct BackendConfigView {
    pub id: Seq<char>,
    pub enabled: bool,
    pub url: Option<Seq<char>>,
    pub api_key_env: Option<Seq<char>>,
}

pub open spec fn opt_str_view(o: Option<String>) -> Option<Seq<char>> {
    match o {
        Some(s) => Some(s@),
        None => None,
    }
}

impl View for BackendConfig {
    type V = BackendConfigView;

    open spec fn view(&self) -> BackendConfigView {
        BackendConfigView {
            id: self.id@,
            enabled: self.enabled,
            url: opt_str_view(self.url),
            api_key_env: opt_str_view(self.api_key_env),
        }
    }
}

pub fn copy_opt(o: &Option<String>) -> (r: Option<String>)
    ensures
        opt_str_view(r) == opt_str_view(*o),
{
    match o {
        Some(s) => Some(s.clone()),
        None => None,
    }
}

impl BackendConfig {
    /// A field-by-field copy.
    pub fn duplicate(&self) -> (r: BackendConfig)
        ensures
            r@ == self@,
    {
        BackendConfig {
            id: self.id.clone(),
            enabled: self.enabled,
            url: copy_opt(&self.url),
            api_key_env: copy_opt(&self.api_key_env),
        }
    }
}

impl Clone for BackendConfig {
    fn clone(&self) -> Self {
        self.duplicate()
    }
}

/// The user's settings.
#[derive(Debug)]
pub struct Settings {
    pub browser_id: Option<String>,
    pub private_mode: bool,
    pub max_results: u32,
    pub backend_order: Vec<String>,
    pub ddgs_enabled: bool,
    pub searxng_url: Option<String>,
    pub brave_enabled: bool,
    pub search_strategy: String,
    pub backends: Vec<BackendConfig>,
    pub history_enabled: bool,
    pub history_encrypt: bool,
    pub history_ttl_days: u32,
}

pub struct SettingsView {
    pub browser_id: Option<Seq<char>>,
    pub private_mode: bool,
    pub max_results: u32,
    pub backend_order: Seq<Seq<char>>,
    pub ddgs_enabled: bool,
    pub searxng_url: Option<Seq<char>>,
    pub brave_enabled: bool,
    pub search_strategy: Seq<char>,
    pub backends: Seq<BackendConfigView>,
    pub history_enabled: bool,
    pub history_encrypt: bool,
    pub history_ttl_days: u32,
}

pub open spec fn strings_view(v: Seq<String>) -> Seq<Seq<char>> {
    v.map_values(|s: String| s@)
}

pub open spec fn configs_view(v: Seq<BackendConfig>) -> Seq<BackendConfigView> {
    v.map_values(|b: BackendConfig| b@)
}

impl View for Settings {
    type V = SettingsView;

    open spec fn view(&self) -> SettingsView {
        SettingsView {
            browser_id: opt_str_view(self.browser_id),
            private_mode: self.private_mode,
            max_results: self.max_results,
            backend_order: strings_view(self.backend_order@),
            ddgs_enabled: self.ddgs_enabled,
            searxng_url: opt_str_view(self.searxng_url),
            brave_enabled: self.brave_enabled,
            search_strategy: self.search_strategy@,
            backends: configs_view(self.backends@),
            history_enabled: self.history_enabled,
            history_encrypt: self.history_encrypt,
            history_ttl_days: self.history_ttl_days,
        }
    }
}

pub fn copy_strings(v: &Vec<String>) -> (r: Vec<String>)
    ensures
        strings_view(r@) == strings_view(v@),
{
    let mut out: Vec<String> = Vec::new();
    let mut i: usize = 0;
    while i < v.len()
        invariant
            i <= v@.len(),
            strings_view(out@) == strings_view(v@).take(i as int),
        decreases v.len() - i,
    {
        let ghost before = out@;
        let s = v[i].clone();
        out.push(s);
        assert(strings_view(out@) =~= strings_view(before).push(v@[i as int]@));
        assert(strings_view(v@).take(i + 1) =~= strings_view(v@).take(i as int).push(
            v@[i as int]@,
        ));
        i = i + 1;
    }
    assert(strings_view(v@).take(v@.len() as int) =~= strings_view(v@));
    out
}

pub fn copy_configs(v: &Vec<BackendConfig>) -> (r: Vec<BackendConfig>)
    ensures
        configs_view(r@) == configs_view(v@),
{
    let mut out: Vec<BackendConfig> = Vec::new();
    let mut i: usize = 0;
    while i < v.len()
        invariant
            i <= v@.len(),
            configs_view(out@) == configs_view(v@).take(i as int),
        decreases v.len() - i,
    {
        let ghost before = out@;
        let b = v[i].duplicate();
        out.push(b);
        assert(configs_view(out@) =~= configs_view(before).push(v@[i as int]@));
        assert(configs_view(v@).take(i + 1) =~= configs_view(v@).take(i as int).push(
            v@[i as int]@,
        ));
        i = i + 1;
    }
    assert(configs_view(v@).take(v@.len() as int) =~= configs_view(v@));
    out
}

impl Settings {
    /// A field-by-field copy.
    pub fn duplicate(&self) -> (r: Settings)
        ensures
            r@ == self@,
    {
        Settings {
            browser_id: copy_opt(&self.browser_id),
            private_mode: self.private_mode,
            max_results: self.max_results,
            backend_order: copy_strings(&self.backend_order),
            ddgs_enabled: self.ddgs_enabled,
            searxng_url: copy_opt(&self.searxng_url),
            brave_enabled: self.brave_enabled,
            search_strategy: self.search_strategy.clone(),
            backends: copy_configs(&self.backends),
            history_enabled: self.history_enabled,
            history_encrypt: self.history_encrypt,
            history_ttl_days: self.history_ttl_days,
        }
    }
}

impl Clone for Settings {
    fn clone(&self) -> Self {
        self.duplicate()
    }
}

// ---------------------------------------------------------------------------
// Defaults
// ---------------------------------------------------------------------------

pub open spec fn default_backend_order_view() -> Seq<Seq<char>> {
    seq!["searxng"@, "ddgs"@, "brave"@]
}

pub open spec fn default_backends_view() -> Seq<BackendConfigView> {
    seq![
        BackendConfigView { id: "searxng"@, enabled: true, url: None, api_key_env: None },
        BackendConfigView { id: "ddgs"@, enabled: true, url: None, api_key_env: None },
        BackendConfigView {
            id: "brave"@,
            enabled: false,
            url: None,
            api_key_env: Some("BRAVE_SEARCH_API_KEY"@),
        },
    ]
}

pub open spec fn default_settings_view() -> SettingsView {
    SettingsView {
        browser_id: None,
        private_mode: false,
        max_results: 25,
        backend_order: default_backend_order_view(),
        ddgs_enabled: true,
        searxng_url: None,
        brave_enabled: false,
        search_strategy: "fanout"@,
        backends: default_backends_view(),
        history_enabled: true,
        history_encrypt: true,
        history_ttl_days: 90,
    }
}

fn default_backend_order() -> (r: Vec<String>)
    ensures
        strings_view(r@) == default_backend_order_view(),
{
    let v: Vec<String> = vec![
        String::from_str("searxng"),
        String::from_str("ddgs"),
        String::from_str("brave"),
    ];
    assert(strings_view(v@) =~= default_backend_order_view());
    v
}

/// The backends a fresh installation starts with: SearXNG and ddgs on, Brave
/// off and reading its key from `BRAVE_SEARCH_API_KEY`.
pub fn default_backends() -> (r: Vec<BackendConfig>)
    ensures
        configs_view(r@) == default_backends_view(),
{
    let v: Vec<BackendConfig> = vec![
        BackendConfig {
            id: String::from_str("searxng"),
            enabled: true,
            url: None,
            api_key_env: None,
        },
        BackendConfig { id: String::from_str("ddgs"), enabled: true, url: None, api_key_env: None },
        BackendConfig {
            id: String::from_str("brave"),
            enabled: false,
            url: None,
            api_key_env: Some(String::from_str("BRAVE_SEARCH_API_KEY")),
        },
    ];
    assert(configs_view(v@) =~= default_backends_view());
    v
}

impl Default for Settings {
    fn default() -> (r: Settings)
        ensures
            r@ == default_settings_view(),
    {
        Settings {
            browser_id: None,
            private_mode: false,
            max_results: 25,
            backend_order: default_backend_order(),
            ddgs_enabled: true,
            searxng_url: None,
            brave_enabled: false,
            search_strategy: String::from_str("fanout"),
            backends: default_backends(),
            history_enabled: true,
            history_encrypt: true,
            history_ttl_days: 90,
        }
    }
}

// ---------------------------------------------------------------------------
// Validation
// ---------------------------------------------------------------------------

/// The first check on the plain fields that the settings fail, if any.
pub open spec fn field_refusal(s: SettingsView) -> Option<(Seq<char>, Seq<char>)> {
    if s.max_results < 1 || s.max_results > 50 {
        Some(("CONFIG_MAX_RESULTS"@, "max_results must be between 1 and 50."@))
    } else if s.history_ttl_days > 3650 {
        Some(("CONFIG_HISTORY_TTL"@, "history_ttl_days must be at most 3650."@))
    } else if s.search_strategy != "fanout"@ && s.search_strategy != "fallback"@ {
        Some(("CONFIG_SEARCH_STRATEGY"@, "search_strategy must be 'fanout' or 'fallback'."@))
    } else {
        None
    }
}

/// The backend URLs that the settings name: the SearXNG URL, then each
/// backend entry's URL.
pub open spec fn entry_urls(es: Seq<BackendConfigView>) -> Seq<Seq<char>>
    decreases es.len(),
{
    if es.len() == 0 {
        Seq::empty()
    } else {
        let before = entry_urls(es.drop_last());
        match es.last().url {
            Some(u) => before.push(u),
            None => before,
        }
    }
}

pub open spec fn settings_urls(s: SettingsView) -> Seq<Seq<char>> {
    match s.searxng_url {
        Some(u) => seq![u] + entry_urls(s.backends),
        None => entry_urls(s.backends),
    }
}

/// The refusal of the first URL that is not an acceptable backend URL.
pub open spec fn first_url_refusal(urls: Seq<Seq<char>>) -> Option<(Seq<char>, Seq<char>)>
    decreases urls.len(),
{
    if urls.len() == 0 {
        None
    } else {
        match backend_url_verdict(urls[0], false) {
            Err(x) => Some(x),
            Ok(_) => first_url_refusal(urls.drop_first()),
        }
    }
}

/// The URLs that the settings name, in order.
fn collect_urls(settings: &Settings) -> (r: Vec<String>)
    ensures
        strings_view(r@) == settings_urls(settings@),
{
    let mut out: Vec<String> = Vec::new();
    let ghost es = configs_view(settings.backends@);
    let ghost head: Seq<Seq<char>> = match settings@.searxng_url {
        Some(u) => seq![u],
        None => Seq::empty(),
    };
    if let Some(u) = &settings.searxng_url {
        out.push(u.clone());
    }
    assert(strings_view(out@) =~= head);
    assert(es.take(0) =~= Seq::<BackendConfigView>::empty());
    let mut i: usize = 0;
    while i < settings.backends.len()
        invariant
            i <= settings.backends@.len(),
            es == configs_view(settings.backends@),
            head == (match settings@.searxng_url {
                Some(u) => seq![u],
                None => Seq::<Seq<char>>::empty(),
            }),
            strings_view(out@) == head + entry_urls(es.take(i as int)),
        decreases settings.backends.len() - i,
    {
        let ghost before = out@;
        proof {
            assert(es.take(i + 1).drop_last() =~= es.take(i as int));
            assert(es.take(i + 1).last() == settings.backends@[i as int]@);
        }
        if let Some(u) = &settings.backends[i].url {
            out.push(u.clone());
            assert(strings_view(out@) =~= strings_view(before).push(u@));
            assert(head + entry_urls(es.take(i + 1)) =~= (head + entry_urls(es.take(i as int))).push(
                u@,
            ));
        }
        i = i + 1;
    }
    assert(es.take(es.len() as int) =~= es);
    proof {
        match settings@.searxng_url {
            Some(u) => {},
            None => {
                assert(head + entry_urls(es) =~= entry_urls(es));
            },
        }
    }
    out
}

/// Validates the settings: the result limit, the history lifetime, the
/// search strategy, and every backend URL they name.
pub fn validate_settings(settings: &Settings) -> (r: NetRailResult<()>)
    ensures
        match field_refusal(settings@) {
            Some(x) => r matches Err(e) && is_config_error(e, x),
            None => match first_url_refusal(settings_urls(settings@)) {
                Some(x) => r matches Err(e) && is_backend_url_error(e, x),
                None => r is Ok,
            },
        },
{
    proof {
        reveal_strlit("fanout");
        reveal_strlit("fallback");
    }
    if settings.max_results < 1 || settings.max_results > 50 {
        return Err(config_error("CONFIG_MAX_RESULTS", "max_results must be between 1 and 50."));
    }
    if settings.history_ttl_days > 3650 {
        return Err(config_error("CONFIG_HISTORY_TTL", "history_ttl_days must be at most 3650."));
    }
    let strategy = chars_of(settings.search_strategy.as_str());
    if !eq_str(strategy.as_slice(), "fanout") && !eq_str(strategy.as_slice(), "fallback") {
        return Err(
            config_error(
                "CONFIG_SEARCH_STRATEGY",
                "search_strategy must be 'fanout' or 'fallback'.",
            ),
        );
    }
    assert(field_refusal(settings@) is None);
    let urls = collect_urls(settings);
    let ghost uv = strings_view(urls@);
    let mut i: usize = 0;
    assert(uv.skip(0) =~= uv);
    while i < urls.len()
        invariant
            i <= urls@.len(),
            uv == strings_view(urls@),
            uv == settings_urls(settings@),
            field_refusal(settings@) is None,
            first_url_refusal(uv) == first_url_refusal(uv.skip(i as int)),
        decreases urls.len() - i,
    {
        assert(uv.skip(i as int)[0] == urls@[i as int]@);
        assert(uv.skip(i as int).drop_first() =~= uv.skip(i + 1));
        match validate_backend_url(urls[i].as_str()) {
            Err(e) => {
                proof {
                    let w = uv.skip(i as int);
                    assert(w.len() > 0);
                    assert(w[0] == urls@[i as int]@);
                    match backend_url_verdict(urls@[i as int]@, false) {
                        Err(x) => {
                            assert(first_url_refusal(w) == Some(x));
                            assert(first_url_refusal(settings_urls(settings@)) == Some(x));
                            assert(is_backend_url_error(e, x));
                            assert(field_refusal(settings@) is None);
                        },
                        Ok(_) => {
                            assert(false);
                        },
                    }
                }
                return Err(e);
            },
            Ok(_) => {},
        }
        i = i + 1;
    }
    assert(uv.skip(uv.len() as int) =~= Seq::<Seq<char>>::empty());
    Ok(())
}

// ---------------------------------------------------------------------------
// Environment overrides
// ---------------------------------------------------------------------------

/// The environment, as name and value pairs.
pub open spec fn env_view(env: Seq<(String, String)>) -> Seq<(Seq<char>, Seq<char>)> {
    env.map_values(|p: (String, String)| pair_view(p))
}

/// The value of environment variable `name`.
pub open spec fn env_lookup(env: Seq<(Seq<char>, Seq<char>)>, name: Seq<char>) -> Option<Seq<char>> {
    first_pair_value(env, name)
}

/// `1`, `true`, `yes` and `on`, in any case, are true; anything else is false.
pub open spec fn bool_text(value: Seq<char>) -> bool {
    let l = lowercase(value);
    l == "1"@ || l == "true"@ || l == "yes"@ || l == "on"@
}

pub fn parse_bool(value: &str) -> (r: bool)
    ensures
        r == bool_text(value@),
{
    let v = chars_of(value);
    let l = lowercase_exec(v.as_slice());
    eq_str(l.as_slice(), "1") || eq_str(l.as_slice(), "true") || eq_str(l.as_slice(), "yes")
        || eq_str(l.as_slice(), "on")
}

/// `name` with the value `value` in `env`, as `std::env::var` reads it.
pub fn env_var(env: &Vec<(String, String)>, name: &str) -> (r: Option<String>)
    ensures
        opt_str_view(r) == env_lookup(env_view(env@), name@),
{
    match find_pair(env, name) {
        Some(v) => Some(v),
        None => None,
    }
}

/// The SearXNG URL override: `NETRAIL_SEARXNG_URL`, else `SEARXNG_URL`, when
/// not empty.
pub open spec fn searxng_override(env: Seq<(Seq<char>, Seq<char>)>) -> Option<Seq<char>> {
    let v = match env_lookup(env, "NETRAIL_SEARXNG_URL"@) {
        Some(u) => Some(u),
        None => env_lookup(env, "SEARXNG_URL"@),
    };
    match v {
        Some(u) => if u.len() > 0 {
            Some(u)
        } else {
            None
        },
        None => None,
    }
}

/// Whether a Brave API key variable is set (to anything).
pub open spec fn brave_key_set(env: Seq<(Seq<char>, Seq<char>)>) -> bool {
    env_lookup(env, "BRAVE_SEARCH_API_KEY"@) is Some || env_lookup(env, "NETRAIL_BRAVE_API_KEY"@) is Some
}

/// Every backend entry with id `brave` switched on.
pub open spec fn brave_entries_on(es: Seq<BackendConfigView>) -> Seq<BackendConfigView> {
    es.map_values(
        |b: BackendConfigView|
            if b.id == "brave"@ {
                BackendConfigView { enabled: true, ..b }
            } else {
                b
            },
    )
}

/// The search strategy override, when it names a known strategy.
pub open spec fn strategy_override(env: Seq<(Seq<char>, Seq<char>)>) -> Option<Seq<char>> {
    match env_lookup(env, "NETRAIL_SEARCH_STRATEGY"@) {
        Some(raw) => {
            let l = lowercase(raw);
            if l == "fanout"@ || l == "fallback"@ {
                Some(l)
            } else {
                None
            }
        },
        None => None,
    }
}

/// A `u32` override read as `str::parse` reads it.
pub open spec fn number_override(env: Seq<(Seq<char>, Seq<char>)>, name: Seq<char>) -> Option<u32> {
    match env_lookup(env, name) {
        Some(raw) => from_str_radix(raw, 10),
        None => None,
    }
}

pub open spec fn bool_override(env: Seq<(Seq<char>, Seq<char>)>, name: Seq<char>, old: bool) -> bool {
    match env_lookup(env, name) {
        Some(raw) => bool_text(raw),
        None => old,
    }
}

/// The SearXNG URL override applied.
pub open spec fn with_searxng(s: SettingsView, env: Seq<(Seq<char>, Seq<char>)>) -> SettingsView {
    SettingsView {
        searxng_url: match searxng_override(env) {
            Some(u) => Some(u),
            None => s.searxng_url,
        },
        ..s
    }
}

/// The Brave switch applied; a Brave API key in the environment switches
/// Brave on everywhere and adds it to the backend order.
pub open spec fn with_brave(s: SettingsView, env: Seq<(Seq<char>, Seq<char>)>) -> SettingsView {
    let key = brave_key_set(env);
    SettingsView {
        brave_enabled: if key {
            true
        } else {
            bool_override(env, "NETRAIL_BRAVE_ENABLED"@, s.brave_enabled)
        },
        backends: if key {
            brave_entries_on(s.backends)
        } else {
            s.backends
        },
        backend_order: if key && !s.backend_order.contains("brave"@) {
            s.backend_order.push("brave"@)
        } else {
            s.backend_order
        },
        ..s
    }
}

/// The search strategy override applied.
pub open spec fn with_strategy(s: SettingsView, env: Seq<(Seq<char>, Seq<char>)>) -> SettingsView {
    SettingsView {
        search_strategy: match strategy_override(env) {
            Some(l) => l,
            None => s.search_strategy,
        },
        ..s
    }
}

/// The history switches, the history lifetime and the result limit applied.
pub open spec fn with_history(s: SettingsView, env: Seq<(Seq<char>, Seq<char>)>) -> SettingsView {
    SettingsView {
        history_enabled: bool_override(env, "NETRAIL_HISTORY_ENABLED"@, s.history_enabled),
        history_encrypt: bool_override(env, "NETRAIL_HISTORY_ENCRYPT"@, s.history_encrypt),
        history_ttl_days: match number_override(env, "NETRAIL_HISTORY_TTL_DAYS"@) {
            Some(n) => n,
            None => s.history_ttl_days,
        },
        max_results: match number_override(env, "NETRAIL_MAX_RESULTS"@) {
            Some(n) => n,
            None => s.max_results,
        },
        ..s
    }
}

/// The settings after the environment overrides.
pub open spec fn overridden(s: SettingsView, env: Seq<(Seq<char>, Seq<char>)>) -> SettingsView {
    with_history(with_strategy(with_brave(with_searxng(s, env), env), env), env)
}

fn bool_from_env(env: &Vec<(String, String)>, name: &str, old: bool) -> (r: bool)
    ensures
        r == bool_override(env_view(env@), name@, old),
{
    match env_var(env, name) {
        Some(raw) => parse_bool(raw.as_str()),
        None => old,
    }
}

fn number_from_env(env: &Vec<(String, String)>, name: &str) -> (r: Option<u32>)
    ensures
        r == number_override(env_view(env@), name@),
{
    match env_var(env, name) {
        Some(raw) => {
            let v = chars_of(raw.as_str());
            from_str_radix_exec(v.as_slice(), 10)
        },
        None => None,
    }
}

fn contains_string(v: &Vec<String>, s: &str) -> (r: bool)
    ensures
        r == strings_view(v@).contains(s@),
{
    let target = chars_of(s);
    let mut i: usize = 0;
    while i < v.len()
        invariant
            i <= v@.len(),
            target@ == s@,
            forall|k: int| 0 <= k < i ==> v@[k]@ != s@,
        decreases v.len() - i,
    {
        let c = chars_of(v[i].as_str());
        if crate::text::chars_eq(c.as_slice(), target.as_slice()) {
            assert(strings_view(v@)[i as int] == s@);
            return true;
        }
        i = i + 1;
    }
    proof {
        if strings_view(v@).contains(s@) {
            let k = choose|k: int| 0 <= k < v@.len() && strings_view(v@)[k] == s@;
            assert(v@[k]@ == s@);
        }
    }
    false
}

fn apply_searxng(settings: &mut Settings, env: &Vec<(String, String)>)
    ensures
        final(settings)@ == with_searxng(old(settings)@, env_view(env@)),
{
    let nsx = env_var(env, "NETRAIL_SEARXNG_URL");
    let sx = match nsx {
        Some(u) => Some(u),
        None => env_var(env, "SEARXNG_URL"),
    };
    if let Some(url) = sx {
        if chars_of(url.as_str()).len() != 0 {
            settings.searxng_url = Some(url);
        }
    }
}

fn apply_brave(settings: &mut Settings, env: &Vec<(String, String)>)
    ensures
        final(settings)@ == with_brave(old(settings)@, env_view(env@)),
{
    proof {
        reveal_strlit("brave");
    }
    settings.brave_enabled = bool_from_env(env, "NETRAIL_BRAVE_ENABLED", settings.brave_enabled);
    let k1 = env_var(env, "BRAVE_SEARCH_API_KEY");
    let k2 = env_var(env, "NETRAIL_BRAVE_API_KEY");
    if k1.is_some() || k2.is_some() {
        settings.brave_enabled = true;
        let mut bs = copy_configs(&settings.backends);
        let ghost es = configs_view(bs@);
        let mut i: usize = 0;
        while i < bs.len()
            invariant
                i <= bs@.len(),
                es.len() == bs@.len(),
                forall|k: int| 0 <= k < i ==> configs_view(bs@)[k] == brave_entries_on(es)[k],
                forall|k: int| i <= k < bs@.len() ==> configs_view(bs@)[k] == es[k],
            decreases bs.len() - i,
        {
            let id = chars_of(bs[i].id.as_str());
            if eq_str(id.as_slice(), "brave") {
                let mut b = bs[i].duplicate();
                b.enabled = true;
                bs.set(i, b);
            }
            i = i + 1;
        }
        assert(configs_view(bs@) =~= brave_entries_on(es));
        settings.backends = bs;
        if !contains_string(&settings.backend_order, "brave") {
            let ghost before = settings.backend_order@;
            settings.backend_order.push(String::from_str("brave"));
            assert(strings_view(settings.backend_order@) =~= strings_view(before).push("brave"@));
        }
    }
}

fn apply_strategy(settings: &mut Settings, env: &Vec<(String, String)>)
    ensures
        final(settings)@ == with_strategy(old(settings)@, env_view(env@)),
{
    proof {
        reveal_strlit("fanout");
        reveal_strlit("fallback");
    }
    if let Some(raw) = env_var(env, "NETRAIL_SEARCH_STRATEGY") {
        let v = chars_of(raw.as_str());
        let l = lowercase_exec(v.as_slice());
        if eq_str(l.as_slice(), "fanout") || eq_str(l.as_slice(), "fallback") {
            settings.search_strategy = string_of(l.as_slice());
        }
    }
}

fn apply_history(settings: &mut Settings, env: &Vec<(String, String)>)
    ensures
        final(settings)@ == with_history(old(settings)@, env_view(env@)),
{
    settings.history_enabled = bool_from_env(
        env,
        "NETRAIL_HISTORY_ENABLED",
        settings.history_enabled,
    );
    settings.history_encrypt = bool_from_env(
        env,
        "NETRAIL_HISTORY_ENCRYPT",
        settings.history_encrypt,
    );
    if let Some(days) = number_from_env(env, "NETRAIL_HISTORY_TTL_DAYS") {
        settings.history_ttl_days = days;
    }
    if let Some(max) = number_from_env(env, "NETRAIL_MAX_RESULTS") {
        settings.max_results = max;
    }
}

/// Applies the `NETRAIL_*` environment overrides to the settings: SearXNG URL,
/// Brave switch and key, search strategy, history switches and lifetime, and
/// the result limit. An override that does not parse is ignored.
pub fn apply_env_overrides(settings: &mut Settings, env: &Vec<(String, String)>)
    ensures
        final(settings)@ == overridden(old(settings)@, env_view(env@)),
{
    apply_searxng(settings, env);
    apply_brave(settings, env);
    apply_strategy(settings, env);
    apply_history(settings, env);
}

/// Applying the environment overrides a second time changes nothing: settings
/// that were saved after a load read back the same, and Brave is never added to
/// the backend order twice.
pub proof fn lemma_env_overrides_idempotent(s: SettingsView, env: Seq<(Seq<char>, Seq<char>)>)
    ensures
        overridden(overridden(s, env), env) == overridden(s, env),
{
    let o = overridden(s, env);
    let oo = overridden(o, env);
    if brave_key_set(env) {
        assert(brave_entries_on(brave_entries_on(s.backends)) =~= brave_entries_on(s.backends));
        if !s.backend_order.contains("brave"@) {
            let pushed = s.backend_order.push("brave"@);
            assert(pushed[pushed.len() - 1] == "brave"@);
            assert(pushed.contains("brave"@));
        }
        assert(o.backend_order.contains("brave"@));
    }
    assert(oo.backends =~= o.backends);
    assert(oo.backend_order =~= o.backend_order);
}

/// The default settings pass validation.
pub proof fn lemma_default_settings_valid()
    ensures
        field_refusal(default_settings_view()) is None,
        first_url_refusal(settings_urls(default_settings_view())) is None,
{
    reveal_strlit("fanout");
    reveal_with_fuel(entry_urls, 4);
    let es = default_backends_view();
    assert(es.drop_last().drop_last().drop_last() =~= Seq::<BackendConfigView>::empty());
    assert(entry_urls(es) =~= Seq::<Seq<char>>::empty());
}

/// The history switches follow the environment: when
/// `NETRAIL_HISTORY_ENABLED` or `NETRAIL_HISTORY_ENCRYPT` is set to `v`, the
/// switch becomes whether `v` is `1`, `true`, `yes` or `on` (any case); when
/// it is not set, the switch keeps its value. A number in
/// `NETRAIL_HISTORY_TTL_DAYS` or `NETRAIL_MAX_RESULTS` replaces the lifetime
/// or the result limit.
pub proof fn lemma_history_overrides(s: SettingsView, env: Seq<(Seq<char>, Seq<char>)>)
    ensures
        env_lookup(env, "NETRAIL_HISTORY_ENCRYPT"@) matches Some(v) ==> overridden(
            s,
            env,
        ).history_encrypt == (lowercase(v) == "1"@ || lowercase(v) == "true"@ || lowercase(v)
            == "yes"@ || lowercase(v) == "on"@),
        env_lookup(env, "NETRAIL_HISTORY_ENCRYPT"@) is None ==> overridden(s, env).history_encrypt
            == s.history_encrypt,
        env_lookup(env, "NETRAIL_HISTORY_ENABLED"@) matches Some(v) ==> overridden(
            s,
            env,
        ).history_enabled == (lowercase(v) == "1"@ || lowercase(v) == "true"@ || lowercase(v)
            == "yes"@ || lowercase(v) == "on"@),
        env_lookup(env, "NETRAIL_HISTORY_ENABLED"@) is None ==> overridden(s, env).history_enabled
            == s.history_enabled,
        env_lookup(env, "NETRAIL_HISTORY_TTL_DAYS"@) matches Some(v) ==> (from_str_radix(v, 10) matches Some(
            n,
        ) ==> overridden(s, env).history_ttl_days == n),
        env_lookup(env, "NETRAIL_MAX_RESULTS"@) matches Some(v) ==> (from_str_radix(v, 10) matches Some(
            n,
        ) ==> overridden(s, env).max_results == n),
{
}

} // verus!

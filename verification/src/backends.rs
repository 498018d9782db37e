//! Which backends a search uses, and how their answers become one response.
use crate::config::{
    env_lookup, env_var, env_view, opt_str_view, strings_view, BackendConfigView, Settings,
    SettingsView,
};
use crate::merge::{dedupe_results, deduped, fanout_merged, merge_fanout, named_view};
use crate::text::{chars_eq, chars_of, eq_str, join, join_exec, string_of, trim, trim_exec};
use crate::types::{results_view, ResultView, SearchMode, SearchResponse, SearchResult, OPERATORS};
use vstd::prelude::*;

verus! {

pub const DDGS_PROVENANCE: &'static str = "ddgs → DuckDuckGo metasearch → primarily Bing index";

pub const BRAVE_PROVENANCE: &'static str = "Brave Search API (your key, your quota)";

/// A search backend the user can enable.
#[derive(Debug)]
pub enum BackendKind {
    Ddgs,
    /// A SearXNG instance, by its base URL.
    Searxng(String),
    /// Brave Search, with the name of the variable that holds its API key.
    Brave(Option<String>),
}

pub enum KindView {
    Ddgs,
    Searxng(Seq<char>),
    Brave(Option<Seq<char>>),
}

impl View for BackendKind {
    type V = KindView;

    open spec fn view(&self) -> KindView {
        match self {
            BackendKind::Ddgs => KindView::Ddgs,
            BackendKind::Searxng(u) => KindView::Searxng(u@),
            BackendKind::Brave(e) => KindView::Brave(opt_str_view(*e)),
        }
    }
}

pub open spec fn kinds_view(v: Seq<BackendKind>) -> Seq<KindView> {
    v.map_values(|k: BackendKind| k@)
}

pub open spec fn kind_name(k: KindView) -> Seq<char> {
    match k {
        KindView::Ddgs => "ddgs"@,
        KindView::Searxng(_) => "searxng"@,
        KindView::Brave(_) => "brave"@,
    }
}

/// The provenance line of a SearXNG instance.
pub open spec fn searxng_provenance(url: Seq<char>) -> Seq<char> {
    "SearXNG @ "@ + url + " (your instance, your engines)"@
}

pub open spec fn kind_provenance(k: KindView) -> Seq<char> {
    match k {
        KindView::Ddgs => DDGS_PROVENANCE@,
        KindView::Searxng(u) => searxng_provenance(u),
        KindView::Brave(_) => BRAVE_PROVENANCE@,
    }
}

/// `a` followed by `b`.
pub fn concat_str(a: &str, b: &str) -> (r: String)
    ensures
        r@ == a@ + b@,
{
    let mut v = chars_of(a);
    let mut w = chars_of(b);
    v.append(&mut w);
    string_of(v.as_slice())
}

pub fn searxng_provenance_of(url: &str) -> (r: String)
    ensures
        r@ == searxng_provenance(url@),
{
    let a = concat_str("SearXNG @ ", url);
    let r = concat_str(a.as_str(), " (your instance, your engines)");
    r
}

impl BackendKind {
    pub fn name(&self) -> (r: &'static str)
        ensures
            r@ == kind_name(self@),
    {
        match self {
            BackendKind::Ddgs => "ddgs",
            BackendKind::Searxng(_) => "searxng",
            BackendKind::Brave(_) => "brave",
        }
    }

    pub fn provenance(&self) -> (r: String)
        ensures
            r@ == kind_provenance(self@),
    {
        match self {
            BackendKind::Ddgs => String::from_str(DDGS_PROVENANCE),
            BackendKind::Searxng(url) => searxng_provenance_of(url.as_str()),
            BackendKind::Brave(_) => String::from_str(BRAVE_PROVENANCE),
        }
    }

    /// The search operators every backend understands.
    pub fn supports_operators(&self) -> (r: [&'static str; 6])
        ensures
            r@ == OPERATORS@,
    {
        OPERATORS
    }

    /// A copy.
    pub fn duplicate(&self) -> (r: BackendKind)
        ensures
            r@ == self@,
    {
        match self {
            BackendKind::Ddgs => BackendKind::Ddgs,
            BackendKind::Searxng(u) => BackendKind::Searxng(u.clone()),
            BackendKind::Brave(e) => BackendKind::Brave(crate::config::copy_opt(e)),
        }
    }
}

impl Clone for BackendKind {
    fn clone(&self) -> Self {
        self.duplicate()
    }
}

// ---------------------------------------------------------------------------
// Brave API key
// ---------------------------------------------------------------------------

/// The Brave API key: the named variable (default `BRAVE_SEARCH_API_KEY`),
/// else `NETRAIL_BRAVE_API_KEY`, else `BRAVE_SEARCH_API_KEY`; a key that is
/// blank counts as none.
pub open spec fn brave_key(env: Seq<(Seq<char>, Seq<char>)>, name: Option<Seq<char>>) -> Option<
    Seq<char>,
> {
    let primary = match name {
        Some(n) => n,
        None => "BRAVE_SEARCH_API_KEY"@,
    };
    let a = env_lookup(env, primary);
    let b = match a {
        Some(k) => Some(k),
        None => if primary != "NETRAIL_BRAVE_API_KEY"@ {
            env_lookup(env, "NETRAIL_BRAVE_API_KEY"@)
        } else {
            None
        },
    };
    let c = match b {
        Some(k) => Some(k),
        None => if primary != "BRAVE_SEARCH_API_KEY"@ {
            env_lookup(env, "BRAVE_SEARCH_API_KEY"@)
        } else {
            None
        },
    };
    match c {
        Some(k) => if trim(k).len() == 0 {
            None
        } else {
            Some(k)
        },
        None => None,
    }
}

/// Reads the Brave API key from the environment.
pub fn brave_key_from_env(env: &Vec<(String, String)>, name: Option<&str>) -> (r: Option<String>)
    ensures
        opt_str_view(r) == brave_key(env_view(env@), crate::urlparts::opt_view(name)),
{
    let primary: &str = match name {
        Some(n) => n,
        None => "BRAVE_SEARCH_API_KEY",
    };
    let pv = chars_of(primary);
    let a = env_var(env, primary);
    let b = match a {
        Some(k) => Some(k),
        None => if !eq_str(pv.as_slice(), "NETRAIL_BRAVE_API_KEY") {
            env_var(env, "NETRAIL_BRAVE_API_KEY")
        } else {
            None
        },
    };
    let c = match b {
        Some(k) => Some(k),
        None => if !eq_str(pv.as_slice(), "BRAVE_SEARCH_API_KEY") {
            env_var(env, "BRAVE_SEARCH_API_KEY")
        } else {
            None
        },
    };
    match c {
        Some(k) => {
            let kv = chars_of(k.as_str());
            if trim_exec(kv.as_slice()).len() == 0 {
                None
            } else {
                Some(k)
            }
        },
        None => None,
    }
}

// ---------------------------------------------------------------------------
// Backend selection
// ---------------------------------------------------------------------------

/// The backends that the structured entries enable, in entry order.
pub open spec fn structured_backends(
    es: Seq<BackendConfigView>,
    s: SettingsView,
    env: Seq<(Seq<char>, Seq<char>)>,
) -> Seq<KindView>
    decreases es.len(),
{
    if es.len() == 0 {
        Seq::empty()
    } else {
        let before = structured_backends(es.drop_last(), s, env);
        let e = es.last();
        if !e.enabled {
            before
        } else if e.id == "ddgs"@ {
            before.push(KindView::Ddgs)
        } else if e.id == "searxng"@ {
            match (match e.url {
                Some(u) => Some(u),
                None => s.searxng_url,
            }) {
                Some(u) => before.push(KindView::Searxng(u)),
                None => before,
            }
        } else if e.id == "brave"@ && brave_key(env, e.api_key_env) is Some {
            before.push(KindView::Brave(e.api_key_env))
        } else {
            before
        }
    }
}

/// The backends that the legacy switches enable, in `backend_order`.
pub open spec fn legacy_backends(
    order: Seq<Seq<char>>,
    s: SettingsView,
    env: Seq<(Seq<char>, Seq<char>)>,
) -> Seq<KindView>
    decreases order.len(),
{
    if order.len() == 0 {
        Seq::empty()
    } else {
        let before = legacy_backends(order.drop_last(), s, env);
        let id = order.last();
        if id == "ddgs"@ && s.ddgs_enabled {
            before.push(KindView::Ddgs)
        } else if id == "searxng"@ && s.searxng_url is Some {
            before.push(KindView::Searxng(s.searxng_url.unwrap()))
        } else if id == "brave"@ && s.brave_enabled && brave_key(env, None) is Some {
            before.push(KindView::Brave(None))
        } else {
            before
        }
    }
}

/// The structured entries when they enable anything, else the legacy
/// switches, else ddgs alone.
pub open spec fn enabled_backends(s: SettingsView, env: Seq<(Seq<char>, Seq<char>)>) -> Seq<
    KindView,
> {
    let st = structured_backends(s.backends, s, env);
    if s.backends.len() > 0 && st.len() > 0 {
        st
    } else {
        let lg = legacy_backends(s.backend_order, s, env);
        if lg.len() == 0 {
            seq![KindView::Ddgs]
        } else {
            lg
        }
    }
}

fn structured_exec(settings: &Settings, env: &Vec<(String, String)>) -> (r: Vec<BackendKind>)
    ensures
        kinds_view(r@) == structured_backends(settings@.backends, settings@, env_view(env@)),
{
    proof {
        reveal_strlit("ddgs");
        reveal_strlit("searxng");
        reveal_strlit("brave");
    }
    let ghost es = settings@.backends;
    let ghost ev = env_view(env@);
    let mut out: Vec<BackendKind> = Vec::new();
    let mut i: usize = 0;
    while i < settings.backends.len()
        invariant
            i <= settings.backends@.len(),
            es == settings@.backends,
            ev == env_view(env@),
            kinds_view(out@) == structured_backends(es.take(i as int), settings@, ev),
        decreases settings.backends.len() - i,
    {
        let ghost before = out@;
        proof {
            assert(es.take(i + 1).drop_last() =~= es.take(i as int));
            assert(es.take(i + 1).last() == settings.backends@[i as int]@);
        }
        let entry = &settings.backends[i];
        if entry.enabled {
            let id = chars_of(entry.id.as_str());
            if eq_str(id.as_slice(), "ddgs") {
                out.push(BackendKind::Ddgs);
                assert(kinds_view(out@) =~= kinds_view(before).push(KindView::Ddgs));
            } else if eq_str(id.as_slice(), "searxng") {
                let url: Option<String> = match &entry.url {
                    Some(u) => Some(u.clone()),
                    None => crate::config::copy_opt(&settings.searxng_url),
                };
                if let Some(u) = url {
                    let ghost uv = u@;
                    out.push(BackendKind::Searxng(u));
                    assert(kinds_view(out@) =~= kinds_view(before).push(KindView::Searxng(uv)));
                }
            } else if eq_str(id.as_slice(), "brave") {
                let name: Option<&str> = match &entry.api_key_env {
                    Some(n) => Some(n.as_str()),
                    None => None,
                };
                if brave_key_from_env(env, name).is_some() {
                    let e = crate::config::copy_opt(&entry.api_key_env);
                    out.push(BackendKind::Brave(e));
                    assert(kinds_view(out@) =~= kinds_view(before).push(
                        KindView::Brave(entry@.api_key_env),
                    ));
                }
            }
        }
        i = i + 1;
    }
    assert(es.take(es.len() as int) =~= es);
    out
}

fn legacy_exec(settings: &Settings, env: &Vec<(String, String)>) -> (r: Vec<BackendKind>)
    ensures
        kinds_view(r@) == legacy_backends(settings@.backend_order, settings@, env_view(env@)),
{
    proof {
        reveal_strlit("ddgs");
        reveal_strlit("searxng");
        reveal_strlit("brave");
    }
    let ghost order = settings@.backend_order;
    let ghost ev = env_view(env@);
    let mut out: Vec<BackendKind> = Vec::new();
    let mut i: usize = 0;
    while i < settings.backend_order.len()
        invariant
            i <= settings.backend_order@.len(),
            order == settings@.backend_order,
            ev == env_view(env@),
            kinds_view(out@) == legacy_backends(order.take(i as int), settings@, ev),
        decreases settings.backend_order.len() - i,
    {
        let ghost before = out@;
        proof {
            assert(order.take(i + 1).drop_last() =~= order.take(i as int));
            assert(order.take(i + 1).last() == settings.backend_order@[i as int]@);
        }
        let id = chars_of(settings.backend_order[i].as_str());
        if eq_str(id.as_slice(), "ddgs") && settings.ddgs_enabled {
            out.push(BackendKind::Ddgs);
            assert(kinds_view(out@) =~= kinds_view(before).push(KindView::Ddgs));
        } else if eq_str(id.as_slice(), "searxng") && settings.searxng_url.is_some() {
            let u = crate::config::copy_opt(&settings.searxng_url).unwrap();
            let ghost uv = u@;
            out.push(BackendKind::Searxng(u));
            assert(kinds_view(out@) =~= kinds_view(before).push(KindView::Searxng(uv)));
        } else if eq_str(id.as_slice(), "brave") && settings.brave_enabled && brave_key_from_env(
            env,
            None,
        ).is_some() {
            out.push(BackendKind::Brave(None));
            assert(kinds_view(out@) =~= kinds_view(before).push(KindView::Brave(None)));
        }
        i = i + 1;
    }
    assert(order.take(order.len() as int) =~= order);
    out
}

/// The backends a search uses: the enabled structured entries (SearXNG
/// falling back to the global URL, Brave only with an API key), else the
/// legacy switches in `backend_order`, else ddgs.
pub fn get_enabled_backends(settings: &Settings, env: &Vec<(String, String)>) -> (r: Vec<
    BackendKind,
>)
    ensures
        kinds_view(r@) == enabled_backends(settings@, env_view(env@)),
{
    if settings.backends.len() > 0 {
        let st = structured_exec(settings, env);
        if st.len() > 0 {
            return st;
        }
    }
    let lg = legacy_exec(settings, env);
    if lg.len() == 0 {
        let v = vec![BackendKind::Ddgs];
        assert(kinds_view(v@) =~= seq![KindView::Ddgs]);
        v
    } else {
        lg
    }
}

/// The search never runs without a backend.
pub proof fn lemma_some_backend_enabled(s: SettingsView, env: Seq<(Seq<char>, Seq<char>)>)
    ensures
        enabled_backends(s, env).len() > 0,
{
}

// ---------------------------------------------------------------------------
// Sovereignty
// ---------------------------------------------------------------------------

/// How many of the names are not `none`.
pub open spec fn count_used(names: Seq<Seq<char>>) -> nat
    decreases names.len(),
{
    if names.len() == 0 {
        0
    } else {
        count_used(names.drop_last()) + (if names.last() != "none"@ {
            1nat
        } else {
            0nat
        })
    }
}

/// Step 3 when Brave or a SearXNG instance answered, step 2 for several
/// other backends, else step 1.
pub open spec fn sovereignty_of(names: Seq<Seq<char>>) -> u8 {
    if names.contains("brave"@) || names.contains("searxng"@) {
        3
    } else if count_used(names) > 1 {
        2
    } else {
        1
    }
}

pub fn sovereignty_step(backends_used: &[String]) -> (r: u8)
    ensures
        r == sovereignty_of(strings_view(backends_used@)),
        1 <= r <= 3,
{
    proof {
        reveal_strlit("none");
        reveal_strlit("brave");
        reveal_strlit("searxng");
    }
    let ghost names = strings_view(backends_used@);
    let mut has_named = false;
    let mut used: usize = 0;
    let mut i: usize = 0;
    while i < backends_used.len()
        invariant
            i <= backends_used@.len(),
            names == strings_view(backends_used@),
            used == count_used(names.take(i as int)),
            used <= i,
            has_named == (names.take(i as int).contains("brave"@) || names.take(i as int).contains(
                "searxng"@,
            )),
        decreases backends_used.len() - i,
    {
        let n = chars_of(backends_used[i].as_str());
        proof {
            assert(names.take(i + 1).drop_last() =~= names.take(i as int));
            assert(names.take(i + 1).last() == n@);
            let t1 = names.take(i + 1);
            let t0 = names.take(i as int);
            assert forall|x: Seq<char>| t1.contains(x) <==> t0.contains(x) || x == n@ by {
                if t1.contains(x) {
                    let k = choose|k: int| 0 <= k < t1.len() && t1[k] == x;
                    if k < t0.len() {
                        assert(t0[k] == x);
                    }
                }
                if t0.contains(x) {
                    let k = choose|k: int| 0 <= k < t0.len() && t0[k] == x;
                    assert(t1[k] == x);
                }
                if x == n@ {
                    assert(t1[t0.len() as int] == x);
                }
            }
        }
        if eq_str(n.as_slice(), "brave") || eq_str(n.as_slice(), "searxng") {
            has_named = true;
        }
        if !eq_str(n.as_slice(), "none") {
            used = used + 1;
        }
        i = i + 1;
    }
    assert(names.take(names.len() as int) =~= names);
    if has_named {
        3
    } else if used > 1 {
        2
    } else {
        1
    }
}

// ---------------------------------------------------------------------------
// Responses
// ---------------------------------------------------------------------------

pub struct ResponseView {
    pub query: Seq<char>,
    pub mode: SearchMode,
    pub results: Seq<ResultView>,
    pub backends_used: Seq<Seq<char>>,
    pub provenance_chain: Seq<Seq<char>>,
    pub sovereignty_step: u8,
    pub errors: Seq<Seq<char>>,
    pub search_strategy: Seq<char>,
}

impl View for SearchResponse {
    type V = ResponseView;

    open spec fn view(&self) -> ResponseView {
        ResponseView {
            query: self.query@,
            mode: self.mode,
            results: results_view(self.results@),
            backends_used: strings_view(self.backends_used@),
            provenance_chain: strings_view(self.provenance_chain@),
            sovereignty_step: self.sovereignty_step,
            errors: strings_view(self.errors@),
            search_strategy: self.search_strategy@,
        }
    }
}

fn one_string(s: &str) -> (r: Vec<String>)
    ensures
        strings_view(r@) == seq![s@],
{
    let v = vec![String::from_str(s)];
    assert(strings_view(v@) =~= seq![s@]);
    v
}

/// The answer to an empty query: nothing searched.
pub fn empty_response(query: &str, mode: SearchMode) -> (r: SearchResponse)
    ensures
        r@ == (ResponseView {
            query: query@,
            mode,
            results: Seq::empty(),
            backends_used: Seq::empty(),
            provenance_chain: Seq::empty(),
            sovereignty_step: 1,
            errors: Seq::empty(),
            search_strategy: "fanout"@,
        }),
{
    let r = SearchResponse {
        query: String::from_str(query),
        mode,
        results: Vec::new(),
        backends_used: Vec::new(),
        provenance_chain: Vec::new(),
        sovereignty_step: 1,
        errors: Vec::new(),
        search_strategy: String::from_str("fanout"),
    };
    assert(r@.results =~= Seq::<ResultView>::empty());
    assert(r@.backends_used =~= Seq::<Seq<char>>::empty());
    assert(r@.provenance_chain =~= Seq::<Seq<char>>::empty());
    assert(r@.errors =~= Seq::<Seq<char>>::empty());
    r
}

/// The answer when no result came back at all: `none` used, a one-line
/// provenance, step 1.
pub fn failed_response(
    query: &str,
    mode: SearchMode,
    provenance: &str,
    errors: Vec<String>,
    strategy: &str,
) -> (r: SearchResponse)
    ensures
        r@ == (ResponseView {
            query: query@,
            mode,
            results: Seq::empty(),
            backends_used: seq!["none"@],
            provenance_chain: seq![provenance@],
            sovereignty_step: 1,
            errors: strings_view(errors@),
            search_strategy: strategy@,
        }),
{
    let r = SearchResponse {
        query: String::from_str(query),
        mode,
        results: Vec::new(),
        backends_used: one_string("none"),
        provenance_chain: one_string(provenance),
        sovereignty_step: 1,
        errors,
        search_strategy: String::from_str(strategy),
    };
    assert(r@.results =~= Seq::<ResultView>::empty());
    r
}

/// The query as searched (trimmed) and the result limit clamped to 1..=50.
pub fn prepare_search(query: &str, max_results: u32) -> (r: (String, usize))
    ensures
        r.0@ == trim(query@),
        r.1 == (if max_results < 1 {
            1
        } else if max_results > 50 {
            50
        } else {
            max_results as int
        }),
{
    let q = chars_of(query);
    let t = trim_exec(q.as_slice());
    let m: usize = if max_results < 1 {
        1
    } else if max_results > 50 {
        50
    } else {
        max_results as usize
    };
    (string_of(t.as_slice()), m)
}

/// `"<name>: unavailable"`.
pub fn unavailable_error(name: &str) -> (r: String)
    ensures
        r@ == name@ + ": unavailable"@,
{
    concat_str(name, ": unavailable")
}

/// The backends that answered the health check, and an error line for each
/// one that did not.
pub open spec fn split_by_health(ks: Seq<KindView>, ok: Seq<bool>) -> (Seq<KindView>, Seq<Seq<char>>)
    decreases ks.len(),
{
    if ks.len() == 0 {
        (Seq::empty(), Seq::empty())
    } else {
        let before = split_by_health(ks.drop_last(), ok);
        let i = ks.len() - 1;
        if i < ok.len() && ok[i] {
            (before.0.push(ks.last()), before.1)
        } else {
            (before.0, before.1.push(kind_name(ks.last()) + ": unavailable"@))
        }
    }
}

/// Splits the enabled backends by their health. A backend without a health
/// answer counts as unavailable.
pub fn split_available(enabled: &Vec<BackendKind>, ok: &Vec<bool>) -> (r: (Vec<BackendKind>, Vec<String>))
    requires
        ok@.len() == enabled@.len(),
    ensures
        (kinds_view(r.0@), strings_view(r.1@)) == split_by_health(kinds_view(enabled@), ok@),
{
    let ghost ks = kinds_view(enabled@);
    let mut up: Vec<BackendKind> = Vec::new();
    let mut down: Vec<String> = Vec::new();
    let mut i: usize = 0;
    while i < enabled.len()
        invariant
            i <= enabled@.len(),
            ok@.len() == enabled@.len(),
            ks == kinds_view(enabled@),
            (kinds_view(up@), strings_view(down@)) == split_by_health(ks.take(i as int), ok@),
        decreases enabled.len() - i,
    {
        let ghost u0 = up@;
        let ghost d0 = down@;
        proof {
            assert(ks.take(i + 1).drop_last() =~= ks.take(i as int));
            assert(ks.take(i + 1).last() == enabled@[i as int]@);
        }
        if ok[i] {
            up.push(enabled[i].duplicate());
            assert(kinds_view(up@) =~= kinds_view(u0).push(enabled@[i as int]@));
        } else {
            let e = unavailable_error(enabled[i].name());
            down.push(e);
            assert(strings_view(down@) =~= strings_view(d0).push(
                kind_name(enabled@[i as int]@) + ": unavailable"@,
            ));
        }
        i = i + 1;
    }
    assert(ks.take(ks.len() as int) =~= ks);
    (up, down)
}

/// What one backend answered.
pub struct BackendOutcome {
    pub name: String,
    pub provenance: String,
    pub results: Result<Vec<SearchResult>, String>,
}

pub struct OutcomeView {
    pub name: Seq<char>,
    pub provenance: Seq<char>,
    pub results: Result<Seq<ResultView>, Seq<char>>,
}

impl View for BackendOutcome {
    type V = OutcomeView;

    open spec fn view(&self) -> OutcomeView {
        OutcomeView {
            name: self.name@,
            provenance: self.provenance@,
            results: match self.results {
                Ok(v) => Ok(results_view(v@)),
                Err(e) => Err(e@),
            },
        }
    }
}

pub open spec fn outcomes_view(v: Seq<BackendOutcome>) -> Seq<OutcomeView> {
    v.map_values(|o: BackendOutcome| o@)
}

/// What the outcomes contribute, in order: the named non-empty batches, the
/// provenance lines of the backends that gave them, and the errors after the
/// given ones (a failure's message; for an empty batch, the backend's name
/// and `: returned no results`).
pub open spec fn gathered(os: Seq<OutcomeView>, errors: Seq<Seq<char>>) -> (
    Seq<(Seq<char>, Seq<ResultView>)>,
    Seq<Seq<char>>,
    Seq<Seq<char>>,
)
    decreases os.len(),
{
    if os.len() == 0 {
        (Seq::empty(), Seq::empty(), errors)
    } else {
        let before = gathered(os.drop_last(), errors);
        let o = os.last();
        match o.results {
            Ok(rs) => if rs.len() > 0 {
                (before.0.push((o.name, rs)), before.1.push(o.provenance), before.2)
            } else {
                (before.0, before.1, before.2.push(o.name + ": returned no results"@))
            },
            Err(e) => (before.0, before.1, before.2.push(e)),
        }
    }
}

/// The merged answer of the backends that were asked.
pub open spec fn assembled(
    query: Seq<char>,
    mode: SearchMode,
    max: nat,
    strategy: Seq<char>,
    errors: Seq<Seq<char>>,
    os: Seq<OutcomeView>,
) -> ResponseView {
    let g = gathered(os, errors);
    let names = g.0.map_values(|b: (Seq<char>, Seq<ResultView>)| b.0);
    let results = if strategy == "fallback"@ {
        let d = deduped(crate::merge::concat(g.0.map_values(|b: (Seq<char>, Seq<ResultView>)| b.1)));
        if max < d.len() {
            d.take(max as int)
        } else {
            d
        }
    } else {
        fanout_merged(g.0, max)
    };
    ResponseView {
        query,
        mode,
        results,
        backends_used: if names.len() == 0 {
            seq!["none"@]
        } else {
            names
        },
        provenance_chain: if g.1.len() == 0 {
            seq!["No backend returned results"@]
        } else {
            g.1
        },
        sovereignty_step: sovereignty_of(names),
        errors: g.2,
        search_strategy: strategy,
    }
}

fn copy_results(v: &Vec<SearchResult>) -> (r: Vec<SearchResult>)
    ensures
        results_view(r@) == results_view(v@),
{
    let mut out: Vec<SearchResult> = Vec::new();
    let mut i: usize = 0;
    while i < v.len()
        invariant
            i <= v@.len(),
            results_view(out@) == results_view(v@).take(i as int),
        decreases v.len() - i,
    {
        let ghost before = out@;
        let d = v[i].duplicate();
        out.push(d);
        assert(results_view(out@) =~= results_view(before).push(d@));
        assert(results_view(v@).take(i + 1) =~= results_view(v@).take(i as int).push(d@));
        i = i + 1;
    }
    assert(results_view(v@).take(v@.len() as int) =~= results_view(v@));
    out
}

/// Merges what the backends answered into one response: non-empty batches are
/// merged (deduplicated and cut for `fallback`, interleaved for `fanout`),
/// failures are appended to `errors`, and the sovereignty step is taken from
/// the backends that gave results.
pub fn assemble_response(
    query: &str,
    mode: SearchMode,
    max_results: usize,
    strategy: &str,
    errors: Vec<String>,
    outcomes: Vec<BackendOutcome>,
) -> (r: SearchResponse)
    ensures
        r@ == assembled(
            query@,
            mode,
            max_results as nat,
            strategy@,
            strings_view(errors@),
            outcomes_view(outcomes@),
        ),
{
    let ghost os = outcomes_view(outcomes@);
    let ghost e0 = strings_view(errors@);
    let mut errs = errors;
    let mut batches: Vec<(String, Vec<SearchResult>)> = Vec::new();
    let mut used: Vec<String> = Vec::new();
    let mut chain: Vec<String> = Vec::new();
    let mut i: usize = 0;
    while i < outcomes.len()
        invariant
            i <= outcomes@.len(),
            os == outcomes_view(outcomes@),
            named_view(batches@) == gathered(os.take(i as int), e0).0,
            strings_view(chain@) == gathered(os.take(i as int), e0).1,
            strings_view(errs@) == gathered(os.take(i as int), e0).2,
            strings_view(used@) == named_view(batches@).map_values(
                |b: (Seq<char>, Seq<ResultView>)| b.0,
            ),
        decreases outcomes.len() - i,
    {
        let ghost b0 = batches@;
        let ghost u0 = used@;
        let ghost c0 = chain@;
        let ghost er0 = errs@;
        proof {
            assert(os.take(i + 1).drop_last() =~= os.take(i as int));
            assert(os.take(i + 1).last() == outcomes@[i as int]@);
        }
        let o = &outcomes[i];
        match &o.results {
            Ok(rs) => {
                if rs.len() > 0 {
                    let copy = copy_results(rs);
                    let ghost item = (o.name@, results_view(rs@));
                    batches.push((o.name.clone(), copy));
                    used.push(o.name.clone());
                    chain.push(o.provenance.clone());
                    proof {
                        assert(named_view(batches@) =~= named_view(b0).push(item));
                        assert(strings_view(chain@) =~= strings_view(c0).push(o.provenance@));
                        assert(strings_view(used@) =~= strings_view(u0).push(o.name@));
                        assert(named_view(batches@).map_values(
                            |b: (Seq<char>, Seq<ResultView>)| b.0,
                        ) =~= named_view(b0).map_values(|b: (Seq<char>, Seq<ResultView>)| b.0).push(
                            o.name@,
                        ));
                    }
                } else {
                    let msg = concat_str(o.name.as_str(), ": returned no results");
                    errs.push(msg);
                    assert(strings_view(errs@) =~= strings_view(er0).push(
                        o.name@ + ": returned no results"@,
                    ));
                }
            },
            Err(e) => {
                errs.push(e.clone());
                assert(strings_view(errs@) =~= strings_view(er0).push(e@));
            },
        }
        i = i + 1;
    }
    proof {
        assert(os.take(os.len() as int) =~= os);
    }
    let ghost g = gathered(os, e0);
    let step = sovereignty_step(used.as_slice());
    let sv = chars_of(strategy);
    proof {
        reveal_strlit("fallback");
    }
    let results = if eq_str(sv.as_slice(), "fallback") {
        let mut flat: Vec<SearchResult> = Vec::new();
        let ghost per = g.0.map_values(|b: (Seq<char>, Seq<ResultView>)| b.1);
        let mut k: usize = 0;
        while k < batches.len()
            invariant
                k <= batches@.len(),
                named_view(batches@) == g.0,
                per == g.0.map_values(|b: (Seq<char>, Seq<ResultView>)| b.1),
                results_view(flat@) == crate::merge::concat(per.take(k as int)),
            decreases batches.len() - k,
        {
            let ghost f0 = flat@;
            let mut copy = copy_results(&batches[k].1);
            let ghost cv = results_view(copy@);
            flat.append(&mut copy);
            proof {
                assert(results_view(flat@) =~= results_view(f0) + cv);
                assert(per.take(k + 1).drop_last() =~= per.take(k as int));
                assert(per[k as int] == cv);
            }
            k = k + 1;
        }
        assert(per.take(per.len() as int) =~= per);
        let d = dedupe_results(flat);
        let ghost dv = results_view(d@);
        let mut out: Vec<SearchResult> = Vec::new();
        let mut j: usize = 0;
        while j < d.len() && j < max_results
            invariant
                j <= d@.len(),
                j <= max_results,
                dv == results_view(d@),
                results_view(out@) == dv.take(j as int),
            decreases d.len() - j,
        {
            let ghost o0 = out@;
            let x = d[j].duplicate();
            out.push(x);
            assert(results_view(out@) =~= results_view(o0).push(x@));
            assert(dv.take(j + 1) =~= dv.take(j as int).push(x@));
            j = j + 1;
        }
        assert(dv.take(dv.len() as int) =~= dv);
        out
    } else {
        merge_fanout(batches, max_results)
    };
    let backends_used = if used.len() == 0 {
        one_string("none")
    } else {
        used
    };
    let provenance_chain = if chain.len() == 0 {
        one_string("No backend returned results")
    } else {
        chain
    };
    SearchResponse {
        query: String::from_str(query),
        mode,
        results,
        backends_used,
        provenance_chain,
        sovereignty_step: step,
        errors: errs,
        search_strategy: String::from_str(strategy),
    }
}

/// The answer when the fan-out ran past its deadline: what the backends that
/// finished in time gave is merged as usual (partial results are kept), with
/// the timeout first among the errors, then the backends found unavailable,
/// then the finished backends' failures.
pub fn timeout_response(
    query: &str,
    mode: SearchMode,
    max_results: usize,
    strategy: &str,
    unavailable: Vec<String>,
    finished: Vec<BackendOutcome>,
) -> (r: SearchResponse)
    ensures
        r@ == assembled(
            query@,
            mode,
            max_results as nat,
            strategy@,
            seq!["fanout: timed out after 20 seconds"@] + strings_view(unavailable@),
            outcomes_view(finished@),
        ),
{
    let mut errors: Vec<String> = vec![String::from_str("fanout: timed out after 20 seconds")];
    let mut rest = unavailable;
    let ghost rv = strings_view(rest@);
    errors.append(&mut rest);
    assert(strings_view(errors@) =~= seq!["fanout: timed out after 20 seconds"@] + rv);
    assemble_response(query, mode, max_results, strategy, errors, finished)
}

/// What each asked backend gave before the deadline: its outcome, or nothing
/// when it had not answered.
pub open spec fn answers_view(v: Seq<Option<BackendOutcome>>) -> Seq<Option<OutcomeView>> {
    v.map_values(
        |x: Option<BackendOutcome>|
            match x {
                Some(o) => Some(o@),
                None => None,
            },
    )
}

/// The outcomes of the backends that answered, in order.
pub open spec fn finished_of(a: Seq<Option<OutcomeView>>) -> Seq<OutcomeView>
    decreases a.len(),
{
    if a.len() == 0 {
        Seq::empty()
    } else {
        let before = finished_of(a.drop_last());
        match a.last() {
            Some(o) => before.push(o),
            None => before,
        }
    }
}

/// The answer of a fan-out: when every asked backend answered in time, their
/// outcomes merged; else what the finished ones gave, with the timeout first
/// among the errors.
pub fn fanout_answer(
    query: &str,
    mode: SearchMode,
    max_results: usize,
    strategy: &str,
    unavailable: Vec<String>,
    answers: Vec<Option<BackendOutcome>>,
) -> (r: SearchResponse)
    ensures
        ({
            let av = answers_view(answers@);
            let fin = finished_of(av);
            r@ == if forall|i: int| 0 <= i < av.len() ==> #[trigger] av[i] is Some {
                assembled(query@, mode, max_results as nat, strategy@, strings_view(unavailable@), fin)
            } else {
                assembled(
                    query@,
                    mode,
                    max_results as nat,
                    strategy@,
                    seq!["fanout: timed out after 20 seconds"@] + strings_view(unavailable@),
                    fin,
                )
            }
        }),
{
    let ghost av = answers_view(answers@);
    let mut rest = answers;
    let mut fin: Vec<BackendOutcome> = Vec::new();
    let mut complete = true;
    let ghost mut k: int = 0;
    while rest.len() > 0
        invariant
            0 <= k <= av.len(),
            answers_view(rest@) == av.skip(k),
            outcomes_view(fin@) == finished_of(av.take(k)),
            complete == (forall|i: int| 0 <= i < k ==> #[trigger] av[i] is Some),
        decreases rest.len(),
    {
        let ghost r0 = rest@;
        let ghost f0 = fin@;
        let x = rest.remove(0);
        proof {
            assert(answers_view(rest@) =~= answers_view(r0).skip(1));
            assert(av.skip(k)[0] == av[k]);
            assert(av.take(k + 1).drop_last() =~= av.take(k));
            assert(av.take(k + 1).last() == av[k]);
        }
        match x {
            Some(o) => {
                fin.push(o);
                proof {
                    assert(outcomes_view(fin@) =~= outcomes_view(f0).push(o@));
                }
            },
            None => {
                complete = false;
            },
        }
        proof {
            assert(av.skip(k).skip(1) =~= av.skip(k + 1));
            k = k + 1;
        }
    }
    proof {
        assert(av.skip(k).len() == 0);
        assert(av.take(k) =~= av);
    }
    if complete {
        assemble_response(query, mode, max_results, strategy, unavailable, fin)
    } else {
        timeout_response(query, mode, max_results, strategy, unavailable, fin)
    }
}

/// The fan-out deadline in seconds for the value of
/// `NETRAIL_FANOUT_DEADLINE_SECS`: the trimmed value as a number, else 20.
pub fn fanout_deadline_secs(raw: Option<&str>) -> (r: u64)
    ensures
        r == (match raw {
            Some(v) => match crate::audit::from_str_radix_u64(trim(v@), 10) {
                Some(n) => n,
                None => 20,
            },
            None => 20,
        }),
{
    crate::audit::limit_from_env(raw, 20)
}

} // verus!

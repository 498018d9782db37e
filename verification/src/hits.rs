//! Backend answers turned into search results: JSON hits, DuckDuckGo HTML
//! result blocks, image-search tokens and Wikipedia extracts.
use crate::backends::{searxng_provenance, searxng_provenance_of, BRAVE_PROVENANCE, DDGS_PROVENANCE};
use crate::error::NetRailError;
use crate::text::{
    chars_of, contains, contains_str, find, find_exec, join, join_exec, lemma_find_from_some,
    slice_of, split_ws, split_ws_exec, string_of, trim, trim_exec,
};
use crate::types::{results_view, ResultView, SearchResult};
use crate::url_resolve::{clean_result_title, cleaned_title, resolve_result_url, resolved_link};
use vstd::prelude::*;

verus! {

// ---------------------------------------------------------------------------
// JSON hits
// ---------------------------------------------------------------------------

/// One field of a JSON object: absent, a string, or another kind of value.
#[derive(Debug)]
pub enum Field {
    Absent,
    Text(String),
    Other,
}

pub enum FieldView {
    Absent,
    Text(Seq<char>),
    Other,
}

impl View for Field {
    type V = FieldView;

    open spec fn view(&self) -> FieldView {
        match self {
            Field::Absent => FieldView::Absent,
            Field::Text(s) => FieldView::Text(s@),
            Field::Other => FieldView::Other,
        }
    }
}

/// One result item of a backend's JSON answer, by the role of each field.
#[derive(Debug)]
pub struct RawHit {
    /// The result URL.
    pub url: Field,
    /// The field read for the URL when `url` is absent.
    pub url_alt: Field,
    pub title: Field,
    /// The field the snippet is read from.
    pub text: Field,
    pub source: Field,
    pub thumb: Field,
    /// The field read for the thumbnail when `thumb` is absent.
    pub thumb_alt: Field,
}

pub struct HitView {
    pub url: FieldView,
    pub url_alt: FieldView,
    pub title: FieldView,
    pub text: FieldView,
    pub source: FieldView,
    pub thumb: FieldView,
    pub thumb_alt: FieldView,
}

impl View for RawHit {
    type V = HitView;

    open spec fn view(&self) -> HitView {
        HitView {
            url: self.url@,
            url_alt: self.url_alt@,
            title: self.title@,
            text: self.text@,
            source: self.source@,
            thumb: self.thumb@,
            thumb_alt: self.thumb_alt@,
        }
    }
}

pub open spec fn hits_view(v: Seq<RawHit>) -> Seq<HitView> {
    v.map_values(|h: RawHit| h@)
}

/// `a`, or `b` when `a` is absent (`Option::or_else` on the JSON lookup).
pub open spec fn either(a: FieldView, b: FieldView) -> FieldView {
    match a {
        FieldView::Absent => b,
        _ => a,
    }
}

/// The string in the field, if it holds one (`as_str`).
pub open spec fn text_of(f: FieldView) -> Option<Seq<char>> {
    match f {
        FieldView::Text(s) => Some(s),
        _ => None,
    }
}

pub open spec fn text_or(f: FieldView, d: Seq<char>) -> Seq<char> {
    match text_of(f) {
        Some(s) => s,
        None => d,
    }
}

/// How a backend's hits become results.
pub enum HitStyle {
    BraveWeb,
    BraveImages,
    /// A SearXNG instance, by its base URL.
    Searxng(String),
    DdgsImages,
}

pub enum StyleView {
    BraveWeb,
    BraveImages,
    Searxng(Seq<char>),
    DdgsImages,
}

impl View for HitStyle {
    type V = StyleView;

    open spec fn view(&self) -> StyleView {
        match self {
            HitStyle::BraveWeb => StyleView::BraveWeb,
            HitStyle::BraveImages => StyleView::BraveImages,
            HitStyle::Searxng(u) => StyleView::Searxng(u@),
            HitStyle::DdgsImages => StyleView::DdgsImages,
        }
    }
}

/// The URL of a hit; empty when it has none.
pub open spec fn hit_url(h: HitView) -> Seq<char> {
    text_or(either(h.url, h.url_alt), Seq::empty())
}

/// The result a hit with a URL gives.
pub open spec fn hit_result(h: HitView, style: StyleView) -> ResultView {
    let url = hit_url(h);
    match style {
        StyleView::BraveWeb => ResultView {
            title: text_or(h.title, url),
            url,
            snippet: text_or(h.text, Seq::empty()),
            image: None,
            source: "brave"@,
            backend: "brave"@,
            provenance: BRAVE_PROVENANCE@,
        },
        StyleView::BraveImages => ResultView {
            title: text_or(h.title, "Image result"@),
            url,
            snippet: text_or(h.text, Seq::empty()),
            image: text_of(h.thumb),
            source: text_or(h.source, Seq::empty()),
            backend: "brave"@,
            provenance: BRAVE_PROVENANCE@,
        },
        StyleView::Searxng(base) => ResultView {
            title: text_or(h.title, url),
            url,
            snippet: text_or(h.text, Seq::empty()),
            image: text_of(either(h.thumb, h.thumb_alt)),
            source: text_or(h.source, Seq::empty()),
            backend: "searxng"@,
            provenance: searxng_provenance(base),
        },
        StyleView::DdgsImages => ResultView {
            title: text_or(h.title, "Image result"@),
            url,
            snippet: text_or(h.text, Seq::empty()),
            image: text_of(either(h.thumb, h.thumb_alt)),
            source: text_or(h.source, Seq::empty()),
            backend: "ddgs"@,
            provenance: DDGS_PROVENANCE@,
        },
    }
}

/// The results of the hits that have a URL, in order.
pub open spec fn hit_results(hs: Seq<HitView>, style: StyleView) -> Seq<ResultView>
    decreases hs.len(),
{
    if hs.len() == 0 {
        Seq::empty()
    } else {
        let before = hit_results(hs.drop_last(), style);
        if hit_url(hs.last()).len() == 0 {
            before
        } else {
            before.push(hit_result(hs.last(), style))
        }
    }
}

/// At most `n` items of `s`, from the front.
pub open spec fn first_n<A>(s: Seq<A>, n: nat) -> Seq<A> {
    if n < s.len() {
        s.take(n as int)
    } else {
        s
    }
}

/// What a backend gives for its hits: Brave and SearXNG look at the first
/// `max` hits; the DuckDuckGo image search keeps going until it has `max`
/// results (at least one).
pub open spec fn results_of_hits(hs: Seq<HitView>, style: StyleView, max: nat) -> Seq<ResultView> {
    match style {
        StyleView::DdgsImages => first_n(hit_results(hs, style), if max == 0 {
            1
        } else {
            max
        }),
        _ => hit_results(first_n(hs, max), style),
    }
}

fn field_text(f: &Field) -> (r: Option<String>)
    ensures
        opt_view_s(r) == text_of(f@),
{
    match f {
        Field::Text(s) => Some(s.clone()),
        _ => None,
    }
}

pub open spec fn opt_view_s(o: Option<String>) -> Option<Seq<char>> {
    match o {
        Some(s) => Some(s@),
        None => None,
    }
}

fn field_either<'a>(a: &'a Field, b: &'a Field) -> (r: &'a Field)
    ensures
        r@ == either(a@, b@),
{
    match a {
        Field::Absent => b,
        _ => a,
    }
}

fn text_or_exec(f: &Field, d: &str) -> (r: String)
    ensures
        r@ == text_or(f@, d@),
{
    match f {
        Field::Text(s) => s.clone(),
        _ => String::from_str(d),
    }
}

fn hit_to_result(h: &RawHit, style: &HitStyle, url: String) -> (r: SearchResult)
    requires
        url@ == hit_url(h@),
    ensures
        r@ == hit_result(h@, style@),
{
    proof {
        reveal_strlit("");
        assert(""@ =~= Seq::<char>::empty());
    }
    match style {
        HitStyle::BraveWeb => SearchResult {
            title: text_or_exec(&h.title, url.as_str()),
            snippet: text_or_exec(&h.text, ""),
            url,
            image: None,
            source: String::from_str("brave"),
            backend: String::from_str("brave"),
            provenance: String::from_str(BRAVE_PROVENANCE),
        },
        HitStyle::BraveImages => SearchResult {
            title: text_or_exec(&h.title, "Image result"),
            url,
            snippet: text_or_exec(&h.text, ""),
            image: field_text(&h.thumb),
            source: text_or_exec(&h.source, ""),
            backend: String::from_str("brave"),
            provenance: String::from_str(BRAVE_PROVENANCE),
        },
        HitStyle::Searxng(base) => SearchResult {
            title: text_or_exec(&h.title, url.as_str()),
            snippet: text_or_exec(&h.text, ""),
            url,
            image: field_text(field_either(&h.thumb, &h.thumb_alt)),
            source: text_or_exec(&h.source, ""),
            backend: String::from_str("searxng"),
            provenance: searxng_provenance_of(base.as_str()),
        },
        HitStyle::DdgsImages => SearchResult {
            title: text_or_exec(&h.title, "Image result"),
            url,
            snippet: text_or_exec(&h.text, ""),
            image: field_text(field_either(&h.thumb, &h.thumb_alt)),
            source: text_or_exec(&h.source, ""),
            backend: String::from_str("ddgs"),
            provenance: String::from_str(DDGS_PROVENANCE),
        },
    }
}

/// Turns the hits of a backend's JSON answer into results: hits without a
/// URL are skipped, missing titles fall back to the URL (or "Image result"),
/// missing snippets to nothing.
pub fn results_from_hits(hits: &Vec<RawHit>, style: &HitStyle, max_results: usize) -> (r: Vec<
    SearchResult,
>)
    ensures
        results_view(r@) == results_of_hits(hits_view(hits@), style@, max_results as nat),
{
    let ghost hs = hits_view(hits@);
    let is_ddgs = match style {
        HitStyle::DdgsImages => true,
        _ => false,
    };
    let limit: usize = if is_ddgs {
        hits.len()
    } else if max_results < hits.len() {
        max_results
    } else {
        hits.len()
    };
    let cap: usize = if max_results == 0 {
        1
    } else {
        max_results
    };
    let mut out: Vec<SearchResult> = Vec::new();
    let mut i: usize = 0;
    while i < limit
        invariant
            limit <= hits@.len(),
            i <= limit,
            hs == hits_view(hits@),
            is_ddgs == (style@ is DdgsImages),
            !is_ddgs ==> limit == first_n(hs, max_results as nat).len(),
            is_ddgs ==> limit == hits@.len(),
            results_view(out@) == hit_results(hs.take(i as int), style@),
            cap == (if max_results == 0 {
                1
            } else {
                max_results as nat
            }),
            is_ddgs ==> out@.len() < cap,
        decreases limit - i,
    {
        let ghost o0 = out@;
        proof {
            assert(hs.take(i + 1).drop_last() =~= hs.take(i as int));
            assert(hs.take(i + 1).last() == hits@[i as int]@);
        }
        let h = &hits[i];
        let url = text_or_exec(field_either(&h.url, &h.url_alt), "");
        assert(url@ == hit_url(h@)) by {
            reveal_strlit("");
        }
        if chars_of(url.as_str()).len() != 0 {
            let res = hit_to_result(h, style, url);
            out.push(res);
            assert(results_view(out@) =~= results_view(o0).push(hit_result(h@, style@)));
            if is_ddgs && out.len() >= cap {
                proof {
                    lemma_first_n_of_prefix(hs, i + 1, style@, cap as nat);
                }
                return out;
            }
        }
        i = i + 1;
    }
    proof {
        if is_ddgs {
            assert(hs.take(hs.len() as int) =~= hs);
        } else {
            assert(first_n(hs, max_results as nat) =~= hs.take(limit as int));
        }
    }
    out
}

proof fn lemma_hit_results_prefix(hs: Seq<HitView>, n: int, style: StyleView)
    requires
        0 <= n <= hs.len(),
    ensures
        hit_results(hs, style).take(hit_results(hs.take(n), style).len() as int) == hit_results(
            hs.take(n),
            style,
        ),
        hit_results(hs.take(n), style).len() <= hit_results(hs, style).len(),
    decreases hs.len() - n,
{
    if n == hs.len() {
        assert(hs.take(n) =~= hs);
        assert(hit_results(hs, style).take(hit_results(hs, style).len() as int) =~= hit_results(
            hs,
            style,
        ));
    } else {
        lemma_hit_results_prefix(hs, n + 1, style);
        let a = hit_results(hs.take(n), style);
        let b = hit_results(hs.take(n + 1), style);
        assert(hs.take(n + 1).drop_last() =~= hs.take(n));
        let full = hit_results(hs, style);
        assert(full.take(b.len() as int) == b);
        if b.len() == a.len() {
            assert(b == a);
        } else {
            assert(b =~= a.push(hit_result(hs[n], style)));
            assert(full.take(a.len() as int) =~= b.take(a.len() as int));
            assert(b.take(a.len() as int) =~= a);
        }
    }
}

proof fn lemma_first_n_of_prefix(hs: Seq<HitView>, n: int, style: StyleView, cap: nat)
    requires
        0 <= n <= hs.len(),
        hit_results(hs.take(n), style).len() >= cap,
        hit_results(hs.take(n - 1), style).len() < cap,
        n >= 1,
    ensures
        first_n(hit_results(hs, style), cap) == hit_results(hs.take(n), style),
{
    lemma_hit_results_prefix(hs, n, style);
    assert(hs.take(n).drop_last() =~= hs.take(n - 1));
    let b = hit_results(hs.take(n), style);
    assert(b.len() == cap);
}

// ---------------------------------------------------------------------------
// DuckDuckGo HTML results
// ---------------------------------------------------------------------------

/// One `.result` block of the DuckDuckGo HTML page.
pub struct DdgBlock {
    /// The first `.result__a` link: its `href` and its text.
    pub link: Option<(Option<String>, String)>,
    /// The text of the first `.result__url` element.
    pub display: Option<String>,
    /// The text of the first `.result__snippet` element.
    pub snippet: Option<String>,
}

pub struct BlockView {
    pub link: Option<(Option<Seq<char>>, Seq<char>)>,
    pub display: Option<Seq<char>>,
    pub snippet: Option<Seq<char>>,
}

impl View for DdgBlock {
    type V = BlockView;

    open spec fn view(&self) -> BlockView {
        BlockView {
            link: match self.link {
                Some((h, t)) => Some((opt_view_s(h), t@)),
                None => None,
            },
            display: opt_view_s(self.display),
            snippet: opt_view_s(self.snippet),
        }
    }
}

pub open spec fn blocks_view(v: Seq<DdgBlock>) -> Seq<BlockView> {
    v.map_values(|b: DdgBlock| b@)
}

/// One element an HTML selector matched: the value of the asked attribute, if
/// it has one, and the element's text.
pub open spec fn match_view(m: (Option<String>, String)) -> (Option<Seq<char>>, Seq<char>) {
    (opt_view_s(m.0), m.1@)
}

/// Per block, per inner selector, the matched elements in document order.
pub open spec fn selection_view(v: Seq<Vec<Vec<(Option<String>, String)>>>) -> Seq<
    Seq<Seq<(Option<Seq<char>>, Seq<char>)>>,
> {
    v.map_values(
        |b: Vec<Vec<(Option<String>, String)>>|
            b@.map_values(
                |ms: Vec<(Option<String>, String)>|
                    ms@.map_values(|m: (Option<String>, String)| match_view(m)),
            ),
    )
}

/// The name for what the HTML parser and CSS selectors (`scraper`) find in a
/// page: for each element matching `block`, for each of the `inner`
/// selectors, the elements inside it that match, each with its `attr`
/// attribute and its text; nothing when a selector does not parse.
pub uninterp spec fn html_selected(
    body: Seq<char>,
    block: Seq<char>,
    inner: Seq<Seq<char>>,
    attr: Seq<char>,
) -> Option<Seq<Seq<Seq<(Option<Seq<char>>, Seq<char>)>>>>;

/// `scraper::Html::parse_document`, `Selector::parse` of each selector, then
/// `select` of the blocks and, inside each, of every inner selector, with
/// `attr` and the collected text of each element.
#[verifier::external_body]
fn html_select(body: &str, block: &str, inner: &Vec<&str>, attr: &str) -> (r: Option<
    Vec<Vec<Vec<(Option<String>, String)>>>,
>)
    ensures
        match r {
            Some(v) => html_selected(body@, block@, inner@.map_values(|s: &str| s@), attr@) == Some(
                selection_view(v@),
            ),
            None => html_selected(body@, block@, inner@.map_values(|s: &str| s@), attr@) is None,
        },
{
    let doc = scraper::Html::parse_document(body);
    let b = scraper::Selector::parse(block).ok()?;
    let sels = inner.iter().map(|s| scraper::Selector::parse(s).ok()).collect::<Option<Vec<_>>>()?;
    Some(doc.select(&b).map(|e| sels.iter().map(|s| e.select(s).map(|m| {
        (m.value().attr(attr).map(str::to_string), m.text().collect::<String>())
    }).collect()).collect()).collect())
}

/// The selectors of the DuckDuckGo HTML page: a result block, and inside it
/// the link, the displayed URL and the snippet.
pub const DDG_BLOCK_SELECTOR: &'static str = ".result";

pub const DDG_LINK_SELECTOR: &'static str = ".result__a";

pub const DDG_DISPLAY_SELECTOR: &'static str = ".result__url";

pub const DDG_SNIPPET_SELECTOR: &'static str = ".result__snippet";

/// The first match of the `k`-th inner selector of a block, if any.
pub open spec fn first_match(b: Seq<Seq<(Option<Seq<char>>, Seq<char>)>>, k: int) -> Option<
    (Option<Seq<char>>, Seq<char>),
> {
    if k < b.len() && b[k].len() > 0 {
        Some(b[k][0])
    } else {
        None
    }
}

/// A result block read from its selection: the first link (its `href` and
/// text), the text of the first displayed URL and of the first snippet.
pub open spec fn block_of(b: Seq<Seq<(Option<Seq<char>>, Seq<char>)>>) -> BlockView {
    BlockView {
        link: first_match(b, 0),
        display: match first_match(b, 1) {
            Some(m) => Some(m.1),
            None => None,
        },
        snippet: match first_match(b, 2) {
            Some(m) => Some(m.1),
            None => None,
        },
    }
}

/// The result blocks of a DuckDuckGo HTML page; nothing when a selector does
/// not parse.
pub open spec fn ddg_blocks(body: Seq<char>) -> Option<Seq<BlockView>> {
    match html_selected(
        body,
        DDG_BLOCK_SELECTOR@,
        seq![DDG_LINK_SELECTOR@, DDG_DISPLAY_SELECTOR@, DDG_SNIPPET_SELECTOR@],
        "href"@,
    ) {
        Some(bs) => Some(bs.map_values(|b: Seq<Seq<(Option<Seq<char>>, Seq<char>)>>| block_of(b))),
        None => None,
    }
}

fn copy_match(m: &(Option<String>, String)) -> (r: (Option<String>, String))
    ensures
        match_view(r) == match_view(*m),
{
    let h = match &m.0 {
        Some(x) => Some(x.clone()),
        None => None,
    };
    (h, m.1.clone())
}

fn first_of(b: &Vec<Vec<(Option<String>, String)>>, k: usize) -> (r: Option<(Option<String>, String)>)
    ensures
        match r {
            Some(m) => first_match(selection_view(seq![*b])[0], k as int) == Some(match_view(m)),
            None => first_match(selection_view(seq![*b])[0], k as int) is None,
        },
{
    if k < b.len() && b[k].len() > 0 {
        Some(copy_match(&b[k][0]))
    } else {
        None
    }
}

/// The result blocks of a DuckDuckGo HTML page.
fn ddg_result_blocks(body: &str) -> (r: Option<Vec<DdgBlock>>)
    ensures
        match r {
            Some(v) => ddg_blocks(body@) == Some(blocks_view(v@)),
            None => ddg_blocks(body@) is None,
        },
{
    let inner: Vec<&str> = vec![DDG_LINK_SELECTOR, DDG_DISPLAY_SELECTOR, DDG_SNIPPET_SELECTOR];
    assert(inner@.map_values(|s: &str| s@) =~= seq![
        DDG_LINK_SELECTOR@,
        DDG_DISPLAY_SELECTOR@,
        DDG_SNIPPET_SELECTOR@,
    ]);
    let sel = match html_select(body, DDG_BLOCK_SELECTOR, &inner, "href") {
        Some(v) => v,
        None => {
            return None;
        },
    };
    let ghost sv = selection_view(sel@);
    let mut out: Vec<DdgBlock> = Vec::new();
    let mut i: usize = 0;
    while i < sel.len()
        invariant
            i <= sel@.len(),
            sv == selection_view(sel@),
            blocks_view(out@) == sv.take(i as int).map_values(
                |b: Seq<Seq<(Option<Seq<char>>, Seq<char>)>>| block_of(b),
            ),
        decreases sel.len() - i,
    {
        let b = &sel[i];
        proof {
            assert(selection_view(seq![*b])[0] == sv[i as int]);
        }
        let link = first_of(b, 0);
        let display = match first_of(b, 1) {
            Some(m) => Some(m.1),
            None => None,
        };
        let snippet = match first_of(b, 2) {
            Some(m) => Some(m.1),
            None => None,
        };
        let blk = DdgBlock { link, display, snippet };
        let ghost o0 = out@;
        out.push(blk);
        proof {
            assert(blk@ == block_of(sv[i as int]));
            assert(blocks_view(out@) =~= blocks_view(o0).push(blk@));
            assert(sv.take(i + 1).map_values(|b: Seq<Seq<(Option<Seq<char>>, Seq<char>)>>| block_of(b))
                =~= sv.take(i as int).map_values(
                |b: Seq<Seq<(Option<Seq<char>>, Seq<char>)>>| block_of(b),
            ).push(block_of(sv[i as int])));
        }
        i = i + 1;
    }
    assert(sv.take(sv.len() as int) =~= sv);
    Some(out)
}

/// The href of a block's link; empty when it has none.
pub open spec fn block_href(b: BlockView) -> Seq<char> {
    match b.link {
        Some((Some(h), _)) => h,
        _ => Seq::empty(),
    }
}

/// The result of a block with a non-empty link.
pub open spec fn block_result(b: BlockView) -> ResultView {
    let href = block_href(b);
    let resolved = resolved_link(href, 0);
    let raw_title = match b.link {
        Some((_, t)) => trim(t),
        None => Seq::empty(),
    };
    let title = cleaned_title(raw_title, href, b.display);
    ResultView {
        title: if title.len() == 0 {
            resolved
        } else {
            title
        },
        url: resolved,
        snippet: match b.snippet {
            Some(s) => trim(s),
            None => Seq::empty(),
        },
        image: None,
        source: Seq::empty(),
        backend: "ddgs"@,
        provenance: DDGS_PROVENANCE@,
    }
}

/// The results of the blocks with a non-empty link, in order.
pub open spec fn block_results(bs: Seq<BlockView>) -> Seq<ResultView>
    decreases bs.len(),
{
    if bs.len() == 0 {
        Seq::empty()
    } else {
        let before = block_results(bs.drop_last());
        if block_href(bs.last()).len() == 0 {
            before
        } else {
            before.push(block_result(bs.last()))
        }
    }
}

fn block_to_result(b: &DdgBlock, href: &str) -> (r: SearchResult)
    requires
        href@ == block_href(b@),
    ensures
        r@ == block_result(b@),
{
    let resolved = resolve_result_url(href, 0);
    let raw_title: Vec<char> = match &b.link {
        Some((_, t)) => trim_exec(chars_of(t.as_str()).as_slice()),
        None => Vec::new(),
    };
    assert(raw_title@ == (match b@.link {
        Some((_, t)) => trim(t),
        None => Seq::<char>::empty(),
    }));
    let raw = string_of(raw_title.as_slice());
    let hint: Option<&str> = match &b.display {
        Some(d) => Some(d.as_str()),
        None => None,
    };
    let title = clean_result_title(raw.as_str(), href, hint);
    let snippet: String = match &b.snippet {
        Some(s) => string_of(trim_exec(chars_of(s.as_str()).as_slice()).as_slice()),
        None => String::new(),
    };
    let t = if chars_of(title.as_str()).len() == 0 {
        resolved.clone()
    } else {
        title
    };
    SearchResult {
        title: t,
        url: resolved,
        snippet,
        image: None,
        source: String::new(),
        backend: String::from_str("ddgs"),
        provenance: String::from_str(DDGS_PROVENANCE),
    }
}

/// The results of the DuckDuckGo HTML result blocks: blocks without a link
/// or with an empty href are skipped, links are unwrapped and titles cleaned;
/// it stops once it has `max_results` results (at least one).
pub fn ddg_block_results(blocks: &Vec<DdgBlock>, max_results: usize) -> (r: Vec<SearchResult>)
    ensures
        results_view(r@) == first_n(block_results(blocks_view(blocks@)), if max_results == 0 {
            1
        } else {
            max_results as nat
        }),
{
    let ghost bs = blocks_view(blocks@);
    let cap: usize = if max_results == 0 {
        1
    } else {
        max_results
    };
    let mut out: Vec<SearchResult> = Vec::new();
    let mut i: usize = 0;
    while i < blocks.len()
        invariant
            i <= blocks@.len(),
            bs == blocks_view(blocks@),
            cap >= 1,
            cap == (if max_results == 0 {
                1
            } else {
                max_results as nat
            }),
            results_view(out@) == block_results(bs.take(i as int)),
            out@.len() < cap,
        decreases blocks.len() - i,
    {
        let ghost o0 = out@;
        proof {
            assert(bs.take(i + 1).drop_last() =~= bs.take(i as int));
            assert(bs.take(i + 1).last() == blocks@[i as int]@);
        }
        let b = &blocks[i];
        let href: String = match &b.link {
            Some((Some(h), _)) => h.clone(),
            _ => String::new(),
        };
        if chars_of(href.as_str()).len() != 0 {
            let res = block_to_result(b, href.as_str());
            out.push(res);
            assert(results_view(out@) =~= results_view(o0).push(block_result(b@)));
            if out.len() >= cap {
                proof {
                    lemma_block_results_prefix(bs, i + 1);
                    assert(block_results(bs.take(i + 1)).len() == cap);
                }
                return out;
            }
        }
        i = i + 1;
    }
    assert(bs.take(bs.len() as int) =~= bs);
    out
}

proof fn lemma_block_results_prefix(bs: Seq<BlockView>, n: int)
    requires
        0 <= n <= bs.len(),
    ensures
        block_results(bs).take(block_results(bs.take(n)).len() as int) == block_results(
            bs.take(n),
        ),
        block_results(bs.take(n)).len() <= block_results(bs).len(),
    decreases bs.len() - n,
{
    if n == bs.len() {
        assert(bs.take(n) =~= bs);
        assert(block_results(bs).take(block_results(bs).len() as int) =~= block_results(bs));
    } else {
        lemma_block_results_prefix(bs, n + 1);
        let a = block_results(bs.take(n));
        let b = block_results(bs.take(n + 1));
        assert(bs.take(n + 1).drop_last() =~= bs.take(n));
        let full = block_results(bs);
        if b.len() == a.len() {
            assert(b == a);
        } else {
            assert(b =~= a.push(block_result(bs[n])));
            assert(full.take(a.len() as int) =~= b.take(a.len() as int));
            assert(b.take(a.len() as int) =~= a);
        }
    }
}

/// Parses the DuckDuckGo HTML result page into at most `max_results` results
/// (at least one when there are any).
pub fn parse_text_html(body: &str, max_results: usize) -> (r: Result<Vec<SearchResult>, NetRailError>)
    ensures
        match ddg_blocks(body@) {
            Some(bs) => r matches Ok(v) && results_view(v@) == first_n(
                block_results(bs),
                if max_results == 0 {
                    1
                } else {
                    max_results as nat
                },
            ),
            None => r matches Err(e) && e.code_view() == "DDGS_SELECTOR"@ && e.detail_view()
                == "Internal error: "@ + "result selector did not parse"@,
        },
{
    match ddg_result_blocks(body) {
        Some(blocks) => Ok(ddg_block_results(&blocks, max_results)),
        None => Err(
            NetRailError::Internal {
                code: "DDGS_SELECTOR",
                message: String::from_str("result selector did not parse"),
            },
        ),
    }
}

// ---------------------------------------------------------------------------
// DuckDuckGo page checks
// ---------------------------------------------------------------------------

/// Whether DuckDuckGo answered with its bot challenge instead of results.
pub open spec fn bot_challenge(body: Seq<char>) -> bool {
    contains(body, "anomaly-modal"@) || contains(body, "bots use DuckDuckGo"@)
}

pub fn is_ddg_bot_challenge(body: &str) -> (r: bool)
    ensures
        r == bot_challenge(body@),
{
    let v = chars_of(body);
    contains_str(v.as_slice(), "anomaly-modal") || contains_str(v.as_slice(), "bots use DuckDuckGo")
}

pub open spec fn vqd_stop(c: char) -> bool {
    c == '&' || c == '\'' || c == '"' || c == ';' || c == ' '
}

/// The length of the token at the front of `s`: up to the first stop character.
pub open spec fn vqd_len(s: Seq<char>) -> nat
    decreases s.len(),
{
    if s.len() == 0 || vqd_stop(s[0]) {
        0
    } else {
        1 + vqd_len(s.drop_first())
    }
}

/// The non-empty token after the first occurrence of `tok`.
pub open spec fn vqd_after(body: Seq<char>, tok: Seq<char>) -> Option<Seq<char>> {
    match find(body, tok) {
        Some(start) => {
            let rest = body.skip(start + tok.len());
            let v = rest.take(vqd_len(rest) as int);
            if v.len() > 0 {
                Some(v)
            } else {
                None
            }
        },
        None => None,
    }
}

/// The image-search token of a DuckDuckGo page: after `vqd=`, `vqd='` or
/// `vqd="`, whichever first gives a non-empty token.
pub open spec fn vqd_token(body: Seq<char>) -> Option<Seq<char>> {
    match vqd_after(body, "vqd="@) {
        Some(v) => Some(v),
        None => match vqd_after(body, "vqd='"@) {
            Some(v) => Some(v),
            None => vqd_after(body, "vqd=\""@),
        },
    }
}

fn vqd_len_exec(s: &[char]) -> (r: usize)
    ensures
        r == vqd_len(s@),
        r <= s@.len(),
{
    let mut i: usize = 0;
    let len = s.len();
    assert(s@.skip(0) =~= s@);
    while i < len && !(s[i] == '&' || s[i] == '\'' || s[i] == '"' || s[i] == ';' || s[i] == ' ')
        invariant
            i <= len,
            len == s@.len(),
            vqd_len(s@) == i + vqd_len(s@.skip(i as int)),
        decreases len - i,
    {
        assert(s@.skip(i as int).drop_first() =~= s@.skip(i + 1));
        i = i + 1;
    }
    i
}

fn vqd_after_exec(body: &[char], tok: &str) -> (r: Option<String>)
    ensures
        opt_view_s(r) == vqd_after(body@, tok@),
{
    let t = chars_of(tok);
    let blen = body.len();
    match find_exec(body, t.as_slice()) {
        Some(start) => {
            proof {
                lemma_find_from_some(body@, t@, 0);
                assert(crate::text::occurs_at(body@, t@, start as int));
            }
            let rest = slice_of(body, start + t.len(), blen);
            assert(rest@ =~= body@.skip(start + t@.len()));
            let n = vqd_len_exec(rest.as_slice());
            let v = slice_of(rest.as_slice(), 0, n);
            assert(v@ =~= rest@.take(n as int));
            if v.len() > 0 {
                Some(string_of(v.as_slice()))
            } else {
                None
            }
        },
        None => None,
    }
}

/// Extracts the image-search token from a DuckDuckGo page.
pub fn extract_vqd_token(body: &str) -> (r: Option<String>)
    ensures
        opt_view_s(r) == vqd_token(body@),
{
    let v = chars_of(body);
    match vqd_after_exec(v.as_slice(), "vqd=") {
        Some(t) => Some(t),
        None => match vqd_after_exec(v.as_slice(), "vqd='") {
            Some(t) => Some(t),
            None => vqd_after_exec(v.as_slice(), "vqd=\""),
        },
    }
}

// ---------------------------------------------------------------------------
// Wikipedia
// ---------------------------------------------------------------------------

/// Runs of whitespace collapsed to single spaces, ends trimmed.
pub open spec fn collapsed(text: Seq<char>) -> Seq<char> {
    join(split_ws(text), seq![' '])
}

pub fn normalize_extract(text: &str) -> (r: String)
    ensures
        r@ == collapsed(text@),
{
    let v = chars_of(text);
    let words = split_ws_exec(v.as_slice());
    let sep: Vec<char> = vec![' '];
    assert(sep@ =~= seq![' ']);
    let j = join_exec(&words, sep.as_slice());
    string_of(j.as_slice())
}

pub const WIKIPEDIA_PROVENANCE: &'static str = "Wikipedia OpenSearch + intro extracts (direct, no API key)";

/// A row of the OpenSearch answer: title, URL and (trimmed) description.
pub struct WikiRow {
    pub title: String,
    pub url: String,
    pub snippet: String,
}

pub struct RowView {
    pub title: Seq<char>,
    pub url: Seq<char>,
    pub snippet: Seq<char>,
}

impl View for WikiRow {
    type V = RowView;

    open spec fn view(&self) -> RowView {
        RowView { title: self.title@, url: self.url@, snippet: self.snippet@ }
    }
}

pub open spec fn rows_view(v: Seq<WikiRow>) -> Seq<RowView> {
    v.map_values(|r: WikiRow| r@)
}

pub open spec fn fields_view(v: Seq<Field>) -> Seq<FieldView> {
    v.map_values(|f: Field| f@)
}

/// The string at position `i` of a JSON array, if there is one.
pub open spec fn text_at(v: Seq<FieldView>, i: int) -> Option<Seq<char>> {
    if 0 <= i < v.len() {
        text_of(v[i])
    } else {
        None
    }
}

/// The rows of the OpenSearch arrays (titles, descriptions, URLs) read in
/// title order: titles that are not strings and rows without a URL are
/// skipped; the walk stops once it has `max` rows (at least one). Also the
/// titles of the rows without a description, whose intro extract is fetched.
pub open spec fn wiki_rows(
    titles: Seq<FieldView>,
    descs: Seq<FieldView>,
    urls: Seq<FieldView>,
    max: nat,
    n: nat,
) -> (Seq<RowView>, Seq<Seq<char>>)
    decreases n,
{
    if n == 0 {
        (Seq::empty(), Seq::empty())
    } else {
        let before = wiki_rows(titles, descs, urls, max, (n - 1) as nat);
        let i = n - 1;
        if before.0.len() >= (if max == 0 {
            1
        } else {
            max
        }) {
            before
        } else {
            match text_at(titles, i) {
                None => before,
                Some(title) => {
                    let url = match text_at(urls, i) {
                        Some(u) => u,
                        None => Seq::empty(),
                    };
                    if url.len() == 0 {
                        before
                    } else {
                        let snippet = trim(
                            match text_at(descs, i) {
                                Some(d) => d,
                                None => Seq::empty(),
                            },
                        );
                        (
                            before.0.push(RowView { title, url, snippet }),
                            if snippet.len() == 0 {
                                before.1.push(title)
                            } else {
                                before.1
                            },
                        )
                    }
                },
            }
        }
    }
}

fn text_at_exec(v: &Vec<Field>, i: usize) -> (r: Option<String>)
    ensures
        opt_view_s(r) == text_at(fields_view(v@), i as int),
{
    if i < v.len() {
        field_text(&v[i])
    } else {
        None
    }
}

/// Reads the rows of an OpenSearch answer.
pub fn wikipedia_rows(
    titles: &Vec<Field>,
    descriptions: &Vec<Field>,
    urls: &Vec<Field>,
    max_results: usize,
) -> (r: (Vec<WikiRow>, Vec<String>))
    ensures
        (rows_view(r.0@), crate::config::strings_view(r.1@)) == wiki_rows(
            fields_view(titles@),
            fields_view(descriptions@),
            fields_view(urls@),
            max_results as nat,
            titles@.len(),
        ),
{
    let ghost tv = fields_view(titles@);
    let ghost dv = fields_view(descriptions@);
    let ghost uv = fields_view(urls@);
    let cap: usize = if max_results == 0 {
        1
    } else {
        max_results
    };
    let mut rows: Vec<WikiRow> = Vec::new();
    let mut pending: Vec<String> = Vec::new();
    let mut i: usize = 0;
    assert(rows_view(rows@) =~= Seq::<RowView>::empty());
    assert(crate::config::strings_view(pending@) =~= Seq::<Seq<char>>::empty());
    while i < titles.len()
        invariant
            i <= titles@.len(),
            tv == fields_view(titles@),
            dv == fields_view(descriptions@),
            uv == fields_view(urls@),
            cap == (if max_results == 0 {
                1
            } else {
                max_results as nat
            }),
            (rows_view(rows@), crate::config::strings_view(pending@)) == wiki_rows(
                tv,
                dv,
                uv,
                max_results as nat,
                i as nat,
            ),
            rows@.len() < cap,
        decreases titles.len() - i,
    {
        let ghost r0 = rows@;
        let ghost p0 = pending@;
        if let Some(title) = text_at_exec(titles, i) {
            let url: String = match text_at_exec(urls, i) {
                Some(u) => u,
                None => String::new(),
            };
            if chars_of(url.as_str()).len() != 0 {
                let d: Vec<char> = match text_at_exec(descriptions, i) {
                    Some(d) => chars_of(d.as_str()),
                    None => Vec::new(),
                };
                let snippet = string_of(trim_exec(d.as_slice()).as_slice());
                let empty = chars_of(snippet.as_str()).len() == 0;
                if empty {
                    pending.push(title.clone());
                }
                let ghost row = RowView { title: title@, url: url@, snippet: snippet@ };
                rows.push(WikiRow { title, url, snippet });
                proof {
                    assert(rows_view(rows@) =~= rows_view(r0).push(row));
                    if empty {
                        assert(crate::config::strings_view(pending@) =~= crate::config::strings_view(
                            p0,
                        ).push(row.title));
                    }
                }
                if rows.len() >= cap {
                    proof {
                        lemma_wiki_rows_full(tv, dv, uv, max_results as nat, (i + 1) as nat, titles@.len());
                    }
                    return (rows, pending);
                }
            }
        }
        i = i + 1;
    }
    (rows, pending)
}

proof fn lemma_wiki_rows_full(
    t: Seq<FieldView>,
    d: Seq<FieldView>,
    u: Seq<FieldView>,
    max: nat,
    n: nat,
    m: nat,
)
    requires
        n <= m,
        wiki_rows(t, d, u, max, n).0.len() >= (if max == 0 {
            1
        } else {
            max
        }),
    ensures
        wiki_rows(t, d, u, max, m) == wiki_rows(t, d, u, max, n),
    decreases m - n,
{
    if n < m {
        lemma_wiki_rows_full(t, d, u, max, n, (m - 1) as nat);
    }
}

/// The intro extracts by lowercased title: for each page with a title and
/// an extract, the extract with its whitespace collapsed, when not empty; a
/// later page with the same lowercased title replaces an earlier one.
pub open spec fn extracts_of(pages: Seq<(FieldView, FieldView)>) -> Map<Seq<char>, Seq<char>>
    decreases pages.len(),
{
    if pages.len() == 0 {
        Map::empty()
    } else {
        let before = extracts_of(pages.drop_last());
        let (t, e) = pages.last();
        match (text_of(t), text_of(e)) {
            (Some(title), Some(extract)) => if collapsed(extract).len() > 0 {
                before.insert(crate::text::lowercase(title), collapsed(extract))
            } else {
                before
            },
            _ => before,
        }
    }
}

/// The snippet of a row: its description, else the extract of its title.
pub open spec fn wiki_result(row: RowView, extracts: Map<Seq<char>, Seq<char>>) -> ResultView {
    let key = crate::text::lowercase(row.title);
    ResultView {
        title: row.title,
        url: row.url,
        snippet: if row.snippet.len() == 0 && extracts.contains_key(key) {
            extracts[key]
        } else {
            row.snippet
        },
        image: None,
        source: "wikipedia"@,
        backend: "wikipedia"@,
        provenance: WIKIPEDIA_PROVENANCE@,
    }
}

fn key_position(keys: &Vec<Vec<char>>, k: &[char]) -> (r: Option<usize>)
    ensures
        match r {
            Some(j) => j < keys@.len() && keys@[j as int]@ == k@,
            None => forall|i: int| 0 <= i < keys@.len() ==> keys@[i]@ != k@,
        },
{
    let mut j: usize = 0;
    while j < keys.len()
        invariant
            j <= keys@.len(),
            forall|i: int| 0 <= i < j ==> keys@[i]@ != k@,
        decreases keys.len() - j,
    {
        if crate::text::chars_eq(keys[j].as_slice(), k) {
            return Some(j);
        }
        j = j + 1;
    }
    None
}

/// The results of the rows, snippets filled from the intro extracts of the
/// pages (title and extract fields of each page).
pub fn wikipedia_results(rows: &Vec<WikiRow>, pages: &Vec<(Field, Field)>) -> (r: Vec<SearchResult>)
    ensures
        results_view(r@) == rows_view(rows@).map_values(
            |row: RowView| wiki_result(row, extracts_of(pages@.map_values(|p: (Field, Field)| (p.0@, p.1@)))),
        ),
{
    let ghost pv = pages@.map_values(|p: (Field, Field)| (p.0@, p.1@));
    let mut keys: Vec<Vec<char>> = Vec::new();
    let mut vals: Vec<Vec<char>> = Vec::new();
    let mut i: usize = 0;
    while i < pages.len()
        invariant
            i <= pages@.len(),
            pv == pages@.map_values(|p: (Field, Field)| (p.0@, p.1@)),
            keys@.len() == vals@.len(),
            forall|a: int, b: int| 0 <= a < b < keys@.len() ==> keys@[a]@ != keys@[b]@,
            forall|k: Seq<char>|
                extracts_of(pv.take(i as int)).contains_key(k) <==> exists|a: int|
                    0 <= a < keys@.len() && #[trigger] keys@[a]@ == k,
            forall|a: int|
                0 <= a < keys@.len() ==> extracts_of(pv.take(i as int))[#[trigger] keys@[a]@]
                    == vals@[a]@,
        decreases pages.len() - i,
    {
        proof {
            assert(pv.take(i + 1).drop_last() =~= pv.take(i as int));
            assert(pv.take(i + 1).last() == (pages@[i as int].0@, pages@[i as int].1@));
        }
        let ghost k0 = keys@;
        let ghost v0 = vals@;
        match (field_text(&pages[i].0), field_text(&pages[i].1)) {
            (Some(title), Some(extract)) => {
                let norm = normalize_extract(extract.as_str());
                let nv = chars_of(norm.as_str());
                if nv.len() == 0 {
                    assert(extracts_of(pv.take(i + 1)) == extracts_of(pv.take(i as int)));
                }
                if nv.len() > 0 {
                    let key = crate::text::lowercase_exec(chars_of(title.as_str()).as_slice());
                    match key_position(&keys, key.as_slice()) {
                        Some(j) => {
                            vals.set(j, nv);
                            proof {
                                let m0 = extracts_of(pv.take(i as int));
                                let m1 = extracts_of(pv.take(i + 1));
                                assert(m1 == m0.insert(key@, nv@));
                                assert(m0.contains_key(key@)) by {
                                    assert(keys@[j as int]@ == key@);
                                }
                                assert forall|k: Seq<char>| #[trigger] m1.contains_key(k)
                                    <==> m0.contains_key(k) by {}
                                assert forall|a: int|
                                    0 <= a < keys@.len() implies extracts_of(pv.take(i + 1))[
                                    #[trigger] keys@[a]@] == vals@[a]@ by {
                                    if a != j {
                                        assert(keys@[a]@ != keys@[j as int]@);
                                    }
                                }
                            }
                        },
                        None => {
                            let ghost kk = key@;
                            keys.push(key);
                            vals.push(nv);
                            proof {
                                assert forall|a: int, b: int|
                                    0 <= a < b < keys@.len() implies keys@[a]@ != keys@[b]@ by {
                                    if b == k0.len() {
                                        assert(keys@[a] == k0[a]);
                                    } else {
                                        assert(keys@[a] == k0[a]);
                                        assert(keys@[b] == k0[b]);
                                    }
                                }
                                let m1 = extracts_of(pv.take(i + 1));
                                assert forall|k: Seq<char>|
                                    #[trigger] m1.contains_key(k) <==> exists|a: int|
                                        0 <= a < keys@.len() && #[trigger] keys@[a]@ == k by {
                                    if k == kk {
                                        assert(keys@[k0.len() as int]@ == k);
                                    } else if extracts_of(pv.take(i as int)).contains_key(k) {
                                        let a = choose|a: int|
                                            0 <= a < k0.len() && #[trigger] k0[a]@ == k;
                                        assert(keys@[a] == k0[a]);
                                    } else {
                                        if exists|a: int| 0 <= a < keys@.len() && #[trigger] keys@[a]@ == k {
                                            let a = choose|a: int|
                                                0 <= a < keys@.len() && #[trigger] keys@[a]@ == k;
                                            if a < k0.len() {
                                                assert(keys@[a] == k0[a]);
                                            }
                                        }
                                    }
                                }
                                assert forall|a: int|
                                    0 <= a < keys@.len() implies extracts_of(pv.take(i + 1))[
                                    #[trigger] keys@[a]@] == vals@[a]@ by {
                                    if a < k0.len() {
                                        assert(keys@[a] == k0[a]);
                                        assert(vals@[a] == v0[a]);
                                        assert(k0[a]@ != kk);
                                    }
                                }
                            }
                        },
                    }
                }
            },
            _ => {
                assert(extracts_of(pv.take(i + 1)) == extracts_of(pv.take(i as int)));
            },
        }
        i = i + 1;
    }
    assert(pv.take(pv.len() as int) =~= pv);
    let ghost ex = extracts_of(pv);
    let mut out: Vec<SearchResult> = Vec::new();
    let mut j: usize = 0;
    while j < rows.len()
        invariant
            j <= rows@.len(),
            ex == extracts_of(pv),
            keys@.len() == vals@.len(),
            forall|k: Seq<char>|
                ex.contains_key(k) <==> exists|a: int| 0 <= a < keys@.len() && #[trigger] keys@[a]@ == k,
            forall|a: int| 0 <= a < keys@.len() ==> ex[#[trigger] keys@[a]@] == vals@[a]@,
            results_view(out@) == rows_view(rows@).take(j as int).map_values(
                |row: RowView| wiki_result(row, ex),
            ),
        decreases rows.len() - j,
    {
        let row = &rows[j];
        let key = crate::text::lowercase_exec(chars_of(row.title.as_str()).as_slice());
        let snippet: String = if chars_of(row.snippet.as_str()).len() == 0 {
            match key_position(&keys, key.as_slice()) {
                Some(a) => string_of(vals[a].as_slice()),
                None => row.snippet.clone(),
            }
        } else {
            row.snippet.clone()
        };
        let res = SearchResult {
            title: row.title.clone(),
            url: row.url.clone(),
            snippet,
            image: None,
            source: String::from_str("wikipedia"),
            backend: String::from_str("wikipedia"),
            provenance: String::from_str(WIKIPEDIA_PROVENANCE),
        };
        let ghost o0 = out@;
        proof {
            assert(res@ == wiki_result(row@, ex));
        }
        out.push(res);
        proof {
            let f = |row: RowView| wiki_result(row, ex);
            assert(rows_view(rows@).take(j + 1) =~= rows_view(rows@).take(j as int).push(row@));
            assert(rows_view(rows@).take(j + 1).map_values(f) =~= rows_view(rows@).take(
                j as int,
            ).map_values(f).push(f(row@)));
            assert(results_view(out@) =~= results_view(o0).push(res@));
        }
        j = j + 1;
    }
    assert(rows_view(rows@).take(rows@.len() as int) =~= rows_view(rows@));
    out
}

// ---------------------------------------------------------------------------
// Request URLs
// ---------------------------------------------------------------------------

/// The name for the percent-encoding of a text (`urlencoding::encode`: UTF-8
/// bytes outside `A-Z a-z 0-9 - . _ ~` written as `%XX`).
pub uninterp spec fn url_encoded(s: Seq<char>) -> Seq<char>;

/// `urlencoding::encode`.
#[verifier::external_body]
fn encode_component(s: &str) -> (r: String)
    ensures
        r@ == url_encoded(s@),
{
    urlencoding::encode(s).into_owned()
}

fn cat(a: &str, b: &str) -> (r: String)
    ensures
        r@ == a@ + b@,
{
    crate::backends::concat_str(a, b)
}

/// A base URL without trailing slashes.
pub open spec fn base_url(raw: Seq<char>) -> Seq<char> {
    crate::text::trim_end_char(raw, '/')
}

pub fn normalize_base_url(raw: &str) -> (r: String)
    ensures
        r@ == base_url(raw@),
{
    let t = crate::text::trim_end_char_exec(chars_of(raw).as_slice(), '/');
    string_of(t.as_slice())
}

/// The form body of a DuckDuckGo HTML search.
pub fn ddg_text_form(query: &str) -> (r: String)
    ensures
        r@ == "q="@ + url_encoded(query@) + "&b=&l=us-en"@,
{
    let q = encode_component(query);
    let a = cat("q=", q.as_str());
    cat(a.as_str(), "&b=&l=us-en")
}

/// The page a DuckDuckGo image-search token is read from.
pub fn ddg_token_url(base: &str, query: &str) -> (r: String)
    ensures
        r@ == base@ + "/?q="@ + url_encoded(query@),
{
    let q = encode_component(query);
    let a = cat(base, "/?q=");
    cat(a.as_str(), q.as_str())
}

/// The DuckDuckGo image-search endpoint for a query and its token.
pub fn ddg_images_url(base: &str, query: &str, vqd: &str) -> (r: String)
    ensures
        r@ == base@ + "/i.js?o=json&q="@ + url_encoded(query@) + "&vqd="@ + url_encoded(vqd@),
{
    let q = encode_component(query);
    let v = encode_component(vqd);
    let a = cat(base, "/i.js?o=json&q=");
    let b = cat(a.as_str(), q.as_str());
    let c = cat(b.as_str(), "&vqd=");
    cat(c.as_str(), v.as_str())
}

/// The Wikipedia OpenSearch request for a query.
pub fn wikipedia_search_url(query: &str, max_results: u64) -> (r: String)
    ensures
        r@ == "https://en.wikipedia.org/w/api.php?action=opensearch&profile=fuzzy&search="@
            + url_encoded(query@) + "&limit="@ + crate::error::decimal(max_results as nat)
            + "&namespace=0&format=json"@,
{
    let q = encode_component(query);
    let a = cat(
        "https://en.wikipedia.org/w/api.php?action=opensearch&profile=fuzzy&search=",
        q.as_str(),
    );
    let b = cat(a.as_str(), "&limit=");
    let n = string_of(crate::error::decimal_exec(max_results).as_slice());
    let c = cat(b.as_str(), n.as_str());
    cat(c.as_str(), "&namespace=0&format=json")
}

/// The Wikipedia request for the intro extracts of titles.
pub fn wikipedia_extracts_url(titles: &Vec<String>) -> (r: String)
    ensures
        r@ == "https://en.wikipedia.org/w/api.php?action=query&format=json&prop=extracts&exintro=1&explaintext=1&exchars=400&redirects=1&titles="@
            + join(
            crate::config::strings_view(titles@).map_values(|t: Seq<char>| url_encoded(t)),
            "|"@,
        ),
{
    let ghost tv = crate::config::strings_view(titles@);
    let mut parts: Vec<Vec<char>> = Vec::new();
    let mut i: usize = 0;
    while i < titles.len()
        invariant
            i <= titles@.len(),
            tv == crate::config::strings_view(titles@),
            parts@.map_values(|p: Vec<char>| p@) == tv.take(i as int).map_values(
                |t: Seq<char>| url_encoded(t),
            ),
        decreases titles.len() - i,
    {
        let ghost p0 = parts@;
        let e = encode_component(titles[i].as_str());
        let ev = chars_of(e.as_str());
        parts.push(ev);
        proof {
            let f = |t: Seq<char>| url_encoded(t);
            assert(tv.take(i + 1) =~= tv.take(i as int).push(tv[i as int]));
            assert(tv.take(i + 1).map_values(f) =~= tv.take(i as int).map_values(f).push(
                f(tv[i as int]),
            ));
            assert(parts@.map_values(|p: Vec<char>| p@) =~= p0.map_values(|p: Vec<char>| p@).push(
                f(tv[i as int]),
            ));
        }
        i = i + 1;
    }
    assert(tv.take(tv.len() as int) =~= tv);
    let sep = chars_of("|");
    let j = join_exec(&parts, sep.as_slice());
    let js = string_of(j.as_slice());
    cat(
        "https://en.wikipedia.org/w/api.php?action=query&format=json&prop=extracts&exintro=1&explaintext=1&exchars=400&redirects=1&titles=",
        js.as_str(),
    )
}

/// Whether a SearXNG base URL can be health-checked at all.
pub fn searxng_url_usable(base: &str) -> (r: bool)
    ensures
        r == (crate::text::starts_with(base@, "http://"@) || crate::text::starts_with(
            base@,
            "https://"@,
        )),
{
    let b = chars_of(base);
    crate::text::starts_with_str(b.as_slice(), "http://") || crate::text::starts_with_str(
        b.as_slice(),
        "https://",
    )
}

/// The category a SearXNG search asks for.
pub fn searxng_category(mode: crate::types::SearchMode) -> (r: &'static str)
    ensures
        r@ == (match mode {
            crate::types::SearchMode::Images => "images"@,
            crate::types::SearchMode::Web => "general"@,
        }),
{
    match mode {
        crate::types::SearchMode::Images => "images",
        crate::types::SearchMode::Web => "general",
    }
}

// ---------------------------------------------------------------------------
// Backend failures
// ---------------------------------------------------------------------------

/// An HTTP failure of a backend, with the backend's own code.
pub fn backend_http_error(code: &'static str, backend: &str, status: u16) -> (e: NetRailError)
    ensures
        e matches NetRailError::BackendHttp { code: c, backend: b, status: s } && c@ == code@ && b@
            == backend@ && s == status,
{
    NetRailError::BackendHttp { code, backend: String::from_str(backend), status }
}

/// The DuckDuckGo HTML page, refused when it is the bot challenge.
pub fn check_ddg_page(body: &str) -> (r: Result<(), NetRailError>)
    ensures
        r is Ok <==> !bot_challenge(body@),
        r matches Err(e) ==> e.code_view() == "DDGS_BOT_CHALLENGE"@ && e.status_view() == 502
            && e.detail_view() == "ddgs"@ + ": "@ + "DuckDuckGo blocked automated search (bot challenge). Enable Brave or SearXNG."@,
{
    if is_ddg_bot_challenge(body) {
        Err(
            NetRailError::BackendFailure {
                code: "DDGS_BOT_CHALLENGE",
                backend: String::from_str("ddgs"),
                message: String::from_str(
                    "DuckDuckGo blocked automated search (bot challenge). Enable Brave or SearXNG.",
                ),
            },
        )
    } else {
        Ok(())
    }
}

/// The image-search token of a DuckDuckGo page, or `DDGS_VQD_TOKEN_MISSING`.
pub fn vqd_or_error(body: &str) -> (r: Result<String, NetRailError>)
    ensures
        match vqd_token(body@) {
            Some(t) => r matches Ok(v) && v@ == t,
            None => r matches Err(e) && e.code_view() == "DDGS_VQD_TOKEN_MISSING"@ && e.detail_view()
                == "ddgs"@ + ": "@ + "could not obtain image search token"@,
        },
{
    match extract_vqd_token(body) {
        Some(t) => Ok(t),
        None => Err(
            NetRailError::BackendFailure {
                code: "DDGS_VQD_TOKEN_MISSING",
                backend: String::from_str("ddgs"),
                message: String::from_str("could not obtain image search token"),
            },
        ),
    }
}

/// An image-search answer that is not JSON (`DDGS_IMAGES_PARSE`).
pub fn ddg_images_parse_error(detail: &str) -> (e: NetRailError)
    ensures
        e matches NetRailError::Parse { code, message } && code@ == "DDGS_IMAGES_PARSE"@
            && message@ == "ddgs images parse: "@ + detail@,
{
    NetRailError::Parse {
        code: "DDGS_IMAGES_PARSE",
        message: crate::backends::concat_str("ddgs images parse: ", detail),
    }
}

/// Where each role of a hit is read inside one item of a backend's JSON
/// answer, as a JSON Pointer relative to the item; a role without a pointer
/// is absent.
pub struct HitPaths {
    pub url: Option<&'static str>,
    pub url_alt: Option<&'static str>,
    pub title: Option<&'static str>,
    pub text: Option<&'static str>,
    pub source: Option<&'static str>,
    pub thumb: Option<&'static str>,
    pub thumb_alt: Option<&'static str>,
}

pub open spec fn opt_str(o: Option<&'static str>) -> Option<Seq<char>> {
    match o {
        Some(s) => Some(s@),
        None => None,
    }
}

/// The field at `item + rel` in the answer, absent without a pointer.
pub open spec fn field_at(text: Seq<char>, item: Seq<char>, rel: Option<Seq<char>>) -> FieldView {
    match rel {
        Some(r) => crate::json::json_pointer(text, item + r),
        None => FieldView::Absent,
    }
}

/// The JSON Pointer of the `i`-th item of the list at `list`.
pub open spec fn item_ptr(list: Seq<char>, i: nat) -> Seq<char> {
    list + "/"@ + crate::error::decimal(i)
}

/// The `i`-th item of the list at `list` as a hit.
pub open spec fn hit_at(text: Seq<char>, list: Seq<char>, paths: HitPaths, i: nat) -> HitView {
    let p = item_ptr(list, i);
    HitView {
        url: field_at(text, p, opt_str(paths.url)),
        url_alt: field_at(text, p, opt_str(paths.url_alt)),
        title: field_at(text, p, opt_str(paths.title)),
        text: field_at(text, p, opt_str(paths.text)),
        source: field_at(text, p, opt_str(paths.source)),
        thumb: field_at(text, p, opt_str(paths.thumb)),
        thumb_alt: field_at(text, p, opt_str(paths.thumb_alt)),
    }
}

/// The hits of a JSON answer: one per item of the array at `list`; none when
/// no array is there.
pub open spec fn hits_at(text: Seq<char>, list: Seq<char>, paths: HitPaths) -> Seq<HitView> {
    match crate::json::json_array_len(text, list) {
        Some(n) => Seq::new(n, |i: int| hit_at(text, list, paths, i as nat)),
        None => Seq::empty(),
    }
}

fn read_field(doc: &crate::json::JsonDoc, item: &str, rel: Option<&'static str>) -> (r: Field)
    ensures
        r@ == field_at(doc@, item@, opt_str(rel)),
{
    match rel {
        Some(x) => crate::json::json_field(doc, crate::backends::concat_str(item, x).as_str()),
        None => Field::Absent,
    }
}

/// The hits of a backend's JSON answer, read by `paths` from each item of the
/// array at `list`; the parser's message when the body is not JSON.
pub fn json_hits(body: &str, list: &str, paths: &HitPaths) -> (r: Result<Vec<RawHit>, String>)
    ensures
        crate::json::json_parses(body@) ==> (r matches Ok(h) && hits_view(h@) == hits_at(
            body@,
            list@,
            *paths,
        )),
        !crate::json::json_parses(body@) ==> r is Err,
{
    let doc = match crate::json::parse_json(body) {
        Ok(d) => d,
        Err(m) => {
            return Err(m);
        },
    };
    let n = match crate::json::json_len(&doc, list) {
        Some(n) => n,
        None => {
            assert(hits_view(Seq::<RawHit>::empty()) =~= hits_at(body@, list@, *paths));
            return Ok(Vec::new());
        },
    };
    let mut hits: Vec<RawHit> = Vec::new();
    let mut i: usize = 0;
    while i < n
        invariant
            i <= n,
            doc@ == body@,
            crate::json::json_array_len(body@, list@) == Some(n as nat),
            hits_view(hits@) == hits_at(body@, list@, *paths).take(i as int),
        decreases n - i,
    {
        let a = crate::backends::concat_str(list, "/");
        let p = crate::backends::concat_str(
            a.as_str(),
            string_of(crate::error::decimal_exec(i as u64).as_slice()).as_str(),
        );
        assert(p@ == item_ptr(list@, i as nat));
        let h = RawHit {
            url: read_field(&doc, p.as_str(), paths.url),
            url_alt: read_field(&doc, p.as_str(), paths.url_alt),
            title: read_field(&doc, p.as_str(), paths.title),
            text: read_field(&doc, p.as_str(), paths.text),
            source: read_field(&doc, p.as_str(), paths.source),
            thumb: read_field(&doc, p.as_str(), paths.thumb),
            thumb_alt: read_field(&doc, p.as_str(), paths.thumb_alt),
        };
        let ghost h0 = hits@;
        hits.push(h);
        proof {
            assert(h@ == hit_at(body@, list@, *paths, i as nat));
            assert(hits_view(hits@) =~= hits_view(h0).push(h@));
            assert(hits_at(body@, list@, *paths).take(i + 1) =~= hits_at(body@, list@, *paths).take(
                i as int,
            ).push(hit_at(body@, list@, *paths, i as nat)));
        }
        i = i + 1;
    }
    assert(hits_at(body@, list@, *paths).take(n as int) =~= hits_at(body@, list@, *paths));
    Ok(hits)
}

/// Where the roles of a DuckDuckGo image-search item are: `url` (else
/// `image`), `title`, `source` as snippet and source, `thumbnail` (else
/// `image`).
pub open spec fn ddg_image_paths() -> HitPaths {
    HitPaths {
        url: Some("/url"),
        url_alt: Some("/image"),
        title: Some("/title"),
        text: Some("/source"),
        source: Some("/source"),
        thumb: Some("/thumbnail"),
        thumb_alt: Some("/image"),
    }
}

/// The hits of a DuckDuckGo image-search answer (the items of `results`), or
/// `DDGS_IMAGES_PARSE` when the body is not JSON.
pub fn ddg_image_hits(body: &str) -> (r: Result<Vec<RawHit>, NetRailError>)
    ensures
        crate::json::json_parses(body@) ==> (r matches Ok(h) && hits_view(h@) == hits_at(
            body@,
            "/results"@,
            ddg_image_paths(),
        )),
        !crate::json::json_parses(body@) ==> (r matches Err(e) && e matches NetRailError::Parse {
            code,
            message,
        } && code@ == "DDGS_IMAGES_PARSE"@),
{
    let paths = HitPaths {
        url: Some("/url"),
        url_alt: Some("/image"),
        title: Some("/title"),
        text: Some("/source"),
        source: Some("/source"),
        thumb: Some("/thumbnail"),
        thumb_alt: Some("/image"),
    };
    match json_hits(body, "/results", &paths) {
        Ok(h) => Ok(h),
        Err(m) => Err(ddg_images_parse_error(m.as_str())),
    }
}

/// Where the roles of a SearXNG item are: `url`, `title`, `content` as
/// snippet, `engine` as source, `thumbnail` (else `img_src`).
pub open spec fn searxng_paths() -> HitPaths {
    HitPaths {
        url: Some("/url"),
        url_alt: None,
        title: Some("/title"),
        text: Some("/content"),
        source: Some("/engine"),
        thumb: Some("/thumbnail"),
        thumb_alt: Some("/img_src"),
    }
}

/// The hits of a SearXNG answer (the items of `results`), or the parser's
/// message when the body is not JSON.
pub fn searxng_hits(body: &str) -> (r: Result<Vec<RawHit>, String>)
    ensures
        crate::json::json_parses(body@) ==> (r matches Ok(h) && hits_view(h@) == hits_at(
            body@,
            "/results"@,
            searxng_paths(),
        )),
        !crate::json::json_parses(body@) ==> r is Err,
{
    let paths = HitPaths {
        url: Some("/url"),
        url_alt: None,
        title: Some("/title"),
        text: Some("/content"),
        source: Some("/engine"),
        thumb: Some("/thumbnail"),
        thumb_alt: Some("/img_src"),
    };
    json_hits(body, "/results", &paths)
}

/// Where the roles of a Brave item are: web results (under `web/results`)
/// give `url`, `title` and `description`; image results (under `results`)
/// give `url`, `title`, `source` as snippet and source, and `thumbnail/src`.
pub open spec fn brave_paths(mode: crate::types::SearchMode) -> (Seq<char>, HitPaths) {
    match mode {
        crate::types::SearchMode::Web => (
            "/web/results"@,
            HitPaths {
                url: Some("/url"),
                url_alt: None,
                title: Some("/title"),
                text: Some("/description"),
                source: None,
                thumb: None,
                thumb_alt: None,
            },
        ),
        crate::types::SearchMode::Images => (
            "/results"@,
            HitPaths {
                url: Some("/url"),
                url_alt: None,
                title: Some("/title"),
                text: Some("/source"),
                source: Some("/source"),
                thumb: Some("/thumbnail/src"),
                thumb_alt: None,
            },
        ),
    }
}

/// The hits of a Brave answer, or a JSON error when the body is not JSON.
pub fn brave_hits(body: &str, mode: crate::types::SearchMode) -> (r: Result<Vec<RawHit>, NetRailError>)
    ensures
        crate::json::json_parses(body@) ==> (r matches Ok(h) && hits_view(h@) == hits_at(
            body@,
            brave_paths(mode).0,
            brave_paths(mode).1,
        )),
        !crate::json::json_parses(body@) ==> (r matches Err(e) && e.code_view() == "JSON_PARSE_ERROR"@),
{
    let r = match mode {
        crate::types::SearchMode::Web => {
            let paths = HitPaths {
                url: Some("/url"),
                url_alt: None,
                title: Some("/title"),
                text: Some("/description"),
                source: None,
                thumb: None,
                thumb_alt: None,
            };
            json_hits(body, "/web/results", &paths)
        },
        crate::types::SearchMode::Images => {
            let paths = HitPaths {
                url: Some("/url"),
                url_alt: None,
                title: Some("/title"),
                text: Some("/source"),
                source: Some("/source"),
                thumb: Some("/thumbnail/src"),
                thumb_alt: None,
            };
            json_hits(body, "/results", &paths)
        },
    };
    match r {
        Ok(h) => Ok(h),
        Err(m) => Err(crate::error::json_parse_error(m)),
    }
}

/// The number of results asked of Brave: the wanted number, at most 20 (the
/// API's cap per request).
pub fn brave_count(max_results: usize) -> (r: usize)
    ensures
        r == (if max_results < 20 {
            max_results
        } else {
            20
        }),
{
    if max_results < 20 {
        max_results
    } else {
        20
    }
}

/// Whether a DuckDuckGo result block has a link to follow.
pub open spec fn has_href(b: BlockView) -> bool {
    block_href(b).len() > 0
}

/// The results of DuckDuckGo HTML blocks link, in order, to the destinations
/// of the blocks' links: each link is resolved (a `//duckduckgo.com/l/?uddg=`
/// redirect to the address it wraps), and blocks without a link give none.
pub proof fn lemma_block_result_urls(bs: Seq<BlockView>)
    ensures
        block_results(bs).map_values(|r: ResultView| r.url) == bs.filter(|b: BlockView| has_href(b)).map_values(
            |b: BlockView| resolved_link(block_href(b), 0),
        ),
    decreases bs.len(),
{
    reveal(Seq::filter);
    if bs.len() > 0 {
        lemma_block_result_urls(bs.drop_last());
        let f0 = bs.drop_last().filter(|b: BlockView| has_href(b));
        if has_href(bs.last()) {
            assert(bs.filter(|b: BlockView| has_href(b)) == f0.push(bs.last()));
            assert(block_results(bs).map_values(|r: ResultView| r.url) =~= block_results(
                bs.drop_last(),
            ).map_values(|r: ResultView| r.url).push(resolved_link(block_href(bs.last()), 0)));
            assert(f0.push(bs.last()).map_values(|b: BlockView| resolved_link(block_href(b), 0))
                =~= f0.map_values(|b: BlockView| resolved_link(block_href(b), 0)).push(
                resolved_link(block_href(bs.last()), 0),
            ));
        } else {
            assert(bs.filter(|b: BlockView| has_href(b)) == f0);
        }
    } else {
        assert(block_results(bs).map_values(|r: ResultView| r.url) =~= Seq::<Seq<char>>::empty());
        assert(bs.filter(|b: BlockView| has_href(b)).map_values(
            |b: BlockView| resolved_link(block_href(b), 0),
        ) =~= Seq::<Seq<char>>::empty());
    }
}

} // verus!

//! Search modes, results and responses.
use vstd::prelude::*;

verus! {

/// Search operators every backend understands.
pub const OPERATORS: [&'static str; 6] = ["site:", "filetype:", "intitle:", "inurl:", "\"", "-"];

#[derive(Debug, Clone, Copy, PartialEq, Eq, Structural)]
pub enum SearchMode {
    Web,
    Images,
}

impl SearchMode {
    /// `"images"` selects image search; anything else is web search.
    pub fn from_str(s: &str) -> (r: SearchMode)
        ensures
            r == (if s@ == "images"@ {
                SearchMode::Images
            } else {
                SearchMode::Web
            }),
    {
        let v = crate::text::chars_of(s);
        if crate::text::eq_str(v.as_slice(), "images") {
            SearchMode::Images
        } else {
            SearchMode::Web
        }
    }

    pub open spec fn name(self) -> Seq<char> {
        match self {
            SearchMode::Web => "web"@,
            SearchMode::Images => "images"@,
        }
    }

    pub fn as_str(&self) -> (r: &'static str)
        ensures
            r@ == self.name(),
    {
        match self {
            SearchMode::Web => "web",
            SearchMode::Images => "images",
        }
    }
}

/// One search hit.
#[derive(Debug)]
pub struct SearchResult {
    pub title: String,
    pub url: String,
    pub snippet: String,
    pub image: Option<String>,
    pub source: String,
    pub backend: String,
    pub provenance: String,
}

pub struct ResultView {
    pub title: Seq<char>,
    pub url: Seq<char>,
    pub snippet: Seq<char>,
    pub image: Option<Seq<char>>,
    pub source: Seq<char>,
    pub backend: Seq<char>,
    pub provenance: Seq<char>,
}

impl View for SearchResult {
    type V = ResultView;

    open spec fn view(&self) -> ResultView {
        ResultView {
            title: self.title@,
            url: self.url@,
            snippet: self.snippet@,
            image: match self.image {
                Some(i) => Some(i@),
                None => None,
            },
            source: self.source@,
            backend: self.backend@,
            provenance: self.provenance@,
        }
    }
}

pub open spec fn results_view(rs: Seq<SearchResult>) -> Seq<ResultView> {
    rs.map_values(|r: SearchResult| r@)
}

impl SearchResult {
    /// A field-by-field copy.
    pub fn duplicate(&self) -> (r: SearchResult)
        ensures
            r@ == self@,
    {
        SearchResult {
            title: self.title.clone(),
            url: self.url.clone(),
            snippet: self.snippet.clone(),
            image: match &self.image {
                Some(i) => Some(i.clone()),
                None => None,
            },
            source: self.source.clone(),
            backend: self.backend.clone(),
            provenance: self.provenance.clone(),
        }
    }
}

impl Clone for SearchResult {
    fn clone(&self) -> Self {
        self.duplicate()
    }
}

/// The answer to one search.
#[derive(Debug)]
pub struct SearchResponse {
    pub query: String,
    pub mode: SearchMode,
    pub results: Vec<SearchResult>,
    pub backends_used: Vec<String>,
    pub provenance_chain: Vec<String>,
    pub sovereignty_step: u8,
    pub errors: Vec<String>,
    pub search_strategy: String,
}

/// The label of a sovereignty step (1 to 5).
pub open spec fn sovereignty_label_of(step: u8) -> Seq<char> {
    if step == 2 {
        "Pluggable backends enabled"@
    } else if step == 3 {
        "Self-hosted discovery (SearXNG)"@
    } else if step == 4 {
        "Local history and corpus"@
    } else if step == 5 {
        "Owned index — full sovereignty"@
    } else {
        "Local console — borrowed indexes"@
    }
}

impl SearchResponse {
    pub fn sovereignty_label(step: u8) -> (r: &'static str)
        ensures
            r@ == sovereignty_label_of(step),
    {
        match step {
            2 => "Pluggable backends enabled",
            3 => "Self-hosted discovery (SearXNG)",
            4 => "Local history and corpus",
            5 => "Owned index — full sovereignty",
            _ => "Local console — borrowed indexes",
        }
    }
}

/// Parsing a mode's own name gives the mode back.
pub proof fn lemma_mode_name_roundtrip(m: SearchMode)
    ensures
        (if m.name() == "images"@ {
            SearchMode::Images
        } else {
            SearchMode::Web
        }) == m,
{
    reveal_strlit("images");
    reveal_strlit("web");
    if m == SearchMode::Web {
        assert("web"@ != "images"@) by {
            assert("web"@.len() != "images"@.len());
        }
    }
}

} // verus!

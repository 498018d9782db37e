//! The parts of a parsed URL, as plain values.
use vstd::prelude::*;

verus! {

/// What the URL parser reports of a URL: scheme, credentials, host, path and
/// the decoded `application/x-www-form-urlencoded` query pairs.
pub struct UrlParts {
    pub scheme: String,
    pub username: String,
    pub has_password: bool,
    pub host: Option<String>,
    pub path: String,
    pub query_pairs: Vec<(String, String)>,
}

pub struct UrlView {
    pub scheme: Seq<char>,
    pub username: Seq<char>,
    pub has_password: bool,
    pub host: Option<Seq<char>>,
    pub path: Seq<char>,
    pub query_pairs: Seq<(Seq<char>, Seq<char>)>,
}

pub open spec fn pair_view(p: (String, String)) -> (Seq<char>, Seq<char>) {
    (p.0@, p.1@)
}

impl View for UrlParts {
    type V = UrlView;

    open spec fn view(&self) -> UrlView {
        UrlView {
            scheme: self.scheme@,
            username: self.username@,
            has_password: self.has_password,
            host: match self.host {
                Some(h) => Some(h@),
                None => None,
            },
            path: self.path@,
            query_pairs: self.query_pairs@.map_values(|p: (String, String)| pair_view(p)),
        }
    }
}

/// The name for what the WHATWG URL parser (`url::Url::parse`) makes of a string.
pub uninterp spec fn parsed_url(raw: Seq<char>) -> Option<UrlView>;

/// `url::Url::parse`, with the parts the library reads taken out of the result.
#[verifier::external_body]
pub(crate) fn parse_url(raw: &str) -> (r: Option<UrlParts>)
    ensures
        match r {
            Some(p) => parsed_url(raw@) == Some(p@),
            None => parsed_url(raw@) is None,
        },
{
    let u = url::Url::parse(raw).ok()?;
    Some(UrlParts {
        scheme: u.scheme().to_string(),
        username: u.username().to_string(),
        has_password: u.password().is_some(),
        host: u.host_str().map(str::to_string),
        path: u.path().to_string(),
        query_pairs: u.query_pairs().map(|(k, v)| (k.into_owned(), v.into_owned())).collect(),
    })
}

/// The name for the serialization of `raw` after it is parsed and then given
/// `host` (when one is given), the fragment `fragment`, `path` (when one is
/// given) and the query `query`.
pub uninterp spec fn rebuilt_url(
    raw: Seq<char>,
    host: Option<Seq<char>>,
    fragment: Option<Seq<char>>,
    path: Option<Seq<char>>,
    query: Option<Seq<char>>,
) -> Seq<char>;

pub open spec fn opt_view(o: Option<&str>) -> Option<Seq<char>> {
    match o {
        Some(s) => Some(s@),
        None => None,
    }
}

/// `url::Url::parse`, then `set_host`, `set_fragment`, `set_path` and
/// `set_query`, then the serialization (`to_string`).
#[verifier::external_body]
pub(crate) fn rebuild_url(
    raw: &str,
    host: Option<&str>,
    fragment: Option<&str>,
    path: Option<&str>,
    query: Option<&str>,
) -> (r: String)
    requires
        parsed_url(raw@) is Some,
    ensures
        r@ == rebuilt_url(raw@, opt_view(host), opt_view(fragment), opt_view(path), opt_view(query)),
{
    let mut u = url::Url::parse(raw).unwrap();
    if let Some(h) = host {
        let _ = u.set_host(Some(h));
    }
    u.set_fragment(fragment);
    if let Some(p) = path {
        u.set_path(p);
    }
    u.set_query(query);
    u.to_string()
}

/// The value of the first query pair whose key is `key`.
pub open spec fn first_pair_value(pairs: Seq<(Seq<char>, Seq<char>)>, key: Seq<char>) -> Option<
    Seq<char>,
>
    decreases pairs.len(),
{
    if pairs.len() == 0 {
        None
    } else if pairs[0].0 == key {
        Some(pairs[0].1)
    } else {
        first_pair_value(pairs.drop_first(), key)
    }
}

/// The value of the first query pair whose key is `key` (`query_pairs().find(..)`).
pub fn find_pair(pairs: &Vec<(String, String)>, key: &str) -> (r: Option<String>)
    ensures
        match r {
            Some(v) => first_pair_value(pairs@.map_values(|p: (String, String)| pair_view(p)), key@)
                == Some(v@),
            None => first_pair_value(pairs@.map_values(|p: (String, String)| pair_view(p)), key@)
                is None,
        },
{
    let ghost views = pairs@.map_values(|p: (String, String)| pair_view(p));
    let kv = crate::text::chars_of(key);
    let mut i: usize = 0;
    assert(views.skip(0) =~= views);
    while i < pairs.len()
        invariant
            i <= pairs@.len(),
            views == pairs@.map_values(|p: (String, String)| pair_view(p)),
            kv@ == key@,
            first_pair_value(views, key@) == first_pair_value(views.skip(i as int), key@),
        decreases pairs.len() - i,
    {
        let k = crate::text::chars_of(pairs[i].0.as_str());
        assert(views.skip(i as int)[0] == views[i as int]);
        assert(views.skip(i as int).drop_first() =~= views.skip(i + 1));
        if crate::text::chars_eq(k.as_slice(), kv.as_slice()) {
            let v = pairs[i].1.clone();
            return Some(v);
        }
        i = i + 1;
    }
    None
}

} // verus!

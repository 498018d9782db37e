//! Merging the results of several backends: URL identity keys, deduplication
//! and round-robin interleaving.
use crate::text::{
    chars_eq, chars_of, eq_str, join, join_exec, lowercase, lowercase_exec, slice_of, split_char,
    split_char_exec, starts_with, starts_with_str, string_of, trim_end_char, trim_end_char_exec,
};
use crate::types::{results_view, ResultView, SearchResult};
use crate::url_resolve::{resolve_result_url, resolved_link};
use crate::urlparts::{pair_view, parse_url, parsed_url, rebuild_url, rebuilt_url};
use vstd::prelude::*;

verus! {

// ---------------------------------------------------------------------------
// URL identity keys
// ---------------------------------------------------------------------------

/// Query parameters that only track where a click came from.
pub open spec fn tracking_param(k: Seq<char>) -> bool {
    k == "utm_source"@ || k == "utm_medium"@ || k == "utm_campaign"@ || k == "utm_term"@ || k
        == "utm_content"@ || k == "fbclid"@ || k == "gclid"@ || k == "mc_cid"@ || k == "mc_eid"@
        || k == "ref"@ || k == "ref_src"@ || k == "igshid"@ || k == "si"@
}

/// The query pairs that stay in a key: those whose lowercased name is not a tracking parameter.
pub open spec fn kept_pairs(ps: Seq<(Seq<char>, Seq<char>)>) -> Seq<(Seq<char>, Seq<char>)>
    decreases ps.len(),
{
    if ps.len() == 0 {
        Seq::empty()
    } else {
        let rest = kept_pairs(ps.drop_last());
        if tracking_param(lowercase(ps.last().0)) {
            rest
        } else {
            rest.push(ps.last())
        }
    }
}

/// Lexicographic order of character sequences (the order of `String`, since
/// UTF-8 preserves the order of code points).
pub open spec fn seq_less(a: Seq<char>, b: Seq<char>) -> bool
    decreases a.len(),
{
    if a.len() == 0 {
        b.len() > 0
    } else if b.len() == 0 {
        false
    } else if a[0] < b[0] {
        true
    } else if a[0] > b[0] {
        false
    } else {
        seq_less(a.drop_first(), b.drop_first())
    }
}

/// The order of `(String, String)` tuples: by key, then by value.
pub open spec fn pair_less(p: (Seq<char>, Seq<char>), q: (Seq<char>, Seq<char>)) -> bool {
    seq_less(p.0, q.0) || (p.0 == q.0 && seq_less(p.1, q.1))
}

/// `x` inserted into `s` before the first element that is not less than `x`.
pub open spec fn insert_sorted(x: (Seq<char>, Seq<char>), s: Seq<(Seq<char>, Seq<char>)>) -> Seq<
    (Seq<char>, Seq<char>),
>
    decreases s.len(),
{
    if s.len() == 0 {
        seq![x]
    } else if pair_less(s[0], x) {
        seq![s[0]] + insert_sorted(x, s.drop_first())
    } else {
        seq![x] + s
    }
}

/// The pairs in ascending order.
pub open spec fn sort_pairs(s: Seq<(Seq<char>, Seq<char>)>) -> Seq<(Seq<char>, Seq<char>)>
    decreases s.len(),
{
    if s.len() == 0 {
        Seq::empty()
    } else {
        insert_sorted(s.last(), sort_pairs(s.drop_last()))
    }
}

/// `k=v` pieces joined with `&`.
pub open spec fn query_string(ps: Seq<(Seq<char>, Seq<char>)>) -> Seq<char> {
    join(ps.map_values(|p: (Seq<char>, Seq<char>)| p.0 + "="@ + p.1), "&"@)
}

/// The host of a key: without a leading `www.`, lowercased.
pub open spec fn key_host(h: Seq<char>) -> Seq<char> {
    lowercase(
        if starts_with(h, "www."@) {
            h.skip(4)
        } else {
            h
        },
    )
}

/// The path with a trailing slash removed, when the path has more than one segment.
pub open spec fn key_path(path: Seq<char>) -> Option<Seq<char>> {
    if path.len() > 0 && path[0] == '/' {
        let segs = split_char(path.skip(1), '/');
        if segs.len() > 1 && segs.last().len() == 0 {
            Some(seq!['/'] + join(segs.drop_last(), seq!['/']))
        } else {
            None
        }
    } else {
        None
    }
}

/// Trailing slashes removed while the text is longer than 8 bytes.
pub open spec fn strip_key_slashes(s: Seq<char>) -> Seq<char>
    decreases s.len(),
{
    if s.len() > 0 && s.last() == '/' && utf8_len(s) > 8 {
        strip_key_slashes(s.drop_last())
    } else {
        s
    }
}

/// The identity of a result URL for deduplication: resolved, with the host
/// normalized, no fragment, the path normalized and the tracking parameters
/// dropped from a sorted query.
pub open spec fn url_key(raw: Seq<char>) -> Seq<char> {
    let trimmed = resolved_link(raw, 0);
    match parsed_url(trimmed) {
        None => lowercase(trim_end_char(trimmed, '/')),
        Some(u) => {
            let host = match u.host {
                Some(h) => Some(key_host(h)),
                None => None,
            };
            let pairs = sort_pairs(kept_pairs(u.query_pairs));
            let query = if pairs.len() == 0 {
                None
            } else {
                Some(query_string(pairs))
            };
            strip_key_slashes(rebuilt_url(trimmed, host, None, key_path(u.path), query))
        },
    }
}

fn is_tracking_param(k: &[char]) -> (r: bool)
    ensures
        r == tracking_param(k@),
{
    eq_str(k, "utm_source") || eq_str(k, "utm_medium") || eq_str(k, "utm_campaign") || eq_str(
        k,
        "utm_term",
    ) || eq_str(k, "utm_content") || eq_str(k, "fbclid") || eq_str(k, "gclid") || eq_str(
        k,
        "mc_cid",
    ) || eq_str(k, "mc_eid") || eq_str(k, "ref") || eq_str(k, "ref_src") || eq_str(k, "igshid")
        || eq_str(k, "si")
}

fn seq_less_exec(a: &[char], b: &[char]) -> (r: bool)
    ensures
        r == seq_less(a@, b@),
{
    let mut i: usize = 0;
    assert(a@.skip(0) =~= a@);
    assert(b@.skip(0) =~= b@);
    while i < a.len() && i < b.len() && a[i] == b[i]
        invariant
            i <= a@.len(),
            i <= b@.len(),
            seq_less(a@, b@) == seq_less(a@.skip(i as int), b@.skip(i as int)),
        decreases a.len() - i,
    {
        assert(a@.skip(i as int).drop_first() =~= a@.skip(i + 1));
        assert(b@.skip(i as int).drop_first() =~= b@.skip(i + 1));
        i = i + 1;
    }
    if i == a.len() {
        i < b.len()
    } else if i == b.len() {
        false
    } else {
        a[i] < b[i]
    }
}

fn pair_less_exec(p: &(Vec<char>, Vec<char>), q: &(Vec<char>, Vec<char>)) -> (r: bool)
    ensures
        r == pair_less((p.0@, p.1@), (q.0@, q.1@)),
{
    seq_less_exec(p.0.as_slice(), q.0.as_slice()) || (chars_eq(p.0.as_slice(), q.0.as_slice())
        && seq_less_exec(p.1.as_slice(), q.1.as_slice()))
}

pub open spec fn cpairs_view(v: Seq<(Vec<char>, Vec<char>)>) -> Seq<(Seq<char>, Seq<char>)> {
    v.map_values(|p: (Vec<char>, Vec<char>)| (p.0@, p.1@))
}

proof fn lemma_insert_sorted_at(
    x: (Seq<char>, Seq<char>),
    s: Seq<(Seq<char>, Seq<char>)>,
    j: int,
)
    requires
        0 <= j <= s.len(),
        forall|k: int| 0 <= k < j ==> pair_less(#[trigger] s[k], x),
        j == s.len() || !pair_less(s[j], x),
    ensures
        insert_sorted(x, s) == s.take(j) + seq![x] + s.skip(j),
    decreases j,
{
    if j == 0 {
        if s.len() > 0 {
            assert(s.skip(0) =~= s);
        }
        assert(s.take(0) + seq![x] + s.skip(0) =~= seq![x] + s);
    } else {
        let t = s.drop_first();
        assert forall|k: int| 0 <= k < j - 1 implies pair_less(#[trigger] t[k], x) by {
            assert(t[k] == s[k + 1]);
        }
        lemma_insert_sorted_at(x, t, j - 1);
        assert(seq![s[0]] + (t.take(j - 1) + seq![x] + t.skip(j - 1)) =~= s.take(j) + seq![x]
            + s.skip(j));
    }
}

/// The pairs sorted ascending (insertion into a sorted prefix).
fn sort_pairs_exec(v: Vec<(Vec<char>, Vec<char>)>) -> (r: Vec<(Vec<char>, Vec<char>)>)
    ensures
        cpairs_view(r@) == sort_pairs(cpairs_view(v@)),
{
    let mut out: Vec<(Vec<char>, Vec<char>)> = Vec::new();
    let mut i: usize = 0;
    while i < v.len()
        invariant
            i <= v@.len(),
            cpairs_view(out@) == sort_pairs(cpairs_view(v@.take(i as int))),
        decreases v.len() - i,
    {
        let x = (slice_of(v[i].0.as_slice(), 0, v[i].0.len()), slice_of(v[i].1.as_slice(), 0, v[i].1.len()));
        assert(x.0@ =~= v@[i as int].0@);
        assert(x.1@ =~= v@[i as int].1@);
        let mut j: usize = 0;
        while j < out.len() && pair_less_exec(&out[j], &x)
            invariant
                j <= out@.len(),
                forall|k: int| 0 <= k < j ==> pair_less(#[trigger] cpairs_view(out@)[k], (x.0@, x.1@)),
            decreases out.len() - j,
        {
            j = j + 1;
        }
        let ghost before = cpairs_view(out@);
        proof {
            lemma_insert_sorted_at((x.0@, x.1@), before, j as int);
            assert(cpairs_view(v@.take(i + 1)).drop_last() =~= cpairs_view(v@.take(i as int)));
            assert(cpairs_view(v@.take(i + 1)).last() == (x.0@, x.1@));
        }
        out.insert(j, x);
        assert(cpairs_view(out@) =~= before.take(j as int) + seq![(x.0@, x.1@)] + before.skip(
            j as int,
        ));
        i = i + 1;
    }
    assert(v@.take(v@.len() as int) =~= v@);
    out
}

/// The kept query pairs, as characters.
fn kept_pairs_exec(pairs: &Vec<(String, String)>) -> (r: Vec<(Vec<char>, Vec<char>)>)
    ensures
        cpairs_view(r@) == kept_pairs(pairs@.map_values(|p: (String, String)| pair_view(p))),
{
    let ghost views = pairs@.map_values(|p: (String, String)| pair_view(p));
    let mut out: Vec<(Vec<char>, Vec<char>)> = Vec::new();
    let mut i: usize = 0;
    while i < pairs.len()
        invariant
            i <= pairs@.len(),
            views == pairs@.map_values(|p: (String, String)| pair_view(p)),
            cpairs_view(out@) == kept_pairs(views.take(i as int)),
        decreases pairs.len() - i,
    {
        let k = chars_of(pairs[i].0.as_str());
        let v = chars_of(pairs[i].1.as_str());
        let lk = lowercase_exec(k.as_slice());
        proof {
            assert(views.take(i + 1).drop_last() =~= views.take(i as int));
            assert(views.take(i + 1).last() == (k@, v@));
        }
        if !is_tracking_param(lk.as_slice()) {
            out.push((k, v));
            assert(cpairs_view(out@) =~= kept_pairs(views.take(i as int)).push((k@, v@)));
        }
        i = i + 1;
    }
    assert(views.take(views.len() as int) =~= views);
    out
}

/// `k=v` pieces joined with `&`.
fn query_string_exec(ps: &Vec<(Vec<char>, Vec<char>)>) -> (r: Vec<char>)
    ensures
        r@ == query_string(cpairs_view(ps@)),
{
    let mut pieces: Vec<Vec<char>> = Vec::new();
    let mut i: usize = 0;
    while i < ps.len()
        invariant
            i <= ps@.len(),
            pieces@.map_values(|p: Vec<char>| p@) == cpairs_view(ps@).take(i as int).map_values(
                |p: (Seq<char>, Seq<char>)| p.0 + "="@ + p.1,
            ),
        decreases ps.len() - i,
    {
        proof {
            reveal_strlit("=");
        }
        let mut piece = slice_of(ps[i].0.as_slice(), 0, ps[i].0.len());
        piece.push('=');
        let mut v = slice_of(ps[i].1.as_slice(), 0, ps[i].1.len());
        piece.append(&mut v);
        assert(piece@ =~= ps@[i as int].0@ + "="@ + ps@[i as int].1@);
        let ghost old_pieces = pieces@;
        pieces.push(piece);
        proof {
            let f = |p: (Seq<char>, Seq<char>)| p.0 + "="@ + p.1;
            let cv = cpairs_view(ps@);
            assert(cv[i as int] == (ps@[i as int].0@, ps@[i as int].1@));
            assert(cv.take(i + 1) =~= cv.take(i as int).push(cv[i as int]));
            assert(cv.take(i + 1).map_values(f) =~= cv.take(i as int).map_values(f).push(
                f(cv[i as int]),
            ));
            assert(pieces@ =~= old_pieces.push(piece));
            assert(pieces@.map_values(|p: Vec<char>| p@) =~= old_pieces.map_values(
                |p: Vec<char>| p@,
            ).push(piece@));
        }
        i = i + 1;
    }
    assert(cpairs_view(ps@).take(ps@.len() as int) =~= cpairs_view(ps@));
    let amp = chars_of("&");
    join_exec(&pieces, amp.as_slice())
}

fn key_host_exec(h: &str) -> (r: String)
    ensures
        r@ == key_host(h@),
{
    let v = chars_of(h);
    proof {
        reveal_strlit("www.");
    }
    let stripped = if starts_with_str(v.as_slice(), "www.") {
        let s = slice_of(v.as_slice(), 4, v.len());
        assert(s@ =~= v@.skip(4));
        s
    } else {
        v
    };
    let l = lowercase_exec(stripped.as_slice());
    string_of(l.as_slice())
}

fn key_path_exec(path: &str) -> (r: Option<String>)
    ensures
        match r {
            Some(p) => key_path(path@) == Some(p@),
            None => key_path(path@) is None,
        },
{
    let v = chars_of(path);
    if v.len() == 0 || v[0] != '/' {
        return None;
    }
    let rest = slice_of(v.as_slice(), 1, v.len());
    assert(rest@ =~= v@.skip(1));
    let segs = split_char_exec(rest.as_slice(), '/');
    let ghost sv = segs@.map_values(|p: Vec<char>| p@);
    if segs.len() > 1 && segs[segs.len() - 1].len() == 0 {
        let mut front: Vec<Vec<char>> = Vec::new();
        let mut i: usize = 0;
        while i + 1 < segs.len()
            invariant
                i + 1 <= segs@.len(),
                sv == segs@.map_values(|p: Vec<char>| p@),
                front@.map_values(|p: Vec<char>| p@) == sv.take(i as int),
            decreases segs.len() - i,
        {
            let s = slice_of(segs[i].as_slice(), 0, segs[i].len());
            assert(s@ =~= sv[i as int]);
            let ghost before = front@;
            front.push(s);
            assert(front@.map_values(|p: Vec<char>| p@) =~= before.map_values(|p: Vec<char>| p@).push(s@));
            assert(sv.take(i + 1) =~= sv.take(i as int).push(sv[i as int]));
            i = i + 1;
        }
        assert(sv.take(i as int) =~= sv.drop_last());
        let slash: Vec<char> = vec!['/'];
        let joined = join_exec(&front, slash.as_slice());
        let mut out: Vec<char> = vec!['/'];
        let mut j = joined;
        out.append(&mut j);
        assert(slash@ =~= seq!['/']);
        assert(out@ =~= seq!['/'] + join(sv.drop_last(), seq!['/']));
        Some(string_of(out.as_slice()))
    } else {
        None
    }
}

/// `char::len_utf8`.
pub open spec fn char_width(c: char) -> nat {
    if (c as u32) < 0x80 {
        1
    } else if (c as u32) < 0x800 {
        2
    } else if (c as u32) < 0x10000 {
        3
    } else {
        4
    }
}

/// The length of the UTF-8 encoding, in bytes (`str::len`).
pub open spec fn utf8_len(s: Seq<char>) -> nat
    decreases s.len(),
{
    if s.len() == 0 {
        0
    } else {
        utf8_len(s.drop_last()) + char_width(s.last())
    }
}

pub fn byte_len(v: &[char]) -> (r: u128)
    ensures
        r == utf8_len(v@),
        r <= 4 * v@.len(),
        v@.len() <= usize::MAX,
{
    let len = v.len();
    let mut n: u128 = 0;
    let mut i: usize = 0;
    while i < v.len()
        invariant
            i <= v@.len(),
            n == utf8_len(v@.take(i as int)),
            n <= 4 * i,
        decreases v.len() - i,
    {
        let c = v[i];
        let w: u128 = if (c as u32) < 0x80 {
            1
        } else if (c as u32) < 0x800 {
            2
        } else if (c as u32) < 0x10000 {
            3
        } else {
            4
        };
        assert(v@.take(i + 1).drop_last() =~= v@.take(i as int));
        n = n + w;
        i = i + 1;
    }
    assert(v@.take(v@.len() as int) =~= v@);
    n
}

fn strip_key_slashes_exec(s: &[char]) -> (r: Vec<char>)
    ensures
        r@ == strip_key_slashes(s@),
{
    let mut j: usize = s.len();
    assert(s@.take(s@.len() as int) =~= s@);
    while j > 0 && s[j - 1] == '/' && byte_len(slice_of(s, 0, j).as_slice()) > 8
        invariant
            j <= s@.len(),
            strip_key_slashes(s@) == strip_key_slashes(s@.take(j as int)),
        decreases j,
    {
        assert(s@.take(j as int).drop_last() =~= s@.take(j - 1));
        j = j - 1;
    }
    assert(s@.take(s@.len() as int) =~= s@);
    slice_of(s, 0, j)
}

/// Normalizes a URL for deduplication: DuckDuckGo redirects unwrapped; host
/// without `www.` and lowercased; fragment, tracking parameters and a trailing
/// path slash dropped; query parameters sorted. Path and query keep their case.
pub fn normalize_url_key(raw: &str) -> (r: String)
    ensures
        r@ == url_key(raw@),
{
    let trimmed = resolve_result_url(raw, 0);
    let parsed = match parse_url(trimmed.as_str()) {
        Some(p) => p,
        None => {
            let v = chars_of(trimmed.as_str());
            let t = trim_end_char_exec(v.as_slice(), '/');
            let l = lowercase_exec(t.as_slice());
            return string_of(l.as_slice());
        },
    };
    let host: Option<String> = match &parsed.host {
        Some(h) => Some(key_host_exec(h.as_str())),
        None => None,
    };
    let path = key_path_exec(parsed.path.as_str());
    let kept = kept_pairs_exec(&parsed.query_pairs);
    let sorted = sort_pairs_exec(kept);
    let query: Option<String> = if sorted.len() == 0 {
        None
    } else {
        let q = query_string_exec(&sorted);
        Some(string_of(q.as_slice()))
    };
    let hs: Option<&str> = match &host {
        Some(h) => Some(h.as_str()),
        None => None,
    };
    let ps: Option<&str> = match &path {
        Some(p) => Some(p.as_str()),
        None => None,
    };
    let qs: Option<&str> = match &query {
        Some(q) => Some(q.as_str()),
        None => None,
    };
    let out = rebuild_url(trimmed.as_str(), hs, None, ps, qs);
    let ov = chars_of(out.as_str());
    let stripped = strip_key_slashes_exec(ov.as_slice());
    string_of(stripped.as_slice())
}

// ---------------------------------------------------------------------------
// Deduplication
// ---------------------------------------------------------------------------

/// How much text a result carries: snippet and title length in UTF-8 bytes.
pub open spec fn result_score(r: ResultView) -> nat {
    utf8_len(r.snippet) + utf8_len(r.title)
}

/// The richer of two results with the same key; the first wins a tie.
pub open spec fn richer_of(a: ResultView, b: ResultView) -> ResultView {
    if result_score(b) > result_score(a) {
        b
    } else {
        a
    }
}

/// The key of each result.
pub open spec fn result_keys(rs: Seq<ResultView>) -> Seq<Seq<char>> {
    rs.map_values(|r: ResultView| url_key(r.url))
}

/// The keys in the order of their first occurrence, each once.
pub open spec fn first_keys(ks: Seq<Seq<char>>) -> Seq<Seq<char>>
    decreases ks.len(),
{
    if ks.len() == 0 {
        Seq::empty()
    } else {
        let before = first_keys(ks.drop_last());
        if before.contains(ks.last()) {
            before
        } else {
            before.push(ks.last())
        }
    }
}

/// The richest result with key `k` (the earliest among equally rich ones).
pub open spec fn best_for(rs: Seq<ResultView>, k: Seq<char>) -> Option<ResultView>
    decreases rs.len(),
{
    if rs.len() == 0 {
        None
    } else {
        let before = best_for(rs.drop_last(), k);
        if url_key(rs.last().url) == k {
            match before {
                None => Some(rs.last()),
                Some(b) => Some(richer_of(b, rs.last())),
            }
        } else {
            before
        }
    }
}

/// One result per key, in first-occurrence order, each the richest of its key.
pub open spec fn deduped(rs: Seq<ResultView>) -> Seq<ResultView> {
    first_keys(result_keys(rs)).map_values(|k: Seq<char>| best_for(rs, k).unwrap())
}

/// No key occurs twice.
pub open spec fn distinct_keys(ks: Seq<Seq<char>>) -> bool {
    forall|i: int, j: int| 0 <= i < j < ks.len() ==> ks[i] != ks[j]
}

pub proof fn lemma_first_keys(ks: Seq<Seq<char>>)
    ensures
        distinct_keys(first_keys(ks)),
        forall|k: Seq<char>| first_keys(ks).contains(k) <==> ks.contains(k),
        first_keys(ks).len() <= ks.len(),
    decreases ks.len(),
{
    if ks.len() > 0 {
        lemma_first_keys(ks.drop_last());
        assert forall|k: Seq<char>| ks.contains(k) <==> ks.drop_last().contains(k) || k == ks.last() by {
            if ks.contains(k) {
                let i = choose|i: int| 0 <= i < ks.len() && ks[i] == k;
                if i < ks.len() - 1 {
                    assert(ks.drop_last()[i] == k);
                }
            }
            if ks.drop_last().contains(k) {
                let i = choose|i: int| 0 <= i < ks.drop_last().len() && ks.drop_last()[i] == k;
                assert(ks[i] == k);
            }
            if k == ks.last() {
                assert(ks[ks.len() - 1] == k);
            }
        }
        let before = first_keys(ks.drop_last());
        if !before.contains(ks.last()) {
            assert forall|k: Seq<char>| before.push(ks.last()).contains(k) <==> before.contains(k)
                || k == ks.last() by {
                if before.push(ks.last()).contains(k) {
                    let i = choose|i: int|
                        0 <= i < before.push(ks.last()).len() && before.push(ks.last())[i] == k;
                    if i < before.len() {
                        assert(before[i] == k);
                    }
                }
                if before.contains(k) {
                    let i = choose|i: int| 0 <= i < before.len() && before[i] == k;
                    assert(before.push(ks.last())[i] == k);
                }
                if k == ks.last() {
                    assert(before.push(ks.last())[before.len() as int] == k);
                }
            }
        }
    }
}

pub proof fn lemma_best_for_some(rs: Seq<ResultView>, k: Seq<char>)
    ensures
        best_for(rs, k) is Some <==> result_keys(rs).contains(k),
        best_for(rs, k) is Some ==> url_key(best_for(rs, k).unwrap().url) == k,
    decreases rs.len(),
{
    if rs.len() > 0 {
        lemma_best_for_some(rs.drop_last(), k);
        assert(result_keys(rs.drop_last()) =~= result_keys(rs).drop_last());
        let ks = result_keys(rs);
        if ks.contains(k) {
            let i = choose|i: int| 0 <= i < ks.len() && ks[i] == k;
            if i < ks.len() - 1 {
                assert(ks.drop_last()[i] == k);
            }
        }
        if ks.drop_last().contains(k) {
            let i = choose|i: int| 0 <= i < ks.drop_last().len() && ks.drop_last()[i] == k;
            assert(ks[i] == k);
        }
        assert(ks[ks.len() - 1] == url_key(rs.last().url));
    }
}

/// What the richer of two results is, by the sizes of their texts.
fn richer(a: &SearchResult, b: &SearchResult) -> (r: SearchResult)
    ensures
        r@ == richer_of(a@, b@),
{
    let a_score = byte_len(chars_of(a.snippet.as_str()).as_slice()) + byte_len(
        chars_of(a.title.as_str()).as_slice(),
    );
    let b_score = byte_len(chars_of(b.snippet.as_str()).as_slice()) + byte_len(
        chars_of(b.title.as_str()).as_slice(),
    );
    if b_score > a_score {
        b.duplicate()
    } else {
        a.duplicate()
    }
}

/// The position of `k` among `keys`.
fn position_of(keys: &Vec<Vec<char>>, k: &[char]) -> (r: Option<usize>)
    ensures
        match r {
            Some(j) => j < keys@.len() && keys@[j as int]@ == k@,
            None => !keys@.map_values(|v: Vec<char>| v@).contains(k@),
        },
{
    let mut j: usize = 0;
    while j < keys.len()
        invariant
            j <= keys@.len(),
            forall|i: int| 0 <= i < j ==> keys@[i]@ != k@,
        decreases keys.len() - j,
    {
        if chars_eq(keys[j].as_slice(), k) {
            return Some(j);
        }
        j = j + 1;
    }
    proof {
        let kv = keys@.map_values(|v: Vec<char>| v@);
        if kv.contains(k@) {
            let i = choose|i: int| 0 <= i < kv.len() && kv[i] == k@;
            assert(keys@[i]@ == k@);
        }
    }
    None
}

/// Dedupes by normalized URL, keeping the richer snippet; the survivors keep
/// the order in which their keys first occur.
pub fn dedupe_results(results: Vec<SearchResult>) -> (r: Vec<SearchResult>)
    ensures
        results_view(r@) == deduped(results_view(results@)),
{
    let ghost rs = results_view(results@);
    let mut keys: Vec<Vec<char>> = Vec::new();
    let mut vals: Vec<SearchResult> = Vec::new();
    let mut i: usize = 0;
    while i < results.len()
        invariant
            i <= results@.len(),
            rs == results_view(results@),
            keys@.len() == vals@.len(),
            keys@.map_values(|v: Vec<char>| v@) == first_keys(result_keys(rs.take(i as int))),
            forall|j: int|
                0 <= j < vals@.len() ==> best_for(rs.take(i as int), #[trigger] keys@[j]@)
                    == Some(vals@[j]@),
        decreases results.len() - i,
    {
        let ghost pre = rs.take(i as int);
        let ghost cur = rs.take(i + 1);
        let ghost old_keys = keys@;
        let ghost old_vals = vals@;
        let item = &results[i];
        let k = chars_of(normalize_url_key(item.url.as_str()).as_str());
        proof {
            assert(cur.drop_last() =~= pre);
            assert(cur.last() == item@);
            assert(result_keys(cur).drop_last() =~= result_keys(pre));
            assert(result_keys(cur).last() == k@);
            lemma_first_keys(result_keys(pre));
        }
        match position_of(&keys, k.as_slice()) {
            Some(j) => {
                let better = richer(&vals[j], item);
                vals.set(j, better);
                proof {
                    let kv = old_keys.map_values(|v: Vec<char>| v@);
                    assert(kv[j as int] == k@);
                    assert(kv.contains(k@));
                    assert(first_keys(result_keys(cur)) =~= first_keys(result_keys(pre)));
                    assert forall|m: int| 0 <= m < vals@.len() implies best_for(
                        cur,
                        #[trigger] keys@[m]@,
                    ) == Some(vals@[m]@) by {
                        if m != j {
                            assert(kv[m] != kv[j as int]);
                        }
                    }
                }
            },
            None => {
                let ghost kk = k@;
                keys.push(k);
                vals.push(item.duplicate());
                proof {
                    lemma_best_for_some(pre, kk);
                    assert(!first_keys(result_keys(pre)).contains(kk));
                    assert(!result_keys(pre).contains(kk));
                    assert(keys@.map_values(|v: Vec<char>| v@) =~= old_keys.map_values(
                        |v: Vec<char>| v@,
                    ).push(kk));
                    assert forall|m: int| 0 <= m < vals@.len() implies best_for(
                        cur,
                        #[trigger] keys@[m]@,
                    ) == Some(vals@[m]@) by {
                        if m < old_vals.len() {
                            assert(old_keys.map_values(|v: Vec<char>| v@)[m] == keys@[m]@);
                            assert(first_keys(result_keys(pre)).contains(keys@[m]@));
                        }
                    }
                }
            },
        }
        i = i + 1;
    }
    proof {
        assert(rs.take(results@.len() as int) =~= rs);
        assert(results_view(vals@) =~= deduped(rs));
    }
    vals
}

/// Deduplication leaves one result per key: no key occurs twice, and every key
/// of the input is still there.
pub proof fn lemma_dedupe_keys(rs: Seq<ResultView>)
    ensures
        result_keys(deduped(rs)) == first_keys(result_keys(rs)),
        distinct_keys(result_keys(deduped(rs))),
        forall|k: Seq<char>| result_keys(deduped(rs)).contains(k) <==> result_keys(rs).contains(k),
        deduped(rs).len() <= rs.len(),
{
    let fk = first_keys(result_keys(rs));
    lemma_first_keys(result_keys(rs));
    assert forall|i: int| 0 <= i < fk.len() implies url_key(
        #[trigger] deduped(rs)[i].url,
    ) == fk[i] by {
        assert(fk.contains(fk[i]));
        lemma_best_for_some(rs, fk[i]);
    }
    assert(result_keys(deduped(rs)) =~= fk);
}

proof fn lemma_first_keys_distinct(ks: Seq<Seq<char>>)
    requires
        distinct_keys(ks),
    ensures
        first_keys(ks) == ks,
    decreases ks.len(),
{
    if ks.len() > 0 {
        lemma_first_keys_distinct(ks.drop_last());
        if ks.drop_last().contains(ks.last()) {
            let i = choose|i: int| 0 <= i < ks.len() - 1 && ks.drop_last()[i] == ks.last();
            assert(ks[i] == ks[ks.len() - 1]);
        }
        assert(ks.drop_last().push(ks.last()) =~= ks);
    }
}

proof fn lemma_best_for_distinct(rs: Seq<ResultView>, i: int)
    requires
        distinct_keys(result_keys(rs)),
        0 <= i < rs.len(),
    ensures
        best_for(rs, url_key(rs[i].url)) == Some(rs[i]),
    decreases rs.len(),
{
    let ks = result_keys(rs);
    let k = url_key(rs[i].url);
    let pre = rs.drop_last();
    assert(result_keys(pre) =~= ks.drop_last());
    if i == rs.len() - 1 {
        lemma_best_for_some(pre, k);
        if result_keys(pre).contains(k) {
            let j = choose|j: int| 0 <= j < pre.len() && result_keys(pre)[j] == k;
            assert(ks[j] == ks[i]);
        }
    } else {
        assert(ks[i] != ks[rs.len() - 1]);
        assert(pre[i] == rs[i]);
        lemma_best_for_distinct(pre, i);
    }
}

/// Deduplicating a second time changes nothing.
pub proof fn lemma_dedupe_idempotent(rs: Seq<ResultView>)
    ensures
        deduped(deduped(rs)) == deduped(rs),
{
    let d = deduped(rs);
    lemma_dedupe_keys(rs);
    lemma_first_keys_distinct(result_keys(d));
    assert forall|i: int| 0 <= i < d.len() implies #[trigger] deduped(d)[i] == d[i] by {
        assert(result_keys(d)[i] == url_key(d[i].url));
        lemma_best_for_distinct(d, i);
    }
    assert(deduped(d) =~= d);
}

// ---------------------------------------------------------------------------
// Round-robin interleaving
// ---------------------------------------------------------------------------

/// How many items of the first `n` batches lie at or after their cursor.
pub open spec fn left_in(bs: Seq<Seq<ResultView>>, pos: Seq<int>, n: int) -> int
    decreases n,
{
    if n <= 0 {
        0
    } else {
        left_in(bs, pos, n - 1) + (if bs[n - 1].len() - pos[n - 1] > 0 {
            bs[n - 1].len() - pos[n - 1]
        } else {
            0
        })
    }
}

pub proof fn lemma_left_in_nonneg(bs: Seq<Seq<ResultView>>, pos: Seq<int>, n: int)
    ensures
        left_in(bs, pos, n) >= 0,
    decreases n,
{
    if n > 0 {
        lemma_left_in_nonneg(bs, pos, n - 1);
    }
}

pub proof fn lemma_left_in_step(bs: Seq<Seq<ResultView>>, pos: Seq<int>, b: int, n: int)
    requires
        0 <= b < pos.len(),
        pos[b] < bs[b].len(),
        n <= pos.len(),
    ensures
        left_in(bs, pos.update(b, pos[b] + 1), n) == left_in(bs, pos, n) - (if b < n {
            1int
        } else {
            0int
        }),
    decreases n,
{
    if n > 0 {
        lemma_left_in_step(bs, pos, b, n - 1);
        let q = pos.update(b, pos[b] + 1);
        if n - 1 == b {
            assert(q[n - 1] == pos[b] + 1);
        } else {
            assert(q[n - 1] == pos[n - 1]);
        }
    }
}

/// The round-robin walk: in each round every batch in turn gives its next item
/// whose key has not been output yet; the walk stops when `max` items are out
/// or a whole round gives nothing. `pos` holds each batch's cursor, `b` the
/// batch whose turn it is, `adv` whether the round gave anything, `seen` the
/// keys output so far.
pub open spec fn rounds(
    bs: Seq<Seq<ResultView>>,
    max: nat,
    pos: Seq<int>,
    b: int,
    adv: bool,
    seen: Seq<Seq<char>>,
    out: Seq<ResultView>,
) -> Seq<ResultView>
    decreases 2 * left_in(bs, pos, bs.len() as int) + (if adv {
        1int
    } else {
        0int
    }), bs.len() - b,
{
    if out.len() >= max || pos.len() != bs.len() || b < 0 {
        out
    } else if b >= bs.len() {
        if adv {
            proof {
                lemma_left_in_nonneg(bs, pos, bs.len() as int);
            }
            rounds(bs, max, pos, 0, false, seen, out)
        } else {
            out
        }
    } else if pos[b] < bs[b].len() {
        let item = bs[b][pos[b]];
        let k = url_key(item.url);
        let next = pos.update(b, pos[b] + 1);
        proof {
            lemma_left_in_step(bs, pos, b, bs.len() as int);
            lemma_left_in_nonneg(bs, next, bs.len() as int);
        }
        if seen.contains(k) {
            rounds(bs, max, next, b, adv, seen, out)
        } else {
            rounds(bs, max, next, b + 1, true, seen.push(k), out.push(item))
        }
    } else {
        rounds(bs, max, pos, b + 1, adv, seen, out)
    }
}

/// What interleaving gives: nothing for no batch, the first `max` items of a
/// lone batch, else the round-robin walk from the start of every batch.
pub open spec fn interleaved(bs: Seq<Seq<ResultView>>, max: nat) -> Seq<ResultView> {
    if bs.len() == 0 {
        Seq::empty()
    } else if bs.len() == 1 {
        if max < bs[0].len() {
            bs[0].take(max as int)
        } else {
            bs[0]
        }
    } else {
        rounds(bs, max, Seq::new(bs.len(), |i: int| 0int), 0, false, Seq::empty(), Seq::empty())
    }
}

pub open spec fn batches_view(bs: Seq<Vec<SearchResult>>) -> Seq<Seq<ResultView>> {
    bs.map_values(|v: Vec<SearchResult>| results_view(v@))
}

pub open spec fn cursor_view(pos: Seq<usize>) -> Seq<int> {
    pos.map_values(|x: usize| x as int)
}

/// Round-robin interleave across backend batches for index diversity.
pub fn interleave_batches(batches: Vec<Vec<SearchResult>>, max_results: usize) -> (r: Vec<
    SearchResult,
>)
    ensures
        results_view(r@) == interleaved(batches_view(batches@), max_results as nat),
{
    let ghost bs = batches_view(batches@);
    let n = batches.len();
    if n == 0 {
        let out: Vec<SearchResult> = Vec::new();
        assert(results_view(out@) =~= Seq::<ResultView>::empty());
        return out;
    }
    if n == 1 {
        let first = &batches[0];
        let mut out: Vec<SearchResult> = Vec::new();
        let mut i: usize = 0;
        while i < first.len() && i < max_results
            invariant
                i <= first@.len(),
                i <= max_results,
                bs == batches_view(batches@),
                n == batches@.len(),
                n == 1,
                first == batches@[0],
                results_view(out@) == results_view(first@).take(i as int),
            decreases first.len() - i,
        {
            let ghost before = out@;
            let d = first[i].duplicate();
            out.push(d);
            proof {
                assert(out@ =~= before.push(d));
                assert(results_view(out@) =~= results_view(before).push(d@));
                assert(results_view(first@)[i as int] == d@);
                assert(results_view(first@).take(i + 1) =~= results_view(first@).take(
                    i as int,
                ).push(d@));
            }
            i = i + 1;
        }
        assert(bs.len() == 1);
        assert(bs[0] == results_view(first@));
        assert(results_view(first@).take(first@.len() as int) =~= results_view(first@));
        assert(results_view(out@) == interleaved(bs, max_results as nat));
        return out;
    }
    let mut pos: Vec<usize> = Vec::new();
    let mut z: usize = 0;
    while z < n
        invariant
            z <= n,
            pos@.len() == z,
            forall|j: int| 0 <= j < z ==> pos@[j] == 0,
        decreases n - z,
    {
        pos.push(0);
        z = z + 1;
    }
    assert(cursor_view(pos@) =~= Seq::new(bs.len(), |i: int| 0int));
    let mut out: Vec<SearchResult> = Vec::new();
    let mut seen: Vec<Vec<char>> = Vec::new();
    let mut b: usize = 0;
    let mut adv = false;
    assert(results_view(out@) =~= Seq::<ResultView>::empty());
    assert(seen@.map_values(|v: Vec<char>| v@) =~= Seq::<Seq<char>>::empty());
    let ghost target = interleaved(bs, max_results as nat);
    loop
        invariant
            bs == batches_view(batches@),
            n == batches@.len(),
            n >= 2,
            pos@.len() == n,
            b <= n,
            forall|j: int| 0 <= j < n ==> pos@[j] <= batches@[j]@.len(),
            target == rounds(
                bs,
                max_results as nat,
                cursor_view(pos@),
                b as int,
                adv,
                seen@.map_values(|v: Vec<char>| v@),
                results_view(out@),
            ),
        ensures
            results_view(out@) == target,
        decreases 2 * left_in(bs, cursor_view(pos@), bs.len() as int) + (if adv {
            1int
        } else {
            0int
        }), bs.len() - b,
    {
        let ghost pv = cursor_view(pos@);
        let ghost sv = seen@.map_values(|v: Vec<char>| v@);
        let ghost ov = results_view(out@);
        if out.len() >= max_results {
            break ;
        }
        if b >= n {
            if adv {
                proof {
                    lemma_left_in_nonneg(bs, pv, bs.len() as int);
                    assert(rounds(bs, max_results as nat, pv, b as int, adv, sv, ov) == rounds(
                        bs,
                        max_results as nat,
                        pv,
                        0,
                        false,
                        sv,
                        ov,
                    ));
                }
                b = 0;
                adv = false;
            } else {
                break ;
            }
        } else if pos[b] < batches[b].len() {
            let item = &batches[b][pos[b]];
            let k = chars_of(normalize_url_key(item.url.as_str()).as_str());
            let p = pos[b];
            pos.set(b, p + 1);
            proof {
                assert(bs[b as int] == results_view(batches@[b as int]@));
                assert(bs[b as int].len() == batches@[b as int]@.len());
                assert(pv[b as int] == p as int);
                assert(bs[b as int][p as int] == item@);
                assert(cursor_view(pos@) =~= pv.update(b as int, pv[b as int] + 1));
                lemma_left_in_step(bs, pv, b as int, bs.len() as int);
                lemma_left_in_nonneg(bs, cursor_view(pos@), bs.len() as int);
            }
            match position_of(&seen, k.as_slice()) {
                Some(j) => {
                    proof {
                        assert(sv[j as int] == k@);
                        assert(sv.contains(k@));
                        assert(rounds(bs, max_results as nat, pv, b as int, adv, sv, ov) == rounds(
                            bs,
                            max_results as nat,
                            cursor_view(pos@),
                            b as int,
                            adv,
                            sv,
                            ov,
                        ));
                    }
                },
                None => {
                    let ghost kk = k@;
                    let d = item.duplicate();
                    seen.push(k);
                    out.push(d);
                    proof {
                        assert(seen@.map_values(|v: Vec<char>| v@) =~= sv.push(kk));
                        assert(results_view(out@) =~= ov.push(d@));
                        assert(rounds(bs, max_results as nat, pv, b as int, adv, sv, ov) == rounds(
                            bs,
                            max_results as nat,
                            cursor_view(pos@),
                            b + 1,
                            true,
                            sv.push(kk),
                            ov.push(d@),
                        ));
                    }
                    b = b + 1;
                    adv = true;
                },
            }
        } else {
            proof {
                assert(bs[b as int].len() == batches@[b as int]@.len());
            }
            b = b + 1;
        }
    }
    out
}

/// `x` is an item of one of the batches.
pub open spec fn from_batches(bs: Seq<Seq<ResultView>>, x: ResultView) -> bool {
    exists|j: int, m: int| 0 <= j < bs.len() && 0 <= m < bs[j].len() && #[trigger] bs[j][m] == x
}

proof fn lemma_rounds(
    bs: Seq<Seq<ResultView>>,
    max: nat,
    pos: Seq<int>,
    b: int,
    adv: bool,
    seen: Seq<Seq<char>>,
    out: Seq<ResultView>,
)
    requires
        out.len() <= max,
        seen == result_keys(out),
        distinct_keys(seen),
        forall|i: int| 0 <= i < pos.len() ==> pos[i] >= 0,
        forall|i: int| 0 <= i < out.len() ==> from_batches(bs, #[trigger] out[i]),
    ensures
        rounds(bs, max, pos, b, adv, seen, out).len() <= max,
        distinct_keys(result_keys(rounds(bs, max, pos, b, adv, seen, out))),
        forall|i: int|
            0 <= i < rounds(bs, max, pos, b, adv, seen, out).len() ==> from_batches(
                bs,
                #[trigger] rounds(bs, max, pos, b, adv, seen, out)[i],
            ),
    decreases 2 * left_in(bs, pos, bs.len() as int) + (if adv {
        1int
    } else {
        0int
    }), bs.len() - b,
{
    if out.len() >= max || pos.len() != bs.len() || b < 0 {
    } else if b >= bs.len() {
        if adv {
            lemma_left_in_nonneg(bs, pos, bs.len() as int);
            lemma_rounds(bs, max, pos, 0, false, seen, out);
        }
    } else if pos[b] < bs[b].len() {
        let item = bs[b][pos[b]];
        let k = url_key(item.url);
        let next = pos.update(b, pos[b] + 1);
        lemma_left_in_step(bs, pos, b, bs.len() as int);
        lemma_left_in_nonneg(bs, next, bs.len() as int);
        if seen.contains(k) {
            lemma_rounds(bs, max, next, b, adv, seen, out);
        } else {
            let out2 = out.push(item);
            assert(result_keys(out2) =~= seen.push(k));
            assert forall|i: int, j: int| 0 <= i < j < seen.push(k).len() implies seen.push(k)[i]
                != seen.push(k)[j] by {
                if j == seen.len() {
                    assert(seen.contains(seen[i]));
                }
            }
            assert forall|i: int| 0 <= i < out2.len() implies from_batches(
                bs,
                #[trigger] out2[i],
            ) by {
                if i == out.len() {
                    assert(bs[b][pos[b]] == out2[i]);
                } else {
                    assert(out2[i] == out[i]);
                }
            }
            lemma_rounds(bs, max, next, b + 1, true, seen.push(k), out2);
        }
    } else {
        lemma_rounds(bs, max, pos, b + 1, adv, seen, out);
    }
}

/// Interleaving never gives more than `max` results, every result is an item
/// of one of the batches, and from two or more batches no two results share a
/// key.
pub proof fn lemma_interleave_bounds(bs: Seq<Seq<ResultView>>, max: nat)
    ensures
        interleaved(bs, max).len() <= max,
        forall|i: int|
            0 <= i < interleaved(bs, max).len() ==> from_batches(
                bs,
                #[trigger] interleaved(bs, max)[i],
            ),
        bs.len() >= 2 ==> distinct_keys(result_keys(interleaved(bs, max))),
{
    if bs.len() == 1 {
        assert forall|i: int| 0 <= i < interleaved(bs, max).len() implies from_batches(
            bs,
            #[trigger] interleaved(bs, max)[i],
        ) by {
            assert(bs[0][i] == interleaved(bs, max)[i]);
        }
    } else if bs.len() >= 2 {
        let empty_keys = Seq::<Seq<char>>::empty();
        assert(result_keys(Seq::<ResultView>::empty()) =~= empty_keys);
        lemma_rounds(
            bs,
            max,
            Seq::new(bs.len(), |i: int| 0int),
            0,
            false,
            empty_keys,
            Seq::empty(),
        );
    }
}

// ---------------------------------------------------------------------------
// Fan-out merge
// ---------------------------------------------------------------------------

/// The batches one after the other.
pub open spec fn concat(ss: Seq<Seq<ResultView>>) -> Seq<ResultView>
    decreases ss.len(),
{
    if ss.len() == 0 {
        Seq::empty()
    } else {
        concat(ss.drop_last()) + ss.last()
    }
}

/// The results of backend `name`, in their order.
pub open spec fn group_of(rs: Seq<ResultView>, name: Seq<char>) -> Seq<ResultView> {
    rs.filter(|r: ResultView| r.backend == name)
}

/// One batch per backend name, in the order in which the names are first
/// given, leaving out the names that have no result.
pub open spec fn grouped(names: Seq<Seq<char>>, rs: Seq<ResultView>) -> Seq<Seq<ResultView>> {
    first_keys(names).filter(|n: Seq<char>| group_of(rs, n).len() > 0).map_values(
        |n: Seq<char>| group_of(rs, n),
    )
}

pub open spec fn named_view(bs: Seq<(String, Vec<SearchResult>)>) -> Seq<(Seq<char>, Seq<ResultView>)> {
    bs.map_values(|b: (String, Vec<SearchResult>)| (b.0@, results_view(b.1@)))
}

/// The fan-out merge of named batches: all results deduplicated together, then
/// grouped by the backend that gave each survivor, in the configured order,
/// then interleaved.
pub open spec fn fanout_merged(bs: Seq<(Seq<char>, Seq<ResultView>)>, max: nat) -> Seq<ResultView> {
    let names = bs.map_values(|b: (Seq<char>, Seq<ResultView>)| b.0);
    let flat = concat(bs.map_values(|b: (Seq<char>, Seq<ResultView>)| b.1));
    interleaved(grouped(names, deduped(flat)), max)
}

/// The results of backend `name` among `rs`.
fn group_exec(rs: &Vec<SearchResult>, name: &[char]) -> (r: Vec<SearchResult>)
    ensures
        results_view(r@) == group_of(results_view(rs@), name@),
{
    let ghost v = results_view(rs@);
    let ghost pred = |r: ResultView| r.backend == name@;
    let mut out: Vec<SearchResult> = Vec::new();
    let mut j: usize = 0;
    while j < rs.len()
        invariant
            j <= rs@.len(),
            v == results_view(rs@),
            pred == (|r: ResultView| r.backend == name@),
            results_view(out@) == v.take(j as int).filter(pred),
        decreases rs.len() - j,
    {
        let ghost before = out@;
        proof {
            reveal(Seq::filter);
            assert(v.take(j + 1).drop_last() =~= v.take(j as int));
            assert(v.take(j + 1).last() == rs@[j as int]@);
        }
        if chars_eq(chars_of(rs[j].backend.as_str()).as_slice(), name) {
            let d = rs[j].duplicate();
            out.push(d);
            assert(results_view(out@) =~= results_view(before).push(d@));
        }
        j = j + 1;
    }
    assert(v.take(rs@.len() as int) =~= v);
    out
}

/// The names in the order of their first occurrence, each once.
fn first_names(names: &Vec<Vec<char>>) -> (r: Vec<Vec<char>>)
    ensures
        r@.map_values(|v: Vec<char>| v@) == first_keys(names@.map_values(|v: Vec<char>| v@)),
{
    let ghost nv = names@.map_values(|v: Vec<char>| v@);
    let mut out: Vec<Vec<char>> = Vec::new();
    let mut i: usize = 0;
    while i < names.len()
        invariant
            i <= names@.len(),
            nv == names@.map_values(|v: Vec<char>| v@),
            out@.map_values(|v: Vec<char>| v@) == first_keys(nv.take(i as int)),
        decreases names.len() - i,
    {
        let ghost before = out@;
        proof {
            assert(nv.take(i + 1).drop_last() =~= nv.take(i as int));
            assert(nv.take(i + 1).last() == names@[i as int]@);
        }
        match position_of(&out, names[i].as_slice()) {
            Some(j) => {
                proof {
                    assert(before.map_values(|v: Vec<char>| v@)[j as int] == names@[i as int]@);
                    assert(first_keys(nv.take(i as int)).contains(names@[i as int]@));
                }
            },
            None => {
                let n = slice_of(names[i].as_slice(), 0, names[i].len());
                assert(n@ =~= names@[i as int]@);
                out.push(n);
                assert(out@.map_values(|v: Vec<char>| v@) =~= before.map_values(|v: Vec<char>| v@).push(
                    n@,
                ));
            },
        }
        i = i + 1;
    }
    assert(nv.take(names@.len() as int) =~= nv);
    out
}

/// Fanout merge: dedupe globally, then interleave per-backend ordering.
pub fn merge_fanout(batches: Vec<(String, Vec<SearchResult>)>, max_results: usize) -> (r: Vec<
    SearchResult,
>)
    ensures
        results_view(r@) == fanout_merged(named_view(batches@), max_results as nat),
{
    let ghost bv = named_view(batches@);
    let ghost per = bv.map_values(|b: (Seq<char>, Seq<ResultView>)| b.1);
    let ghost nm = bv.map_values(|b: (Seq<char>, Seq<ResultView>)| b.0);
    let mut names: Vec<Vec<char>> = Vec::new();
    let mut flat: Vec<SearchResult> = Vec::new();
    let mut i: usize = 0;
    while i < batches.len()
        invariant
            i <= batches@.len(),
            bv == named_view(batches@),
            per == bv.map_values(|b: (Seq<char>, Seq<ResultView>)| b.1),
            nm == bv.map_values(|b: (Seq<char>, Seq<ResultView>)| b.0),
            names@.map_values(|v: Vec<char>| v@) == nm.take(i as int),
            results_view(flat@) == concat(per.take(i as int)),
        decreases batches.len() - i,
    {
        let ghost names_before = names@;
        let ghost flat_before = flat@;
        let name = chars_of(batches[i].0.as_str());
        names.push(name);
        assert(names@.map_values(|v: Vec<char>| v@) =~= names_before.map_values(|v: Vec<char>| v@).push(
            batches@[i as int].0@,
        ));
        assert(nm.take(i + 1) =~= nm.take(i as int).push(nm[i as int]));
        let batch = &batches[i].1;
        let mut j: usize = 0;
        while j < batch.len()
            invariant
                j <= batch@.len(),
                results_view(flat@) == results_view(flat_before) + results_view(batch@).take(
                    j as int,
                ),
            decreases batch.len() - j,
        {
            let ghost fb = flat@;
            let d = batch[j].duplicate();
            flat.push(d);
            assert(results_view(flat@) =~= results_view(fb).push(d@));
            assert(results_view(batch@).take(j + 1) =~= results_view(batch@).take(j as int).push(
                d@,
            ));
            j = j + 1;
        }
        proof {
            assert(results_view(batch@).take(batch@.len() as int) =~= results_view(batch@));
            assert(per.take(i + 1).drop_last() =~= per.take(i as int));
            assert(per.take(i + 1).last() == results_view(batch@));
            assert(results_view(flat@) =~= concat(per.take(i + 1)));
        }
        i = i + 1;
    }
    proof {
        assert(nm.take(batches@.len() as int) =~= nm);
        assert(per.take(batches@.len() as int) =~= per);
    }
    let d = dedupe_results(flat);
    let ghost dv = results_view(d@);
    let distinct = first_names(&names);
    let ghost fk = first_keys(nm);
    let ghost keep = |n: Seq<char>| group_of(dv, n).len() > 0;
    let ghost mk = |n: Seq<char>| group_of(dv, n);
    let mut groups: Vec<Vec<SearchResult>> = Vec::new();
    let mut k: usize = 0;
    while k < distinct.len()
        invariant
            k <= distinct@.len(),
            distinct@.map_values(|v: Vec<char>| v@) == fk,
            dv == results_view(d@),
            keep == (|n: Seq<char>| group_of(dv, n).len() > 0),
            mk == (|n: Seq<char>| group_of(dv, n)),
            batches_view(groups@) == fk.take(k as int).filter(keep).map_values(mk),
        decreases distinct.len() - k,
    {
        let ghost gb = groups@;
        let g = group_exec(&d, distinct[k].as_slice());
        proof {
            reveal(Seq::filter);
            assert(fk[k as int] == distinct@[k as int]@);
            assert(fk.take(k + 1).drop_last() =~= fk.take(k as int));
            assert(fk.take(k + 1).last() == fk[k as int]);
        }
        if g.len() > 0 {
            let ghost gv = results_view(g@);
            groups.push(g);
            proof {
                assert(batches_view(groups@) =~= batches_view(gb).push(gv));
                assert(fk.take(k + 1).filter(keep) =~= fk.take(k as int).filter(keep).push(
                    fk[k as int],
                ));
                assert(fk.take(k + 1).filter(keep).map_values(mk) =~= fk.take(k as int).filter(
                    keep,
                ).map_values(mk).push(mk(fk[k as int])));
            }
        }
        k = k + 1;
    }
    proof {
        assert(fk.take(fk.len() as int) =~= fk);
        assert(batches_view(groups@) == grouped(nm, dv));
    }
    interleave_batches(groups, max_results)
}

proof fn lemma_filter_distinct(s: Seq<ResultView>, pred: spec_fn(ResultView) -> bool)
    requires
        distinct_keys(result_keys(s)),
    ensures
        distinct_keys(result_keys(s.filter(pred))),
        forall|i: int| 0 <= i < s.filter(pred).len() ==> s.contains(#[trigger] s.filter(pred)[i]),
    decreases s.len(),
{
    reveal(Seq::filter);
    if s.len() > 0 {
        let pre = s.drop_last();
        assert(result_keys(pre) =~= result_keys(s).drop_last());
        lemma_filter_distinct(pre, pred);
        let f = pre.filter(pred);
        assert forall|i: int| 0 <= i < f.len() implies s.contains(#[trigger] f[i]) by {
            let j = choose|j: int| 0 <= j < pre.len() && pre[j] == f[i];
            assert(s[j] == f[i]);
        }
        if pred(s.last()) {
            let g = f.push(s.last());
            assert forall|i: int, j: int|
                0 <= i < j < result_keys(g).len() implies result_keys(g)[i] != result_keys(g)[j] by {
                if j == f.len() {
                    let m = choose|m: int| 0 <= m < pre.len() && pre[m] == f[i];
                    assert(result_keys(s)[m] != result_keys(s)[s.len() - 1]);
                } else {
                    assert(result_keys(f)[i] != result_keys(f)[j]);
                }
            }
            assert forall|i: int| 0 <= i < g.len() implies s.contains(#[trigger] g[i]) by {
                if i == f.len() {
                    assert(s[s.len() - 1] == g[i]);
                } else {
                    assert(g[i] == f[i]);
                }
            }
        }
    }
}

/// The fan-out merge gives at most `max` results, and no two of them share a key.
pub proof fn lemma_fanout_bounds(bs: Seq<(Seq<char>, Seq<ResultView>)>, max: nat)
    ensures
        fanout_merged(bs, max).len() <= max,
        distinct_keys(result_keys(fanout_merged(bs, max))),
{
    let names = bs.map_values(|b: (Seq<char>, Seq<ResultView>)| b.0);
    let flat = concat(bs.map_values(|b: (Seq<char>, Seq<ResultView>)| b.1));
    let d = deduped(flat);
    let gs = grouped(names, d);
    lemma_interleave_bounds(gs, max);
    if gs.len() == 1 {
        lemma_dedupe_keys(flat);
        let g = gs[0];
        let keep = |n: Seq<char>| group_of(d, n).len() > 0;
        let fnames = first_keys(names).filter(keep);
        assert(g == group_of(d, fnames[0]));
        lemma_filter_distinct(d, |r: ResultView| r.backend == fnames[0]);
        let out = interleaved(gs, max);
        assert forall|i: int, j: int|
            0 <= i < j < result_keys(out).len() implies result_keys(out)[i] != result_keys(out)[j] by {
            assert(out[i] == g[i]);
            assert(out[j] == g[j]);
            assert(result_keys(g)[i] != result_keys(g)[j]);
        }
    }
}

/// The tracking parameters that a URL key ignores.
pub open spec fn tracking_names() -> Set<Seq<char>> {
    set![
        "utm_source"@,
        "utm_medium"@,
        "utm_campaign"@,
        "utm_term"@,
        "utm_content"@,
        "fbclid"@,
        "gclid"@,
        "mc_cid"@,
        "mc_eid"@,
        "ref"@,
        "ref_src"@,
        "igshid"@,
        "si"@,
    ]
}

/// Adding a query pair whose lowercased name is a tracking parameter
/// (`utm_source`, `utm_medium`, `utm_campaign`, `utm_term`, `utm_content`,
/// `fbclid`, `gclid`, `mc_cid`, `mc_eid`, `ref`, `ref_src`, `igshid`, `si`)
/// leaves the pairs a key keeps unchanged; any other pair is kept, at the end.
pub proof fn lemma_tracking_pairs_ignored(ps: Seq<(Seq<char>, Seq<char>)>, k: Seq<char>, v: Seq<char>)
    ensures
        tracking_names().contains(lowercase(k)) ==> kept_pairs(ps.push((k, v))) == kept_pairs(ps),
        !tracking_names().contains(lowercase(k)) ==> kept_pairs(ps.push((k, v))) == kept_pairs(
            ps,
        ).push((k, v)),
{
    assert(ps.push((k, v)).drop_last() =~= ps);
    assert(tracking_param(lowercase(k)) <==> tracking_names().contains(lowercase(k)));
}

} // verus!

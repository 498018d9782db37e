//! Character-level string operations with their meaning stated over `Seq<char>`.
//!
//! Every operation here works on the characters of a string (its view), so
//! the contracts of the rest of the crate can be phrased with the spec
//! functions below.
use vstd::prelude::*;
use vstd::slice::slice_subrange;
use vstd::slice::slice_to_vec;
use vstd::utf8::is_ascii_chars;

verus! {

// ---------------------------------------------------------------------------
// Specifications
// ---------------------------------------------------------------------------

/// Unicode `White_Space`, the property that `char::is_whitespace` tests.
pub open spec fn is_ws(c: char) -> bool {
    ||| ('\u{9}' <= c && c <= '\u{d}')
    ||| c == ' '
    ||| c == '\u{85}'
    ||| c == '\u{a0}'
    ||| c == '\u{1680}'
    ||| ('\u{2000}' <= c && c <= '\u{200a}')
    ||| c == '\u{2028}'
    ||| c == '\u{2029}'
    ||| c == '\u{202f}'
    ||| c == '\u{205f}'
    ||| c == '\u{3000}'
}

/// `s` without the leading characters that satisfy `p`.
pub open spec fn trim_start_by(s: Seq<char>, p: spec_fn(char) -> bool) -> Seq<char>
    decreases s.len(),
{
    if s.len() > 0 && p(s[0]) {
        trim_start_by(s.drop_first(), p)
    } else {
        s
    }
}

/// `s` without the trailing characters that satisfy `p`.
pub open spec fn trim_end_by(s: Seq<char>, p: spec_fn(char) -> bool) -> Seq<char>
    decreases s.len(),
{
    if s.len() > 0 && p(s.last()) {
        trim_end_by(s.drop_last(), p)
    } else {
        s
    }
}

pub open spec fn ws_pred() -> spec_fn(char) -> bool {
    |c: char| is_ws(c)
}

pub open spec fn char_pred(x: char) -> spec_fn(char) -> bool {
    |c: char| c == x
}

pub open spec fn bracket_pred() -> spec_fn(char) -> bool {
    |c: char| c == '[' || c == ']'
}

/// `str::trim`.
pub open spec fn trim(s: Seq<char>) -> Seq<char> {
    trim_end_by(trim_start_by(s, ws_pred()), ws_pred())
}

/// `str::trim_end_matches(x)` for a single character `x`.
pub open spec fn trim_end_char(s: Seq<char>, x: char) -> Seq<char> {
    trim_end_by(s, char_pred(x))
}

/// `str::trim_matches` with the characters `[` and `]`.
pub open spec fn trim_brackets(s: Seq<char>) -> Seq<char> {
    trim_end_by(trim_start_by(s, bracket_pred()), bracket_pred())
}

pub open spec fn ascii_lower_char(c: char) -> char {
    if 'A' <= c && c <= 'Z' {
        ((c as u32) + 32) as char
    } else {
        c
    }
}

/// The name for what `str::to_lowercase` returns (Unicode lowercase mapping).
pub uninterp spec fn std_lowercase(s: Seq<char>) -> Seq<char>;

/// `str::to_lowercase`: on ASCII text it maps `A`-`Z` to `a`-`z` and keeps
/// everything else; other text goes through the Unicode mapping.
pub open spec fn lowercase(s: Seq<char>) -> Seq<char> {
    if is_ascii_chars(s) {
        s.map_values(|c: char| ascii_lower_char(c))
    } else {
        std_lowercase(s)
    }
}

pub open spec fn starts_with(s: Seq<char>, p: Seq<char>) -> bool {
    p.len() <= s.len() && s.subrange(0, p.len() as int) == p
}

pub open spec fn ends_with(s: Seq<char>, p: Seq<char>) -> bool {
    p.len() <= s.len() && s.subrange(s.len() - p.len(), s.len() as int) == p
}

/// `p` occurs in `s` starting at index `i`.
pub open spec fn occurs_at(s: Seq<char>, p: Seq<char>, i: int) -> bool {
    0 <= i && i + p.len() <= s.len() && s.subrange(i, i + p.len()) == p
}

pub open spec fn contains(s: Seq<char>, p: Seq<char>) -> bool {
    exists|i: int| occurs_at(s, p, i)
}

/// The first index at or after `from` where `p` occurs in `s`.
pub open spec fn find_from(s: Seq<char>, p: Seq<char>, from: int) -> Option<int>
    decreases s.len() + 1 - from,
{
    if from < 0 || from + p.len() > s.len() {
        None
    } else if occurs_at(s, p, from) {
        Some(from)
    } else {
        find_from(s, p, from + 1)
    }
}

/// `str::find`: the first index where `p` occurs in `s`.
pub open spec fn find(s: Seq<char>, p: Seq<char>) -> Option<int> {
    find_from(s, p, 0)
}

/// The first index of character `c` in `s`.
pub open spec fn index_of_char(s: Seq<char>, c: char) -> Option<int>
    decreases s.len(),
{
    if s.len() == 0 {
        None
    } else if s[0] == c {
        Some(0)
    } else {
        match index_of_char(s.drop_first(), c) {
            Some(i) => Some(i + 1),
            None => None,
        }
    }
}

/// `str::split(c)`: the pieces between occurrences of `c`, empty pieces included.
pub open spec fn split_char(s: Seq<char>, c: char) -> Seq<Seq<char>>
    decreases s.len(),
{
    match index_of_char(s, c) {
        None => seq![s],
        Some(i) => {
            if 0 <= i < s.len() {
                seq![s.take(i)] + split_char(s.skip(i + 1), c)
            } else {
                seq![s]
            }
        },
    }
}

/// `parts.join(sep)`.
pub open spec fn join(parts: Seq<Seq<char>>, sep: Seq<char>) -> Seq<char>
    decreases parts.len(),
{
    if parts.len() == 0 {
        Seq::empty()
    } else if parts.len() == 1 {
        parts[0]
    } else {
        parts[0] + sep + join(parts.drop_first(), sep)
    }
}

/// The length of the first run of non-whitespace characters of `s`.
pub open spec fn word_len(s: Seq<char>) -> nat
    decreases s.len(),
{
    if s.len() == 0 || is_ws(s[0]) {
        0
    } else {
        1 + word_len(s.drop_first())
    }
}

/// `str::split_whitespace`: the maximal runs of non-whitespace characters.
pub open spec fn split_ws(s: Seq<char>) -> Seq<Seq<char>>
    decreases s.len(),
{
    let t = trim_start_by(s, ws_pred());
    if t.len() == 0 {
        Seq::empty()
    } else {
        let k = word_len(t);
        if 0 < k <= t.len() && t.len() <= s.len() {
            seq![t.take(k as int)] + split_ws(t.skip(k as int))
        } else {
            Seq::empty()
        }
    }
}

/// `str::replace(from, to)` for a non-empty `from`: left-to-right, non-overlapping.
pub open spec fn replace(s: Seq<char>, from: Seq<char>, to: Seq<char>) -> Seq<char>
    decreases s.len(),
{
    if s.len() == 0 || from.len() == 0 {
        s
    } else if starts_with(s, from) {
        to + replace(s.skip(from.len() as int), from, to)
    } else {
        seq![s[0]] + replace(s.drop_first(), from, to)
    }
}

// ---------------------------------------------------------------------------
// Lemmas
// ---------------------------------------------------------------------------

pub proof fn lemma_char_nonneg(c: char)
    ensures
        '\0' <= c,
{
}

pub proof fn lemma_trim_start_skip(s: Seq<char>, p: spec_fn(char) -> bool, i: int)
    requires
        0 <= i <= s.len(),
        forall|k: int| 0 <= k < i ==> p(#[trigger] s[k]),
        i == s.len() || !p(s[i]),
    ensures
        trim_start_by(s, p) == s.skip(i),
    decreases i,
{
    if i == 0 {
        assert(s.skip(0) =~= s);
    } else {
        let t = s.drop_first();
        assert forall|k: int| 0 <= k < i - 1 implies p(#[trigger] t[k]) by {
            assert(t[k] == s[k + 1]);
        }
        lemma_trim_start_skip(t, p, i - 1);
        assert(t.skip(i - 1) =~= s.skip(i));
    }
}

pub proof fn lemma_trim_end_take(s: Seq<char>, p: spec_fn(char) -> bool, j: int)
    requires
        0 <= j <= s.len(),
        forall|k: int| j <= k < s.len() ==> p(#[trigger] s[k]),
        j == 0 || !p(s[j - 1]),
    ensures
        trim_end_by(s, p) == s.take(j),
    decreases s.len() - j,
{
    if j == s.len() {
        assert(s.take(j) =~= s);
    } else {
        let t = s.drop_last();
        assert forall|k: int| j <= k < t.len() implies p(#[trigger] t[k]) by {
            assert(t[k] == s[k]);
        }
        lemma_trim_end_take(t, p, j);
        assert(t.take(j) =~= s.take(j));
    }
}

/// Trimming a trimmed sequence again changes nothing.
pub proof fn lemma_trim_end_idempotent(s: Seq<char>, p: spec_fn(char) -> bool)
    ensures
        trim_end_by(trim_end_by(s, p), p) == trim_end_by(s, p),
    decreases s.len(),
{
    if s.len() > 0 && p(s.last()) {
        lemma_trim_end_idempotent(s.drop_last(), p);
    }
}

pub proof fn lemma_trim_end_by_is_prefix(s: Seq<char>, p: spec_fn(char) -> bool)
    ensures
        trim_end_by(s, p).len() <= s.len(),
        trim_end_by(s, p) == s.take(trim_end_by(s, p).len() as int),
    decreases s.len(),
{
    if s.len() > 0 && p(s.last()) {
        lemma_trim_end_by_is_prefix(s.drop_last(), p);
        let t = trim_end_by(s.drop_last(), p);
        assert(s.drop_last().take(t.len() as int) =~= s.take(t.len() as int));
    } else {
        assert(s.take(s.len() as int) =~= s);
    }
}

pub proof fn lemma_trim_start_by_is_suffix(s: Seq<char>, p: spec_fn(char) -> bool)
    ensures
        trim_start_by(s, p).len() <= s.len(),
        trim_start_by(s, p) == s.skip(s.len() - trim_start_by(s, p).len()),
    decreases s.len(),
{
    if s.len() > 0 && p(s[0]) {
        lemma_trim_start_by_is_suffix(s.drop_first(), p);
        let t = trim_start_by(s.drop_first(), p);
        assert(s.drop_first().skip(s.len() - 1 - t.len()) =~= s.skip(s.len() - t.len()));
    } else {
        assert(s.skip(0) =~= s);
    }
}

/// The last character of a right-trimmed sequence does not satisfy the predicate.
pub proof fn lemma_trim_end_last(s: Seq<char>, p: spec_fn(char) -> bool)
    ensures
        trim_end_by(s, p).len() > 0 ==> !p(trim_end_by(s, p).last()),
    decreases s.len(),
{
    if s.len() > 0 && p(s.last()) {
        lemma_trim_end_last(s.drop_last(), p);
    }
}

/// The first character of a left-trimmed sequence does not satisfy the predicate.
pub proof fn lemma_trim_start_first(s: Seq<char>, p: spec_fn(char) -> bool)
    ensures
        trim_start_by(s, p).len() > 0 ==> !p(trim_start_by(s, p)[0]),
    decreases s.len(),
{
    if s.len() > 0 && p(s[0]) {
        lemma_trim_start_first(s.drop_first(), p);
    }
}

pub proof fn lemma_find_from_some(s: Seq<char>, p: Seq<char>, from: int)
    requires
        from >= 0,
    ensures
        find_from(s, p, from) matches Some(i) ==> from <= i && occurs_at(s, p, i) && (forall|
            k: int,
        | from <= k < i ==> !occurs_at(s, p, k)),
        find_from(s, p, from) is None ==> (forall|k: int| from <= k ==> !occurs_at(s, p, k)),
    decreases s.len() + 1 - from,
{
    if from + p.len() > s.len() {
    } else if occurs_at(s, p, from) {
    } else {
        lemma_find_from_some(s, p, from + 1);
    }
}

pub proof fn lemma_index_of_char(s: Seq<char>, c: char)
    ensures
        index_of_char(s, c) matches Some(i) ==> 0 <= i < s.len() && s[i] == c && (forall|k: int|
            0 <= k < i ==> s[k] != c),
        index_of_char(s, c) is None ==> (forall|k: int| 0 <= k < s.len() ==> s[k] != c),
    decreases s.len(),
{
    if s.len() > 0 && s[0] != c {
        lemma_index_of_char(s.drop_first(), c);
        if index_of_char(s.drop_first(), c) is None {
            assert forall|k: int| 0 <= k < s.len() implies s[k] != c by {
                if k > 0 {
                    assert(s[k] == s.drop_first()[k - 1]);
                }
            }
        } else {
            let i = index_of_char(s.drop_first(), c)->0;
            assert forall|k: int| 0 <= k < i + 1 implies s[k] != c by {
                if k > 0 {
                    assert(s[k] == s.drop_first()[k - 1]);
                }
            }
        }
    }
}

pub proof fn lemma_index_of_char_from(s: Seq<char>, c: char, i: int)
    requires
        0 <= i <= s.len(),
        forall|k: int| 0 <= k < i ==> s[k] != c,
        i == s.len() || s[i] == c,
    ensures
        i < s.len() ==> index_of_char(s, c) == Some(i),
        i == s.len() ==> index_of_char(s, c) is None,
{
    lemma_index_of_char(s, c);
}

pub proof fn lemma_word_len(s: Seq<char>)
    ensures
        word_len(s) <= s.len(),
        forall|k: int| 0 <= k < word_len(s) ==> !is_ws(#[trigger] s[k]),
        word_len(s) < s.len() ==> is_ws(s[word_len(s) as int]),
    decreases s.len(),
{
    if s.len() > 0 && !is_ws(s[0]) {
        lemma_word_len(s.drop_first());
        assert forall|k: int| 0 <= k < word_len(s) implies !is_ws(#[trigger] s[k]) by {
            if k > 0 {
                assert(s[k] == s.drop_first()[k - 1]);
            }
        }
    }
}

pub proof fn lemma_word_len_at(s: Seq<char>, k: int)
    requires
        0 <= k <= s.len(),
        forall|j: int| 0 <= j < k ==> !is_ws(#[trigger] s[j]),
        k == s.len() || is_ws(s[k]),
    ensures
        word_len(s) == k,
    decreases k,
{
    if k > 0 {
        let t = s.drop_first();
        assert forall|j: int| 0 <= j < k - 1 implies !is_ws(#[trigger] t[j]) by {
            assert(t[j] == s[j + 1]);
        }
        lemma_word_len_at(t, k - 1);
    }
}

// ---------------------------------------------------------------------------
// Executable operations
// ---------------------------------------------------------------------------

/// The characters of a string slice, in order.
pub fn chars_of(s: &str) -> (v: Vec<char>)
    ensures
        v@ == s@,
{
    let mut v: Vec<char> = Vec::new();
    for c in it: s.chars()
        invariant
            v@ == it.seq().take(it.index() as int),
    {
        v.push(c);
    }
    v
}

/// Appends one character (`String::push`).
#[verifier::external_body]
fn push_char(s: &mut String, c: char)
    ensures
        final(s)@ == old(s)@.push(c),
{
    s.push(c);
}

/// A `String` holding exactly the given characters.
pub fn string_of(v: &[char]) -> (s: String)
    ensures
        s@ == v@,
{
    let mut s = String::new();
    let mut i: usize = 0;
    while i < v.len()
        invariant
            i <= v@.len(),
            s@ == v@.take(i as int),
        decreases v.len() - i,
    {
        push_char(&mut s, v[i]);
        assert(v@.take(i as int).push(v@[i as int]) =~= v@.take(i + 1));
        i = i + 1;
    }
    assert(v@.take(v@.len() as int) =~= v@);
    s
}

/// A copy of `v[i..j]`.
pub fn slice_of(v: &[char], i: usize, j: usize) -> (r: Vec<char>)
    requires
        i <= j <= v@.len(),
    ensures
        r@ == v@.subrange(i as int, j as int),
{
    slice_to_vec(slice_subrange(v, i, j))
}

pub fn chars_eq(a: &[char], b: &[char]) -> (r: bool)
    ensures
        r == (a@ == b@),
{
    if a.len() != b.len() {
        return false;
    }
    let mut i: usize = 0;
    while i < a.len()
        invariant
            a@.len() == b@.len(),
            i <= a@.len(),
            forall|k: int| 0 <= k < i ==> a@[k] == b@[k],
        decreases a.len() - i,
    {
        if a[i] != b[i] {
            return false;
        }
        i = i + 1;
    }
    assert(a@ =~= b@);
    true
}

/// Whether the characters `a` spell the string `lit`.
pub fn eq_str(a: &[char], lit: &str) -> (r: bool)
    ensures
        r == (a@ == lit@),
{
    let b = chars_of(lit);
    chars_eq(a, b.as_slice())
}

/// `p` occurs in `s` at index `i`.
pub fn occurs_at_exec(s: &[char], p: &[char], i: usize) -> (r: bool)
    ensures
        r == occurs_at(s@, p@, i as int),
{
    if i > s.len() || p.len() > s.len() - i {
        return false;
    }
    let mut k: usize = 0;
    while k < p.len()
        invariant
            i + p@.len() <= s@.len(),
            p@.len() == p.len(),
            s@.len() == s.len(),
            k <= p@.len(),
            forall|m: int| 0 <= m < k ==> s@[i + m] == p@[m],
        decreases p.len() - k,
    {
        if s[i + k] != p[k] {
            assert(s@.subrange(i as int, i + p@.len())[k as int] != p@[k as int]);
            return false;
        }
        k = k + 1;
    }
    assert(s@.subrange(i as int, i + p@.len()) =~= p@);
    true
}

pub fn starts_with_exec(s: &[char], p: &[char]) -> (r: bool)
    ensures
        r == starts_with(s@, p@),
{
    occurs_at_exec(s, p, 0)
}

pub fn ends_with_exec(s: &[char], p: &[char]) -> (r: bool)
    ensures
        r == ends_with(s@, p@),
{
    if p.len() > s.len() {
        return false;
    }
    occurs_at_exec(s, p, s.len() - p.len())
}

pub fn starts_with_str(s: &[char], lit: &str) -> (r: bool)
    ensures
        r == starts_with(s@, lit@),
{
    let p = chars_of(lit);
    starts_with_exec(s, p.as_slice())
}

pub fn ends_with_str(s: &[char], lit: &str) -> (r: bool)
    ensures
        r == ends_with(s@, lit@),
{
    let p = chars_of(lit);
    ends_with_exec(s, p.as_slice())
}

/// `str::find`: the first index at which `p` occurs.
pub fn find_exec(s: &[char], p: &[char]) -> (r: Option<usize>)
    ensures
        match r {
            Some(i) => find(s@, p@) == Some(i as int),
            None => find(s@, p@) is None,
        },
{
    if p.len() > s.len() {
        proof {
            assert(find(s@, p@) is None);
        }
        return None;
    }
    let last = s.len() - p.len();
    let mut i: usize = 0;
    while i <= last
        invariant
            last + p@.len() == s@.len(),
            i <= last + 1,
            find(s@, p@) == find_from(s@, p@, i as int),
        decreases last + 1 - i,
    {
        if occurs_at_exec(s, p, i) {
            return Some(i);
        }
        if i == last {
            return None;
        }
        i = i + 1;
    }
    None
}

pub fn contains_exec(s: &[char], p: &[char]) -> (r: bool)
    ensures
        r == contains(s@, p@),
{
    let f = find_exec(s, p);
    proof {
        lemma_find_from_some(s@, p@, 0);
    }
    f.is_some()
}

pub fn contains_str(s: &[char], lit: &str) -> (r: bool)
    ensures
        r == contains(s@, lit@),
{
    let p = chars_of(lit);
    contains_exec(s, p.as_slice())
}

pub fn is_ws_exec(c: char) -> (r: bool)
    ensures
        r == is_ws(c),
{
    ('\u{9}' <= c && c <= '\u{d}') || c == ' ' || c == '\u{85}' || c == '\u{a0}' || c
        == '\u{1680}' || ('\u{2000}' <= c && c <= '\u{200a}') || c == '\u{2028}' || c
        == '\u{2029}' || c == '\u{202f}' || c == '\u{205f}' || c == '\u{3000}'
}

/// `str::trim`.
pub fn trim_exec(s: &[char]) -> (r: Vec<char>)
    ensures
        r@ == trim(s@),
{
    let mut i: usize = 0;
    while i < s.len() && is_ws_exec(s[i])
        invariant
            i <= s@.len(),
            forall|k: int| 0 <= k < i ==> is_ws(#[trigger] s@[k]),
        decreases s.len() - i,
    {
        i = i + 1;
    }
    let mut j: usize = s.len();
    while j > i && is_ws_exec(s[j - 1])
        invariant
            i <= j <= s@.len(),
            forall|k: int| j <= k < s@.len() ==> is_ws(#[trigger] s@[k]),
        decreases j,
    {
        j = j - 1;
    }
    proof {
        lemma_trim_start_skip(s@, ws_pred(), i as int);
        let t = s@.skip(i as int);
        assert forall|k: int| j - i <= k < t.len() implies ws_pred()(#[trigger] t[k]) by {
            assert(t[k] == s@[k + i]);
        }
        lemma_trim_end_take(t, ws_pred(), j - i);
        assert(t.take(j - i) =~= s@.subrange(i as int, j as int));
    }
    slice_of(s, i, j)
}

/// `str::trim_end_matches(x)` for a single character.
pub fn trim_end_char_exec(s: &[char], x: char) -> (r: Vec<char>)
    ensures
        r@ == trim_end_char(s@, x),
{
    let mut j: usize = s.len();
    while j > 0 && s[j - 1] == x
        invariant
            j <= s@.len(),
            forall|k: int| j <= k < s@.len() ==> #[trigger] s@[k] == x,
        decreases j,
    {
        j = j - 1;
    }
    proof {
        assert forall|k: int| j <= k < s@.len() implies char_pred(x)(#[trigger] s@[k]) by {}
        lemma_trim_end_take(s@, char_pred(x), j as int);
    }
    slice_of(s, 0, j)
}

/// `str::trim_matches` with `[` and `]`.
pub fn trim_brackets_exec(s: &[char]) -> (r: Vec<char>)
    ensures
        r@ == trim_brackets(s@),
{
    let mut i: usize = 0;
    while i < s.len() && (s[i] == '[' || s[i] == ']')
        invariant
            i <= s@.len(),
            forall|k: int| 0 <= k < i ==> bracket_pred()(#[trigger] s@[k]),
        decreases s.len() - i,
    {
        i = i + 1;
    }
    let mut j: usize = s.len();
    while j > i && (s[j - 1] == '[' || s[j - 1] == ']')
        invariant
            i <= j <= s@.len(),
            forall|k: int| j <= k < s@.len() ==> bracket_pred()(#[trigger] s@[k]),
        decreases j,
    {
        j = j - 1;
    }
    proof {
        lemma_trim_start_skip(s@, bracket_pred(), i as int);
        let t = s@.skip(i as int);
        assert forall|k: int| j - i <= k < t.len() implies bracket_pred()(#[trigger] t[k]) by {
            assert(t[k] == s@[k + i]);
        }
        lemma_trim_end_take(t, bracket_pred(), j - i);
        assert(t.take(j - i) =~= s@.subrange(i as int, j as int));
    }
    slice_of(s, i, j)
}

/// `str::to_lowercase` through std (the Unicode case mapping).
#[verifier::external_body]
fn std_to_lowercase(s: &str) -> (r: String)
    ensures
        r@ == std_lowercase(s@),
{
    s.to_lowercase()
}

pub fn is_ascii_exec(s: &[char]) -> (r: bool)
    ensures
        r == is_ascii_chars(s@),
{
    let mut i: usize = 0;
    while i < s.len()
        invariant
            i <= s@.len(),
            forall|k: int| 0 <= k < i ==> '\0' <= #[trigger] s@[k] <= '\u{7f}',
        decreases s.len() - i,
    {
        if s[i] > '\u{7f}' {
            return false;
        }
        proof {
            lemma_char_nonneg(s@[i as int]);
        }
        i = i + 1;
    }
    true
}

pub fn ascii_lower_char_exec(c: char) -> (r: char)
    ensures
        r == ascii_lower_char(c),
{
    if 'A' <= c && c <= 'Z' {
        let b: u8 = c as u8;
        (b + 32) as char
    } else {
        c
    }
}

/// `str::to_lowercase`.
pub fn lowercase_exec(s: &[char]) -> (r: Vec<char>)
    ensures
        r@ == lowercase(s@),
{
    if is_ascii_exec(s) {
        let mut out: Vec<char> = Vec::new();
        let mut i: usize = 0;
        while i < s.len()
            invariant
                i <= s@.len(),
                out@ == s@.take(i as int).map_values(|c: char| ascii_lower_char(c)),
            decreases s.len() - i,
        {
            let c = ascii_lower_char_exec(s[i]);
            out.push(c);
            assert(s@.take(i + 1).map_values(|c: char| ascii_lower_char(c)) =~= s@.take(
                i as int,
            ).map_values(|c: char| ascii_lower_char(c)).push(c));
            i = i + 1;
        }
        assert(s@.take(s@.len() as int) =~= s@);
        out
    } else {
        let st = string_of(s);
        let low = std_to_lowercase(st.as_str());
        chars_of(low.as_str())
    }
}

/// `str::to_lowercase` on a string slice.
pub fn lowercase_str(s: &str) -> (r: String)
    ensures
        r@ == lowercase(s@),
{
    let v = chars_of(s);
    let l = lowercase_exec(v.as_slice());
    string_of(l.as_slice())
}

/// `str::split(c)`.
pub fn split_char_exec(s: &[char], c: char) -> (r: Vec<Vec<char>>)
    ensures
        r@.map_values(|p: Vec<char>| p@) == split_char(s@, c),
{
    let mut out: Vec<Vec<char>> = Vec::new();
    let mut start: usize = 0;
    let mut i: usize = 0;
    assert(s@.skip(0) =~= s@);
    assert(out@.map_values(|p: Vec<char>| p@) + split_char(s@, c) =~= split_char(s@, c));
    while i < s.len()
        invariant
            start <= i <= s@.len(),
            forall|k: int| start <= k < i ==> s@[k] != c,
            out@.map_values(|p: Vec<char>| p@) + split_char(s@.skip(start as int), c)
                == split_char(s@, c),
        decreases s.len() - i,
    {
        if s[i] == c {
            let piece = slice_of(s, start, i);
            proof {
                let t = s@.skip(start as int);
                assert forall|k: int| 0 <= k < i - start implies t[k] != c by {
                    assert(t[k] == s@[start + k]);
                }
                lemma_index_of_char_from(t, c, i - start);
                assert(t.take(i - start) =~= piece@);
                assert(t.skip(i - start + 1) =~= s@.skip(i + 1));
                assert(out@.push(piece).map_values(|p: Vec<char>| p@) =~= out@.map_values(
                    |p: Vec<char>| p@,
                ).push(piece@));
                assert(split_char(t, c) == seq![piece@] + split_char(s@.skip(i + 1), c));
                assert(out@.map_values(|p: Vec<char>| p@).push(piece@) + split_char(
                    s@.skip(i + 1),
                    c,
                ) =~= out@.map_values(|p: Vec<char>| p@) + (seq![piece@] + split_char(
                    s@.skip(i + 1),
                    c,
                )));
            }
            out.push(piece);
            start = i + 1;
        }
        i = i + 1;
    }
    let piece = slice_of(s, start, s.len());
    proof {
        let t = s@.skip(start as int);
        assert forall|k: int| 0 <= k < t.len() implies t[k] != c by {
            assert(t[k] == s@[start + k]);
        }
        lemma_index_of_char_from(t, c, t.len() as int);
        assert(t =~= piece@);
        assert(out@.push(piece).map_values(|p: Vec<char>| p@) =~= out@.map_values(
            |p: Vec<char>| p@,
        ) + seq![piece@]);
    }
    out.push(piece);
    out
}

/// `parts.join(sep)`.
pub fn join_exec(parts: &Vec<Vec<char>>, sep: &[char]) -> (r: Vec<char>)
    ensures
        r@ == join(parts@.map_values(|p: Vec<char>| p@), sep@),
{
    let ghost views = parts@.map_values(|p: Vec<char>| p@);
    if parts.len() == 0 {
        return Vec::new();
    }
    let n = parts.len();
    // Build from the back: acc == join(views.skip(i)).
    let mut acc: Vec<char> = slice_of(parts[n - 1].as_slice(), 0, parts[n - 1].len());
    let mut i: usize = n - 1;
    proof {
        assert(views.skip((n - 1) as int).len() == 1);
        assert(views.skip((n - 1) as int)[0] == acc@);
    }
    while i > 0
        invariant
            0 <= i < n,
            n == parts@.len(),
            views == parts@.map_values(|p: Vec<char>| p@),
            acc@ == join(views.skip(i as int), sep@),
        decreases i,
    {
        i = i - 1;
        let mut next: Vec<char> = slice_of(parts[i].as_slice(), 0, parts[i].len());
        let mut s2: Vec<char> = slice_of(sep, 0, sep.len());
        let ghost old_acc = acc@;
        next.append(&mut s2);
        next.append(&mut acc);
        proof {
            let tail = views.skip(i as int);
            assert(tail.len() >= 2);
            assert(tail.drop_first() =~= views.skip(i + 1));
            assert(tail[0] == parts@[i as int]@);
        }
        acc = next;
    }
    assert(views.skip(0) =~= views);
    acc
}

/// `str::split_whitespace`.
pub fn split_ws_exec(s: &[char]) -> (r: Vec<Vec<char>>)
    ensures
        r@.map_values(|p: Vec<char>| p@) == split_ws(s@),
{
    let mut out: Vec<Vec<char>> = Vec::new();
    let mut i: usize = 0;
    assert(s@.skip(0) =~= s@);
    assert(out@.map_values(|p: Vec<char>| p@) + split_ws(s@) =~= split_ws(s@));
    while i < s.len()
        invariant
            i <= s@.len(),
            out@.map_values(|p: Vec<char>| p@) + split_ws(s@.skip(i as int)) == split_ws(s@),
        decreases s.len() - i,
    {
        let ghost rest = s@.skip(i as int);
        let start = i;
        while i < s.len() && is_ws_exec(s[i])
            invariant
                start <= i <= s@.len(),
                forall|k: int| start <= k < i ==> is_ws(#[trigger] s@[k]),
            decreases s.len() - i,
        {
            i = i + 1;
        }
        proof {
            assert forall|k: int| 0 <= k < i - start implies ws_pred()(#[trigger] rest[k]) by {
                assert(rest[k] == s@[start + k]);
            }
            lemma_trim_start_skip(rest, ws_pred(), i - start);
            assert(rest.skip(i - start) =~= s@.skip(i as int));
        }
        if i == s.len() {
            proof {
                assert(split_ws(rest) == Seq::<Seq<char>>::empty());
                assert(split_ws(s@.skip(i as int)) == Seq::<Seq<char>>::empty());
            }
        } else {
            let wstart = i;
            while i < s.len() && !is_ws_exec(s[i])
                invariant
                    wstart <= i <= s@.len(),
                    forall|k: int| wstart <= k < i ==> !is_ws(#[trigger] s@[k]),
                decreases s.len() - i,
            {
                i = i + 1;
            }
            let word = slice_of(s, wstart, i);
            proof {
                let t = s@.skip(wstart as int);
                assert forall|j: int| 0 <= j < i - wstart implies !is_ws(#[trigger] t[j]) by {
                    assert(t[j] == s@[wstart + j]);
                }
                if i < s@.len() {
                    assert(t[i - wstart] == s@[i as int]);
                }
                lemma_word_len_at(t, i - wstart);
                assert(t.take(i - wstart) =~= word@);
                assert(t.skip(i - wstart) =~= s@.skip(i as int));
                assert(split_ws(rest) == seq![word@] + split_ws(s@.skip(i as int)));
                assert(out@.push(word).map_values(|p: Vec<char>| p@) =~= out@.map_values(
                    |p: Vec<char>| p@,
                ).push(word@));
                assert(out@.map_values(|p: Vec<char>| p@).push(word@) + split_ws(
                    s@.skip(i as int),
                ) =~= out@.map_values(|p: Vec<char>| p@) + (seq![word@] + split_ws(
                    s@.skip(i as int),
                )));
            }
            out.push(word);
        }
    }
    proof {
        assert(s@.skip(i as int).len() == 0);
        assert(split_ws(s@.skip(i as int)) == Seq::<Seq<char>>::empty());
        assert(out@.map_values(|p: Vec<char>| p@) + Seq::<Seq<char>>::empty() =~= out@.map_values(
            |p: Vec<char>| p@,
        ));
    }
    out
}

/// `str::replace(from, to)` for a non-empty pattern.
pub fn replace_exec(s: &[char], from: &[char], to: &[char]) -> (r: Vec<char>)
    requires
        from@.len() > 0,
    ensures
        r@ == replace(s@, from@, to@),
{
    let mut out: Vec<char> = Vec::new();
    let mut i: usize = 0;
    assert(s@.skip(0) =~= s@);
    assert(out@ + replace(s@, from@, to@) =~= replace(s@, from@, to@));
    while i < s.len()
        invariant
            i <= s@.len(),
            from@.len() > 0,
            out@ + replace(s@.skip(i as int), from@, to@) == replace(s@, from@, to@),
        decreases s.len() - i,
    {
        let ghost rest = s@.skip(i as int);
        if occurs_at_exec(s, from, i) {
            let mut t: Vec<char> = slice_of(to, 0, to.len());
            proof {
                assert(rest.subrange(0, from@.len() as int) =~= s@.subrange(
                    i as int,
                    i + from@.len(),
                ));
                assert(rest.skip(from@.len() as int) =~= s@.skip(i + from@.len()));
                assert(out@ + t@ + replace(s@.skip(i + from@.len()), from@, to@) =~= out@ + (t@
                    + replace(s@.skip(i + from@.len()), from@, to@)));
            }
            out.append(&mut t);
            i = i + from.len();
        } else {
            proof {
                if starts_with(rest, from@) {
                    assert(rest.subrange(0, from@.len() as int) =~= s@.subrange(
                        i as int,
                        i + from@.len(),
                    ));
                }
                assert(rest.drop_first() =~= s@.skip(i + 1));
                assert(rest[0] == s@[i as int]);
                assert(out@.push(s@[i as int]) + replace(s@.skip(i + 1), from@, to@) =~= out@ + (
                seq![s@[i as int]] + replace(s@.skip(i + 1), from@, to@)));
            }
            out.push(s[i]);
            i = i + 1;
        }
    }
    proof {
        assert(s@.skip(i as int).len() == 0);
        assert(out@ + s@.skip(i as int) =~= out@);
    }
    out
}

} // verus!

//! The pure parts of the search history: URL normalization, the CSV export
//! of a collection, and the texts the store builds its queries from.
use crate::error::{decimal, decimal_exec};
use crate::text::{
    chars_of, contains, contains_str, lowercase, lowercase_exec, replace, replace_exec, slice_of,
    string_of, trim, trim_end_char, trim_end_char_exec, trim_exec,
};
use vstd::prelude::*;

verus! {

pub const ENCRYPTION_DEGRADED_MESSAGE: &'static str = "System keyring unavailable (common on WSL, i3, or headless). History is stored unencrypted this session.";

pub fn encryption_degraded_message() -> (r: &'static str)
    ensures
        r@ == ENCRYPTION_DEGRADED_MESSAGE@,
{
    ENCRYPTION_DEGRADED_MESSAGE
}

/// The form of a URL that visits are matched by: trimmed, without trailing
/// slashes, lowercased.
pub open spec fn url_norm(url: Seq<char>) -> Seq<char> {
    lowercase(trim_end_char(trim(url), '/'))
}

pub fn normalize_url(url: &str) -> (r: String)
    ensures
        r@ == url_norm(url@),
{
    let t = trim_exec(chars_of(url).as_slice());
    let s = trim_end_char_exec(t.as_slice(), '/');
    let l = lowercase_exec(s.as_slice());
    string_of(l.as_slice())
}

/// A CSV field: quoted, with quotes doubled, when it holds a quote, a comma
/// or a line break.
pub open spec fn csv_field(value: Seq<char>) -> Seq<char> {
    if value.contains('"') || value.contains(',') || value.contains('\n') {
        seq!['"'] + replace(value, seq!['"'], seq!['"', '"']) + seq!['"']
    } else {
        value
    }
}

fn has_char(v: &[char], c: char) -> (r: bool)
    ensures
        r == v@.contains(c),
{
    let mut i: usize = 0;
    while i < v.len()
        invariant
            i <= v@.len(),
            forall|k: int| 0 <= k < i ==> v@[k] != c,
        decreases v.len() - i,
    {
        if v[i] == c {
            assert(v@[i as int] == c);
            return true;
        }
        i = i + 1;
    }
    false
}

pub fn csv_escape(value: &str) -> (r: String)
    ensures
        r@ == csv_field(value@),
{
    let v = chars_of(value);
    if has_char(v.as_slice(), '"') || has_char(v.as_slice(), ',') || has_char(v.as_slice(), '\n') {
        let q: Vec<char> = vec!['"'];
        let qq: Vec<char> = vec!['"', '"'];
        assert(q@ =~= seq!['"']);
        assert(qq@ =~= seq!['"', '"']);
        let inner = replace_exec(v.as_slice(), q.as_slice(), qq.as_slice());
        let mut out: Vec<char> = vec!['"'];
        let mut body = inner;
        out.append(&mut body);
        out.push('"');
        assert(out@ =~= seq!['"'] + replace(v@, seq!['"'], seq!['"', '"']) + seq!['"']);
        string_of(out.as_slice())
    } else {
        String::from_str(value)
    }
}

/// One saved item of a collection.
pub struct CollectionItem {
    pub url: String,
    pub title: String,
    pub notes: Option<String>,
    pub saved_at: String,
}

pub open spec fn notes_text(n: Option<String>) -> Seq<char> {
    match n {
        Some(s) => s@,
        None => Seq::empty(),
    }
}

/// The CSV line of an item.
pub open spec fn csv_line(item: CollectionItem) -> Seq<char> {
    csv_field(item.url@) + seq![','] + csv_field(item.title@) + seq![','] + csv_field(
        notes_text(item.notes),
    ) + seq![','] + csv_field(item.saved_at@) + seq!['\n']
}

/// The header line and one line per item.
pub open spec fn csv_lines(items: Seq<CollectionItem>) -> Seq<char>
    decreases items.len(),
{
    if items.len() == 0 {
        "url,title,notes,saved_at\n"@
    } else {
        csv_lines(items.drop_last()) + csv_line(items.last())
    }
}

fn push_all(out: &mut Vec<char>, s: &str)
    ensures
        final(out)@ == old(out)@ + s@,
{
    let mut v = chars_of(s);
    out.append(&mut v);
}

/// The CSV export of a collection's items.
pub fn collection_csv(items: &Vec<CollectionItem>) -> (r: String)
    ensures
        r@ == csv_lines(items@),
{
    let mut out = chars_of("url,title,notes,saved_at\n");
    let mut i: usize = 0;
    while i < items.len()
        invariant
            i <= items@.len(),
            out@ == csv_lines(items@.take(i as int)),
        decreases items.len() - i,
    {
        let it = &items[i];
        let ghost before = out@;
        proof {
            assert(items@.take(i + 1).drop_last() =~= items@.take(i as int));
            assert(items@.take(i + 1).last() == *it);
        }
        let u = csv_escape(it.url.as_str());
        let t = csv_escape(it.title.as_str());
        let n = match &it.notes {
            Some(s) => csv_escape(s.as_str()),
            None => csv_escape(""),
        };
        proof {
            reveal_strlit("");
            assert(""@ =~= Seq::<char>::empty());
        }
        let s = csv_escape(it.saved_at.as_str());
        push_all(&mut out, u.as_str());
        out.push(',');
        push_all(&mut out, t.as_str());
        out.push(',');
        push_all(&mut out, n.as_str());
        out.push(',');
        push_all(&mut out, s.as_str());
        out.push('\n');
        assert(out@ =~= before + csv_line(*it));
        i = i + 1;
    }
    assert(items@.take(items@.len() as int) =~= items@);
    string_of(out.as_slice())
}

/// The SQLite time offset of the history lifetime, `-<days> days`; nothing
/// to purge for a lifetime of 0.
pub open spec fn ttl_offset_text(days: u32) -> Option<Seq<char>> {
    if days == 0 {
        None
    } else {
        Some(seq!['-'] + decimal(days as nat) + " days"@)
    }
}

pub fn ttl_offset(days: u32) -> (r: Option<String>)
    ensures
        match r {
            Some(s) => ttl_offset_text(days) == Some(s@),
            None => ttl_offset_text(days) is None,
        },
{
    if days == 0 {
        return None;
    }
    let mut out: Vec<char> = vec!['-'];
    let mut d = decimal_exec(days as u64);
    out.append(&mut d);
    push_all(&mut out, " days");
    assert(out@ =~= seq!['-'] + decimal(days as nat) + " days"@);
    Some(string_of(out.as_slice()))
}

/// `n` SQL placeholders, `?,?,...,?`.
pub open spec fn placeholders_text(n: nat) -> Seq<char>
    decreases n,
{
    if n == 0 {
        Seq::empty()
    } else if n == 1 {
        seq!['?']
    } else {
        placeholders_text((n - 1) as nat) + seq![',', '?']
    }
}

pub fn sql_placeholders(n: usize) -> (r: String)
    ensures
        r@ == placeholders_text(n as nat),
{
    let mut out: Vec<char> = Vec::new();
    let mut i: usize = 0;
    while i < n
        invariant
            i <= n,
            out@ == placeholders_text(i as nat),
        decreases n - i,
    {
        if i > 0 {
            out.push(',');
        }
        out.push('?');
        assert(out@ =~= placeholders_text((i + 1) as nat));
        i = i + 1;
    }
    string_of(out.as_slice())
}

/// Whether the store encrypts, and whether it had to fall back to plain text
/// because no key is available although encryption was asked for.
pub fn cipher_mode(want_encrypt: bool, key_available: bool) -> (r: (bool, bool))
    ensures
        r.0 == (want_encrypt && key_available),
        r.1 == (want_encrypt && !key_available),
{
    (want_encrypt && key_available, want_encrypt && !key_available)
}

/// The export format asked for (`csv`, else `json`) and its media type.
pub fn export_format(fmt: &str) -> (r: (&'static str, &'static str))
    ensures
        fmt@ == "csv"@ ==> r.0@ == "csv"@ && r.1@ == "text/csv"@,
        fmt@ != "csv"@ ==> r.0@ == "json"@ && r.1@ == "application/json"@,
{
    if crate::text::eq_str(chars_of(fmt).as_slice(), "csv") {
        ("csv", "text/csv")
    } else {
        ("json", "application/json")
    }
}

/// An integer in decimal, with a leading `-` when negative.
pub open spec fn signed_decimal(n: int) -> Seq<char> {
    if n < 0 {
        seq!['-'] + crate::error::decimal((-n) as nat)
    } else {
        crate::error::decimal(n as nat)
    }
}

/// The not-found error of a missing collection.
pub fn collection_not_found(collection_id: i64) -> (e: crate::error::NetRailError)
    ensures
        e matches crate::error::NetRailError::NotFound { code, entity } && code@
            == "COLLECTION_NOT_FOUND"@ && entity@ == "collection "@ + signed_decimal(
            collection_id as int,
        ),
        e.status_view() == 404,
{
    let mut v = chars_of("collection ");
    if collection_id < 0 {
        v.push('-');
    }
    let mag: u64 = if collection_id < 0 {
        if collection_id == i64::MIN {
            9223372036854775808u64
        } else {
            (-collection_id) as u64
        }
    } else {
        collection_id as u64
    };
    let mut d = decimal_exec(mag);
    v.append(&mut d);
    crate::error::NetRailError::NotFound {
        code: "COLLECTION_NOT_FOUND",
        entity: string_of(v.as_slice()),
    }
}

/// The name for the JSON text `serde_json::to_string` makes of a list of
/// strings.
pub uninterp spec fn strings_json(v: Seq<Seq<char>>) -> Seq<char>;

/// `serde_json::to_string` of a list of strings, which cannot fail: it fails
/// only when a `Serialize` impl fails or a map has non-string keys, and
/// neither can happen for a list of strings.
#[verifier::external_body]
fn to_json_strings(v: &Vec<String>) -> (r: Result<String, String>)
    ensures
        r is Ok,
        r matches Ok(t) ==> t@ == strings_json(crate::config::strings_view(v@)),
{
    serde_json::to_string(v).map_err(|e| e.to_string())
}

/// The name for what `serde_json::from_str::<Vec<String>>` reads from a text:
/// nothing when it is not a JSON array of strings.
pub uninterp spec fn json_strings(text: Seq<char>) -> Option<Seq<Seq<char>>>;

/// `serde_json::from_str::<Vec<String>>`.
#[verifier::external_body]
fn from_json_strings(text: &str) -> (r: Option<Vec<String>>)
    ensures
        match r {
            Some(v) => json_strings(text@) == Some(crate::config::strings_view(v@)),
            None => json_strings(text@) is None,
        },
{
    serde_json::from_str::<Vec<String>>(text).ok()
}

/// The stored form of the backends a search used: their names as a JSON
/// array. Serializing a list of strings always succeeds.
pub fn backends_json(backends_used: &Vec<String>) -> (r: Result<String, crate::error::NetRailError>)
    ensures
        r matches Ok(t) && t@ == strings_json(crate::config::strings_view(backends_used@)),
{
    match to_json_strings(backends_used) {
        Ok(t) => Ok(t),
        Err(m) => Err(crate::error::json_parse_error(m)),
    }
}

/// The backends a stored search used: the JSON array read back, or none when
/// the stored text is not one.
pub fn stored_backends(raw: &str) -> (r: Vec<String>)
    ensures
        match json_strings(raw@) {
            Some(v) => crate::config::strings_view(r@) == v,
            None => r@.len() == 0,
        },
{
    match from_json_strings(raw) {
        Some(v) => v,
        None => Vec::new(),
    }
}

/// How history fields are stored, as the health report names it:
/// `encrypted` when encryption is asked for and a key is there, `degraded`
/// when it is asked for without a key, `plaintext` when it is off.
pub fn cipher_state(want_encrypt: bool, key_available: bool) -> (r: &'static str)
    ensures
        r@ == (if want_encrypt && key_available {
            "encrypted"@
        } else if want_encrypt {
            "degraded"@
        } else {
            "plaintext"@
        }),
{
    if want_encrypt && key_available {
        "encrypted"
    } else if want_encrypt {
        "degraded"
    } else {
        "plaintext"
    }
}

} // verus!

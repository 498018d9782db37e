//! Browsers: the known-browser table, desktop entries, the discovered list,
//! and how a link is opened. Reading directories, finding executables and
//! spawning the browser are left to the caller.
use crate::auth::{ascii_lowered, opt_s};
use crate::error::NetRailError;
use crate::text::{
    chars_eq, chars_of, contains, contains_str, eq_str, lowercase, lowercase_exec, slice_of,
    split_char, split_char_exec, starts_with, starts_with_str, string_of, trim, trim_exec,
};
use vstd::prelude::*;

verus! {

/// A browser found on the system.
#[derive(Debug)]
pub struct BrowserInfo {
    pub id: String,
    pub name: String,
    pub executable: String,
    pub supports_private: bool,
}

pub struct BrowserView {
    pub id: Seq<char>,
    pub name: Seq<char>,
    pub executable: Seq<char>,
    pub supports_private: bool,
}

impl View for BrowserInfo {
    type V = BrowserView;

    open spec fn view(&self) -> BrowserView {
        BrowserView {
            id: self.id@,
            name: self.name@,
            executable: self.executable@,
            supports_private: self.supports_private,
        }
    }
}

impl BrowserInfo {
    pub fn duplicate(&self) -> (r: BrowserInfo)
        ensures
            r@ == self@,
    {
        BrowserInfo {
            id: self.id.clone(),
            name: self.name.clone(),
            executable: self.executable.clone(),
            supports_private: self.supports_private,
        }
    }
}

impl Clone for BrowserInfo {
    fn clone(&self) -> Self {
        self.duplicate()
    }
}

pub open spec fn browsers_view(v: Seq<BrowserInfo>) -> Seq<BrowserView> {
    v.map_values(|b: BrowserInfo| b@)
}

/// What opening a link did.
#[derive(Debug)]
pub struct OpenResult {
    pub browser: String,
    pub executable: String,
    pub mode: String,
    pub url: String,
    pub sandbox: String,
}

// ---------------------------------------------------------------------------
// Known browsers
// ---------------------------------------------------------------------------

/// The known browsers by binary name, in ascending order: display name and
/// the flag that opens a private window.
pub open spec fn known_table() -> Seq<(Seq<char>, Seq<char>, Option<Seq<char>>)> {
    seq![
        ("firefox"@, "Firefox"@, Some("--private-window"@)),
        ("firefox-esr"@, "Firefox ESR"@, Some("--private-window"@)),
        ("google-chrome"@, "Google Chrome"@, Some("--incognito"@)),
        ("google-chrome-stable"@, "Google Chrome"@, Some("--incognito"@)),
        ("chromium"@, "Chromium"@, Some("--incognito"@)),
        ("chromium-browser"@, "Chromium"@, Some("--incognito"@)),
        ("brave-browser"@, "Brave"@, Some("--incognito"@)),
        ("microsoft-edge"@, "Microsoft Edge"@, Some("--inprivate"@)),
        ("microsoft-edge-stable"@, "Microsoft Edge"@, Some("--inprivate"@)),
        ("opera"@, "Opera"@, Some("--private"@)),
        ("vivaldi"@, "Vivaldi"@, Some("--incognito"@)),
        ("waterfox"@, "Waterfox"@, Some("--private-window"@)),
        ("librewolf"@, "LibreWolf"@, Some("--private-window"@)),
    ]
}

pub open spec fn known_view(v: Seq<(&'static str, &'static str, Option<&'static str>)>) -> Seq<
    (Seq<char>, Seq<char>, Option<Seq<char>>),
> {
    v.map_values(
        |e: (&'static str, &'static str, Option<&'static str>)|
            (e.0@, e.1@, match e.2 {
                Some(f) => Some(f@),
                None => None,
            }),
    )
}

/// The known-browser table: binary name, display name, private-window flag.
pub fn known_browsers() -> (r: Vec<(&'static str, &'static str, Option<&'static str>)>)
    ensures
        known_view(r@) == known_table(),
{
    let v = vec![
        ("firefox", "Firefox", Some("--private-window")),
        ("firefox-esr", "Firefox ESR", Some("--private-window")),
        ("google-chrome", "Google Chrome", Some("--incognito")),
        ("google-chrome-stable", "Google Chrome", Some("--incognito")),
        ("chromium", "Chromium", Some("--incognito")),
        ("chromium-browser", "Chromium", Some("--incognito")),
        ("brave-browser", "Brave", Some("--incognito")),
        ("microsoft-edge", "Microsoft Edge", Some("--inprivate")),
        ("microsoft-edge-stable", "Microsoft Edge", Some("--inprivate")),
        ("opera", "Opera", Some("--private")),
        ("vivaldi", "Vivaldi", Some("--incognito")),
        ("waterfox", "Waterfox", Some("--private-window")),
        ("librewolf", "LibreWolf", Some("--private-window")),
    ];
    assert(known_view(v@) =~= known_table());
    v
}

/// The first known entry for a binary name.
pub open spec fn known_entry(id: Seq<char>) -> Option<(Seq<char>, Seq<char>, Option<Seq<char>>)> {
    first_known(known_table(), id)
}

pub open spec fn first_known(t: Seq<(Seq<char>, Seq<char>, Option<Seq<char>>)>, id: Seq<char>) -> Option<
    (Seq<char>, Seq<char>, Option<Seq<char>>),
>
    decreases t.len(),
{
    if t.len() == 0 {
        None
    } else if t[0].0 == id {
        Some(t[0])
    } else {
        first_known(t.drop_first(), id)
    }
}

fn lookup_known(id: &str) -> (r: Option<(&'static str, &'static str, Option<&'static str>)>)
    ensures
        match r {
            Some(e) => known_entry(id@) == Some(
                (
                    e.0@,
                    e.1@,
                    match e.2 {
                        Some(f) => Some(f@),
                        None => None,
                    },
                ),
            ),
            None => known_entry(id@) is None,
        },
{
    let table = known_browsers();
    let ghost kv = known_view(table@);
    let target = chars_of(id);
    let mut i: usize = 0;
    assert(kv.skip(0) =~= kv);
    while i < table.len()
        invariant
            i <= table@.len(),
            kv == known_view(table@),
            kv == known_table(),
            target@ == id@,
            first_known(kv, id@) == first_known(kv.skip(i as int), id@),
        decreases table.len() - i,
    {
        let e = table[i];
        assert(kv.skip(i as int)[0] == kv[i as int]);
        assert(kv.skip(i as int).drop_first() =~= kv.skip(i + 1));
        if chars_eq(chars_of(e.0).as_slice(), target.as_slice()) {
            return Some(e);
        }
        i = i + 1;
    }
    None
}

/// The flag that opens a private window of a known browser; none for
/// unknown binaries.
pub fn private_flag_for(browser_id: &str) -> (r: Option<&'static str>)
    ensures
        opt_s(r) == (match known_entry(browser_id@) {
            Some(e) => e.2,
            None => None,
        }),
{
    match lookup_known(browser_id) {
        Some(e) => e.2,
        None => None,
    }
}

// ---------------------------------------------------------------------------
// Desktop entries
// ---------------------------------------------------------------------------

/// What reading a desktop entry has found so far.
pub struct DesktopState {
    pub name: Seq<char>,
    pub command: Seq<char>,
    pub browser: bool,
    pub in_entry: bool,
    pub saw_entry: bool,
    pub rejected: bool,
}

pub open spec fn strip_prefix(s: Seq<char>, p: Seq<char>) -> Option<Seq<char>> {
    if starts_with(s, p) {
        Some(s.skip(p.len() as int))
    } else {
        None
    }
}

/// One line of a desktop entry. Only keys inside `[Desktop Entry]` count.
pub open spec fn desktop_step(st: DesktopState, raw: Seq<char>) -> DesktopState {
    let line = trim(raw);
    if st.rejected {
        st
    } else if line.len() > 0 && line[0] == '[' && line.last() == ']' {
        let in_entry = line == "[Desktop Entry]"@;
        DesktopState { in_entry, saw_entry: st.saw_entry || in_entry, ..st }
    } else if !st.in_entry {
        st
    } else if let Some(rest) = strip_prefix(line, "Name="@) {
        DesktopState { name: rest, ..st }
    } else if let Some(rest) = strip_prefix(line, "Exec="@) {
        DesktopState { command: trim(split_char(rest, '%')[0]), ..st }
    } else if let Some(rest) = strip_prefix(line, "Categories="@) {
        if contains(lowercase(rest), "webbrowser"@) {
            DesktopState { browser: true, ..st }
        } else {
            st
        }
    } else if let Some(rest) = strip_prefix(line, "MimeType="@) {
        if contains(lowercase(rest), "x-scheme-handler/http"@) {
            DesktopState { browser: true, ..st }
        } else {
            st
        }
    } else if let Some(rest) = strip_prefix(line, "Type="@) {
        if trim(rest) != "Application"@ {
            DesktopState { rejected: true, ..st }
        } else {
            st
        }
    } else if let Some(rest) = strip_prefix(line, "NoDisplay="@) {
        if ascii_lowered(trim(rest)) == "true"@ {
            DesktopState { rejected: true, ..st }
        } else {
            st
        }
    } else {
        st
    }
}

pub open spec fn desktop_run(lines: Seq<Seq<char>>, init: DesktopState) -> DesktopState
    decreases lines.len(),
{
    if lines.len() == 0 {
        init
    } else {
        desktop_step(desktop_run(lines.drop_last(), init), lines.last())
    }
}

/// The name and command of a desktop entry that describes a web browser: an
/// `Application` entry, displayed, with a command, claiming the `WebBrowser`
/// category or the `http` scheme. The name defaults to the file stem.
pub open spec fn desktop_entry(stem: Seq<char>, content: Seq<char>) -> Option<(Seq<char>, Seq<char>)> {
    let st = desktop_run(
        split_char(content, '\n'),
        DesktopState {
            name: stem,
            command: Seq::empty(),
            browser: false,
            in_entry: false,
            saw_entry: false,
            rejected: false,
        },
    );
    if st.rejected || !st.saw_entry || st.command.len() == 0 || !st.browser {
        None
    } else {
        Some((st.name, st.command))
    }
}

fn strip_prefix_exec(s: &[char], p: &str) -> (r: Option<Vec<char>>)
    ensures
        match r {
            Some(v) => strip_prefix(s@, p@) == Some(v@),
            None => strip_prefix(s@, p@) is None,
        },
{
    let pv = chars_of(p);
    if starts_with_str(s, p) {
        let v = slice_of(s, pv.len(), s.len());
        assert(v@ =~= s@.skip(p@.len() as int));
        Some(v)
    } else {
        None
    }
}

proof fn lemma_split_char_nonempty(s: Seq<char>, c: char)
    ensures
        split_char(s, c).len() >= 1,
{
}

/// Tracks one line of a desktop entry; the state is held in plain values.
fn desktop_step_exec(
    name: &mut Vec<char>,
    command: &mut Vec<char>,
    browser: &mut bool,
    in_entry: &mut bool,
    saw_entry: &mut bool,
    rejected: &mut bool,
    raw: &[char],
)
    ensures
        ({
            let before = DesktopState {
                name: old(name)@,
                command: old(command)@,
                browser: *old(browser),
                in_entry: *old(in_entry),
                saw_entry: *old(saw_entry),
                rejected: *old(rejected),
            };
            let after = DesktopState {
                name: final(name)@,
                command: final(command)@,
                browser: *final(browser),
                in_entry: *final(in_entry),
                saw_entry: *final(saw_entry),
                rejected: *final(rejected),
            };
            after == desktop_step(before, raw@)
        }),
{
    proof {
        reveal_strlit("Application");
        reveal_strlit("true");
    }
    let line = trim_exec(raw);
    if *rejected {
        return;
    }
    let n = line.len();
    if n > 0 && line[0] == '[' && line[n - 1] == ']' {
        let e = eq_str(line.as_slice(), "[Desktop Entry]");
        *in_entry = e;
        *saw_entry = *saw_entry || e;
        return;
    }
    if !*in_entry {
        return;
    }
    if let Some(rest) = strip_prefix_exec(line.as_slice(), "Name=") {
        *name = rest;
    } else if let Some(rest) = strip_prefix_exec(line.as_slice(), "Exec=") {
        let pieces = split_char_exec(rest.as_slice(), '%');
        proof {
            lemma_split_char_nonempty(rest@, '%');
        }
        assert(pieces@.map_values(|p: Vec<char>| p@)[0] == pieces@[0]@);
        *command = trim_exec(pieces[0].as_slice());
    } else if let Some(rest) = strip_prefix_exec(line.as_slice(), "Categories=") {
        let l = lowercase_exec(rest.as_slice());
        if contains_str(l.as_slice(), "webbrowser") {
            *browser = true;
        }
    } else if let Some(rest) = strip_prefix_exec(line.as_slice(), "MimeType=") {
        let l = lowercase_exec(rest.as_slice());
        if contains_str(l.as_slice(), "x-scheme-handler/http") {
            *browser = true;
        }
    } else if let Some(rest) = strip_prefix_exec(line.as_slice(), "Type=") {
        let t = trim_exec(rest.as_slice());
        if !eq_str(t.as_slice(), "Application") {
            *rejected = true;
        }
    } else if let Some(rest) = strip_prefix_exec(line.as_slice(), "NoDisplay=") {
        let t = trim_exec(rest.as_slice());
        let mut l: Vec<char> = Vec::new();
        let mut i: usize = 0;
        while i < t.len()
            invariant
                i <= t@.len(),
                l@ == ascii_lowered(t@).take(i as int),
            decreases t.len() - i,
        {
            let c = crate::text::ascii_lower_char_exec(t[i]);
            l.push(c);
            assert(ascii_lowered(t@).take(i + 1) =~= ascii_lowered(t@).take(i as int).push(c));
            i = i + 1;
        }
        assert(ascii_lowered(t@).take(t@.len() as int) =~= ascii_lowered(t@));
        if eq_str(l.as_slice(), "true") {
            *rejected = true;
        }
    }
}

/// Reads a desktop entry (its file stem and text): the display name and the
/// command of a web browser entry, the command cut at the first `%` field
/// code; nothing for any other entry.
pub fn parse_desktop(stem: &str, content: &str) -> (r: Option<(String, String)>)
    ensures
        match r {
            Some((n, e)) => desktop_entry(stem@, content@) == Some((n@, e@)),
            None => desktop_entry(stem@, content@) is None,
        },
{
    let lines = split_char_exec(chars_of(content).as_slice(), '\n');
    let ghost lv = lines@.map_values(|p: Vec<char>| p@);
    let ghost init = DesktopState {
        name: stem@,
        command: Seq::empty(),
        browser: false,
        in_entry: false,
        saw_entry: false,
        rejected: false,
    };
    let mut name = chars_of(stem);
    let mut command: Vec<char> = Vec::new();
    let mut browser = false;
    let mut in_entry = false;
    let mut saw_entry = false;
    let mut rejected = false;
    let mut i: usize = 0;
    assert(lv.take(0) =~= Seq::<Seq<char>>::empty());
    assert(command@ =~= Seq::<char>::empty());
    while i < lines.len()
        invariant
            i <= lines@.len(),
            lv == lines@.map_values(|p: Vec<char>| p@),
            (DesktopState { name: name@, command: command@, browser, in_entry, saw_entry, rejected })
                == desktop_run(lv.take(i as int), init),
        decreases lines.len() - i,
    {
        proof {
            assert(lv.take(i + 1).drop_last() =~= lv.take(i as int));
            assert(lv.take(i + 1).last() == lines@[i as int]@);
        }
        desktop_step_exec(
            &mut name,
            &mut command,
            &mut browser,
            &mut in_entry,
            &mut saw_entry,
            &mut rejected,
            lines[i].as_slice(),
        );
        i = i + 1;
    }
    assert(lv.take(lv.len() as int) =~= lv);
    if rejected || !saw_entry || command.len() == 0 || !browser {
        None
    } else {
        Some((string_of(name.as_slice()), string_of(command.as_slice())))
    }
}

// ---------------------------------------------------------------------------
// The discovered browsers
// ---------------------------------------------------------------------------

/// The name for the last component of a path (`Path::file_name`), if it has
/// one that is valid text.
pub uninterp spec fn path_file_name(path: Seq<char>) -> Option<Seq<char>>;

/// `std::path::Path::new(path).file_name()` as text.
#[verifier::external_body]
fn file_name_of(path: &str) -> (r: Option<String>)
    ensures
        match r {
            Some(n) => path_file_name(path@) == Some(n@),
            None => path_file_name(path@) is None,
        },
{
    std::path::Path::new(path).file_name().and_then(|s| s.to_str()).map(str::to_string)
}

/// The id of a browser found through a desktop entry: its executable's file
/// name, `browser` without one.
pub open spec fn stem_of(path: Seq<char>) -> Seq<char> {
    match path_file_name(path) {
        Some(n) => n,
        None => "browser"@,
    }
}

/// A browser found through its desktop entry; a known binary takes its
/// display name and private flag from the table.
pub open spec fn desktop_browser(name: Seq<char>, resolved: Seq<char>) -> BrowserView {
    let id = stem_of(resolved);
    match known_entry(id) {
        Some(e) => BrowserView {
            id,
            name: e.1,
            executable: resolved,
            supports_private: e.2 is Some,
        },
        None => BrowserView { id, name, executable: resolved, supports_private: false },
    }
}

/// The browsers of the desktop entries (name, resolved executable), then the
/// known binaries found on the path, each executable once, in that order.
pub open spec fn gathered_browsers(
    desktop: Seq<(Seq<char>, Seq<char>)>,
    known: Seq<Option<Seq<char>>>,
) -> (Seq<BrowserView>, Seq<Seq<char>>)
    decreases known.len() + desktop.len(),
{
    if known.len() > 0 {
        let before = gathered_browsers(desktop, known.drop_last());
        let k = known.len() - 1;
        match known.last() {
            Some(path) => if before.1.contains(path) || k >= known_table().len() {
                before
            } else {
                (
                    before.0.push(
                        BrowserView {
                            id: known_table()[k].0,
                            name: known_table()[k].1,
                            executable: path,
                            supports_private: known_table()[k].2 is Some,
                        },
                    ),
                    before.1.push(path),
                )
            },
            None => before,
        }
    } else if desktop.len() > 0 {
        let before = gathered_browsers(desktop.drop_last(), known);
        let (name, resolved) = desktop.last();
        if before.1.contains(resolved) {
            before
        } else {
            (before.0.push(desktop_browser(name, resolved)), before.1.push(resolved))
        }
    } else {
        (Seq::empty(), Seq::empty())
    }
}

/// The sort key of a browser: its name, lowercased.
pub open spec fn sort_key(b: BrowserView) -> Seq<char> {
    lowercase(b.name)
}

/// `b` put after every browser whose key is not greater (a stable insertion).
pub open spec fn insert_by_name(b: BrowserView, s: Seq<BrowserView>) -> Seq<BrowserView>
    decreases s.len(),
{
    if s.len() == 0 {
        seq![b]
    } else if crate::merge::seq_less(sort_key(b), sort_key(s.last())) {
        insert_by_name(b, s.drop_last()).push(s.last())
    } else {
        s.push(b)
    }
}

/// The browsers sorted by lowercased name, equal names keeping their order.
pub open spec fn sorted_by_name(s: Seq<BrowserView>) -> Seq<BrowserView>
    decreases s.len(),
{
    if s.len() == 0 {
        s
    } else {
        insert_by_name(s.last(), sorted_by_name(s.drop_last()))
    }
}

fn seq_less_exec(a: &[char], b: &[char]) -> (r: bool)
    ensures
        r == crate::merge::seq_less(a@, b@),
{
    let mut i: usize = 0;
    assert(a@.skip(0) =~= a@);
    assert(b@.skip(0) =~= b@);
    while i < a.len() && i < b.len() && a[i] == b[i]
        invariant
            i <= a@.len(),
            i <= b@.len(),
            crate::merge::seq_less(a@, b@) == crate::merge::seq_less(
                a@.skip(i as int),
                b@.skip(i as int),
            ),
        decreases a.len() - i,
    {
        assert(a@.skip(i as int).drop_first() =~= a@.skip(i + 1));
        assert(b@.skip(i as int).drop_first() =~= b@.skip(i + 1));
        i = i + 1;
    }
    if i == a.len() {
        i < b.len()
    } else if i == b.len() {
        false
    } else {
        a[i] < b[i]
    }
}

proof fn lemma_insert_by_name_at(b: BrowserView, s: Seq<BrowserView>, j: int)
    requires
        0 <= j <= s.len(),
        forall|k: int| j <= k < s.len() ==> crate::merge::seq_less(sort_key(b), #[trigger] sort_key(s[k])),
        j == 0 || !crate::merge::seq_less(sort_key(b), sort_key(s[j - 1])),
    ensures
        insert_by_name(b, s) == s.take(j).push(b) + s.skip(j),
    decreases s.len(),
{
    if s.len() == 0 {
        assert(s.take(j).push(b) + s.skip(j) =~= seq![b]);
    } else if j == s.len() {
        assert(s.take(j) =~= s);
        assert(s.take(j).push(b) + s.skip(j) =~= s.push(b));
    } else {
        let t = s.drop_last();
        assert(crate::merge::seq_less(sort_key(b), sort_key(s[s.len() - 1])));
        assert forall|k: int| j <= k < t.len() implies crate::merge::seq_less(
            sort_key(b),
            #[trigger] sort_key(t[k]),
        ) by {
            assert(t[k] == s[k]);
        }
        if j > 0 {
            assert(t[j - 1] == s[j - 1]);
        }
        lemma_insert_by_name_at(b, t, j);
        assert((t.take(j).push(b) + t.skip(j)).push(s.last()) =~= s.take(j).push(b) + s.skip(j));
    }
}

fn sort_by_name(v: Vec<BrowserInfo>) -> (r: Vec<BrowserInfo>)
    ensures
        browsers_view(r@) == sorted_by_name(browsers_view(v@)),
{
    let ghost bv = browsers_view(v@);
    let mut out: Vec<BrowserInfo> = Vec::new();
    let mut keys: Vec<Vec<char>> = Vec::new();
    let mut i: usize = 0;
    while i < v.len()
        invariant
            i <= v@.len(),
            bv == browsers_view(v@),
            browsers_view(out@) == sorted_by_name(bv.take(i as int)),
            keys@.len() == out@.len(),
            forall|k: int| 0 <= k < keys@.len() ==> #[trigger] keys@[k]@ == sort_key(out@[k]@),
        decreases v.len() - i,
    {
        let b = v[i].duplicate();
        let key = lowercase_exec(chars_of(b.name.as_str()).as_slice());
        let ghost before = browsers_view(out@);
        let mut j: usize = out.len();
        while j > 0 && seq_less_exec(key.as_slice(), keys[j - 1].as_slice())
            invariant
                j <= out@.len(),
                keys@.len() == out@.len(),
                before == browsers_view(out@),
                forall|k: int| 0 <= k < keys@.len() ==> #[trigger] keys@[k]@ == sort_key(out@[k]@),
                key@ == sort_key(b@),
                forall|k: int|
                    j <= k < before.len() ==> crate::merge::seq_less(
                        sort_key(b@),
                        #[trigger] sort_key(before[k]),
                    ),
            decreases j,
        {
            assert(before[j - 1] == out@[j - 1]@);
            j = j - 1;
        }
        proof {
            if j > 0 {
                assert(before[j - 1] == out@[j - 1]@);
            }
            lemma_insert_by_name_at(b@, before, j as int);
            assert(bv.take(i + 1).drop_last() =~= bv.take(i as int));
            assert(bv.take(i + 1).last() == b@);
        }
        let ghost bb = b@;
        let ghost ko = keys@;
        let ghost oo = out@;
        out.insert(j, b);
        keys.insert(j, key);
        proof {
            assert(browsers_view(out@) =~= before.take(j as int).push(bb) + before.skip(j as int));
            assert forall|k: int| 0 <= k < keys@.len() implies #[trigger] keys@[k]@ == sort_key(
                out@[k]@,
            ) by {
                if k < j {
                    assert(keys@[k] == ko[k]);
                    assert(out@[k] == oo[k]);
                } else if k > j {
                    assert(keys@[k] == ko[k - 1]);
                    assert(out@[k] == oo[k - 1]);
                }
            }
        }
        i = i + 1;
    }
    assert(bv.take(bv.len() as int) =~= bv);
    out
}

fn contains_string(v: &Vec<String>, s: &str) -> (r: bool)
    ensures
        r == crate::config::strings_view(v@).contains(s@),
{
    let target = chars_of(s);
    let mut i: usize = 0;
    while i < v.len()
        invariant
            i <= v@.len(),
            target@ == s@,
            forall|k: int| 0 <= k < i ==> v@[k]@ != s@,
        decreases v.len() - i,
    {
        if chars_eq(chars_of(v[i].as_str()).as_slice(), target.as_slice()) {
            assert(crate::config::strings_view(v@)[i as int] == s@);
            return true;
        }
        i = i + 1;
    }
    proof {
        if crate::config::strings_view(v@).contains(s@) {
            let k = choose|k: int|
                0 <= k < v@.len() && crate::config::strings_view(v@)[k] == s@;
            assert(v@[k]@ == s@);
        }
    }
    false
}

pub open spec fn pairs_view(v: Seq<(String, String)>) -> Seq<(Seq<char>, Seq<char>)> {
    v.map_values(|p: (String, String)| (p.0@, p.1@))
}

pub open spec fn opts_view(v: Seq<Option<String>>) -> Seq<Option<Seq<char>>> {
    v.map_values(
        |o: Option<String>|
            match o {
                Some(s) => Some(s@),
                None => None,
            },
    )
}

/// The browser list: the desktop-entry browsers (display name and resolved
/// executable, in directory order), then the known binaries found on the path
/// (`known[i]` for the i-th entry of the known table), each executable once,
/// sorted by lowercased name.
pub fn assemble_browsers(desktop: &Vec<(String, String)>, known: &Vec<Option<String>>) -> (r: Vec<
    BrowserInfo,
>)
    ensures
        browsers_view(r@) == sorted_by_name(gathered_browsers(pairs_view(desktop@), opts_view(known@)).0),
{
    let ghost dv = pairs_view(desktop@);
    let ghost kv = opts_view(known@);
    let mut seen: Vec<String> = Vec::new();
    let mut list: Vec<BrowserInfo> = Vec::new();
    let mut i: usize = 0;
    assert(dv.take(0) =~= Seq::<(Seq<char>, Seq<char>)>::empty());
    assert(kv.take(0) =~= Seq::<Option<Seq<char>>>::empty());
    assert(browsers_view(list@) =~= Seq::<BrowserView>::empty());
    assert(crate::config::strings_view(seen@) =~= Seq::<Seq<char>>::empty());
    while i < desktop.len()
        invariant
            i <= desktop@.len(),
            dv == pairs_view(desktop@),
            kv == opts_view(known@),
            (browsers_view(list@), crate::config::strings_view(seen@)) == gathered_browsers(
                dv.take(i as int),
                kv.take(0),
            ),
        decreases desktop.len() - i,
    {
        let ghost l0 = list@;
        let ghost s0 = seen@;
        proof {
            assert(dv.take(i + 1).drop_last() =~= dv.take(i as int));
            assert(dv.take(i + 1).last() == (desktop@[i as int].0@, desktop@[i as int].1@));
        }
        let name = &desktop[i].0;
        let resolved = &desktop[i].1;
        if !contains_string(&seen, resolved.as_str()) {
            let id: String = match file_name_of(resolved.as_str()) {
                Some(n) => n,
                None => String::from_str("browser"),
            };
            let info = match lookup_known(id.as_str()) {
                Some(e) => BrowserInfo {
                    id,
                    name: String::from_str(e.1),
                    executable: resolved.clone(),
                    supports_private: e.2.is_some(),
                },
                None => BrowserInfo {
                    id,
                    name: name.clone(),
                    executable: resolved.clone(),
                    supports_private: false,
                },
            };
            let ghost iv = info@;
            list.push(info);
            seen.push(resolved.clone());
            proof {
                assert(browsers_view(list@) =~= browsers_view(l0).push(iv));
                assert(crate::config::strings_view(seen@) =~= crate::config::strings_view(s0).push(
                    resolved@,
                ));
            }
        }
        i = i + 1;
    }
    assert(dv.take(dv.len() as int) =~= dv);
    let table = known_browsers();
    let mut k: usize = 0;
    while k < known.len()
        invariant
            k <= known@.len(),
            dv == pairs_view(desktop@),
            kv == opts_view(known@),
            known_view(table@) == known_table(),
            (browsers_view(list@), crate::config::strings_view(seen@)) == gathered_browsers(
                dv,
                kv.take(k as int),
            ),
        decreases known.len() - k,
    {
        let ghost l0 = list@;
        let ghost s0 = seen@;
        proof {
            assert(kv.take(k + 1).drop_last() =~= kv.take(k as int));
        }
        match &known[k] {
            Some(path) => {
                assert(kv.take(k + 1).last() == Some(path@));
                if !contains_string(&seen, path.as_str()) && k < table.len() {
                    let e = table[k];
                    let info = BrowserInfo {
                        id: String::from_str(e.0),
                        name: String::from_str(e.1),
                        executable: path.clone(),
                        supports_private: e.2.is_some(),
                    };
                    let ghost iv = info@;
                    list.push(info);
                    seen.push(path.clone());
                    proof {
                        assert(known_table()[k as int] == known_view(table@)[k as int]);
                        assert(browsers_view(list@) =~= browsers_view(l0).push(iv));
                        assert(crate::config::strings_view(seen@) =~= crate::config::strings_view(
                            s0,
                        ).push(path@));
                    }
                }
            },
            None => {
                assert(kv.take(k + 1).last() is None);
            },
        }
        k = k + 1;
    }
    assert(kv.take(kv.len() as int) =~= kv);
    sort_by_name(list)
}

/// The browser to open a link with: the one with the requested id, else the
/// first one; none when no browser is known.
pub open spec fn chosen_browser(list: Seq<BrowserView>, id: Option<Seq<char>>) -> Option<BrowserView> {
    if list.len() == 0 {
        None
    } else {
        match id {
            Some(want) => match first_with_id(list, want) {
                Some(b) => Some(b),
                None => Some(list[0]),
            },
            None => Some(list[0]),
        }
    }
}

pub open spec fn first_with_id(list: Seq<BrowserView>, id: Seq<char>) -> Option<BrowserView>
    decreases list.len(),
{
    if list.len() == 0 {
        None
    } else if list[0].id == id {
        Some(list[0])
    } else {
        first_with_id(list.drop_first(), id)
    }
}

pub fn find_browser(browsers: &Vec<BrowserInfo>, browser_id: Option<&str>) -> (r: Option<BrowserInfo>)
    ensures
        match r {
            Some(b) => chosen_browser(browsers_view(browsers@), opt_s(browser_id)) == Some(b@),
            None => chosen_browser(browsers_view(browsers@), opt_s(browser_id)) is None,
        },
{
    let ghost bv = browsers_view(browsers@);
    if browsers.len() == 0 {
        return None;
    }
    if let Some(id) = browser_id {
        let target = chars_of(id);
        let mut i: usize = 0;
        assert(bv.skip(0) =~= bv);
        while i < browsers.len()
            invariant
                i <= browsers@.len(),
                bv == browsers_view(browsers@),
                target@ == id@,
                opt_s(browser_id) == Some(id@),
                bv.len() > 0,
                first_with_id(bv, id@) == first_with_id(bv.skip(i as int), id@),
            decreases browsers.len() - i,
        {
            assert(bv.skip(i as int)[0] == browsers@[i as int]@);
            assert(bv.skip(i as int).drop_first() =~= bv.skip(i + 1));
            if chars_eq(chars_of(browsers[i].id.as_str()).as_slice(), target.as_slice()) {
                assert(bv.skip(i as int)[0].id == id@);
                assert(first_with_id(bv.skip(i as int), id@) == Some(browsers@[i as int]@));
                let d = browsers[i].duplicate();
                assert(opt_s(browser_id) == Some(id@));
                assert(chosen_browser(bv, Some(id@)) == Some(d@));
                return Some(d);
            }
            i = i + 1;
        }
    }
    Some(browsers[0].duplicate())
}

// ---------------------------------------------------------------------------
// Opening a link
// ---------------------------------------------------------------------------

/// Whether `NETRAIL_NO_OPEN` asks for a dry run: set to something other than
/// blank, `0` or `false` (any case).
pub open spec fn dry_run_wanted(flag: Option<Seq<char>>) -> bool {
    match flag {
        Some(v) => trim(v).len() > 0 && v != "0"@ && ascii_lowered(v) != "false"@,
        None => false,
    }
}

pub fn dry_run_enabled(flag: Option<&str>) -> (r: bool)
    ensures
        r == dry_run_wanted(opt_s(flag)),
{
    match flag {
        Some(v) => {
            let c = chars_of(v);
            if trim_exec(c.as_slice()).len() == 0 || eq_str(c.as_slice(), "0") {
                return false;
            }
            let mut l: Vec<char> = Vec::new();
            let mut i: usize = 0;
            while i < c.len()
                invariant
                    i <= c@.len(),
                    c@ == v@,
                    l@ == ascii_lowered(c@).take(i as int),
                decreases c.len() - i,
            {
                let x = crate::text::ascii_lower_char_exec(c[i]);
                l.push(x);
                assert(ascii_lowered(c@).take(i + 1) =~= ascii_lowered(c@).take(i as int).push(x));
                i = i + 1;
            }
            assert(ascii_lowered(c@).take(c@.len() as int) =~= ascii_lowered(c@));
            !eq_str(l.as_slice(), "false")
        },
        None => false,
    }
}

/// The answer of a dry run: nothing is discovered or spawned.
pub fn dry_run_result(url: &str, private_mode: bool) -> (r: OpenResult)
    ensures
        r.browser@ == "dry-run"@,
        r.executable@ == "dry-run"@,
        r.mode@ == (if private_mode {
            "private"@
        } else {
            "normal"@
        }),
        r.url@ == url@,
        r.sandbox@ == "dry-run"@,
{
    OpenResult {
        browser: String::from_str("dry-run"),
        executable: String::from_str("dry-run"),
        mode: String::from_str(
            if private_mode {
                "private"
            } else {
                "normal"
            },
        ),
        url: String::from_str(url),
        sandbox: String::from_str("dry-run"),
    }
}

/// The arguments a browser is started with: the private-window flag of a
/// known browser when a private window is asked for, then the link.
pub open spec fn launch_args_of(id: Seq<char>, private_mode: bool, url: Seq<char>) -> Seq<Seq<char>> {
    match (if private_mode {
        match known_entry(id) {
            Some(e) => e.2,
            None => None,
        }
    } else {
        None
    }) {
        Some(flag) => seq![flag, url],
        None => seq![url],
    }
}

pub fn launch_args(browser_id: &str, private_mode: bool, url: &str) -> (r: Vec<String>)
    ensures
        crate::config::strings_view(r@) == launch_args_of(browser_id@, private_mode, url@),
{
    let mut args: Vec<String> = Vec::new();
    if private_mode {
        if let Some(flag) = private_flag_for(browser_id) {
            args.push(String::from_str(flag));
        }
    }
    args.push(String::from_str(url));
    assert(crate::config::strings_view(args@) =~= launch_args_of(browser_id@, private_mode, url@));
    args
}

/// What opening a link in `browser` reports.
pub fn opened_result(browser: &BrowserInfo, private_mode: bool, url: &str, flatpak: bool) -> (r:
    OpenResult)
    ensures
        r.browser@ == browser.name@,
        r.executable@ == browser.executable@,
        r.mode@ == (if private_mode && browser.supports_private {
            "private"@
        } else {
            "normal"@
        }),
        r.url@ == url@,
        r.sandbox@ == (if flatpak {
            "flatpak-host"@
        } else {
            "native"@
        }),
{
    OpenResult {
        browser: browser.name.clone(),
        executable: browser.executable.clone(),
        mode: String::from_str(
            if private_mode && browser.supports_private {
                "private"
            } else {
                "normal"
            },
        ),
        url: String::from_str(url),
        sandbox: String::from_str(
            if flatpak {
                "flatpak-host"
            } else {
                "native"
            },
        ),
    }
}

/// No browser to open a link with.
pub fn browser_not_found() -> (e: NetRailError)
    ensures
        e matches NetRailError::Internal { code, message } && code@ == "BROWSER_NOT_FOUND"@
            && message@ == "No web browser found on this system."@,
{
    NetRailError::Internal {
        code: "BROWSER_NOT_FOUND",
        message: String::from_str("No web browser found on this system."),
    }
}

/// An unknown binary never gets a private flag, and a private window is only
/// claimed for a browser that supports one.
pub proof fn lemma_unknown_browser_not_private(id: Seq<char>, url: Seq<char>)
    requires
        known_entry(id) is None,
    ensures
        launch_args_of(id, true, url) == seq![url],
{
}

/// The program of a desktop entry's command: its first word.
pub fn command_program(command: &str) -> (r: Option<String>)
    ensures
        match r {
            Some(p) => crate::text::split_ws(command@).len() > 0 && p@ == crate::text::split_ws(
                command@,
            )[0],
            None => crate::text::split_ws(command@).len() == 0,
        },
{
    let words = crate::text::split_ws_exec(chars_of(command).as_slice());
    if words.len() == 0 {
        None
    } else {
        assert(words@.map_values(|p: Vec<char>| p@)[0] == words@[0]@);
        Some(string_of(words[0].as_slice()))
    }
}

/// The error of a browser that failed to start.
pub fn spawn_failed(browser: &BrowserInfo, reason: &str) -> (e: NetRailError)
    ensures
        e matches NetRailError::Internal { code, message } && code@ == "BROWSER_SPAWN_FAILED"@
            && message@ == "Failed to launch browser "@ + browser.executable@ + " ("@
            + browser.name@ + "): "@ + reason@,
{
    let a = crate::backends::concat_str("Failed to launch browser ", browser.executable.as_str());
    let b = crate::backends::concat_str(a.as_str(), " (");
    let c = crate::backends::concat_str(b.as_str(), browser.name.as_str());
    let d = crate::backends::concat_str(c.as_str(), "): ");
    let m = crate::backends::concat_str(d.as_str(), reason);
    NetRailError::Internal { code: "BROWSER_SPAWN_FAILED", message: m }
}

} // verus!

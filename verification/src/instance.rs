//! The single-instance guard: what answers on the API port decides whether
//! this process binds, attaches to a running NetRail, or stops.
use crate::text::{chars_of, contains, contains_str, find, find_exec, is_ws, is_ws_exec, slice_of, string_of};
use vstd::prelude::*;

verus! {

/// What a running NetRail answered on `/api/health`.
#[derive(Debug)]
pub struct HealthFingerprint {
    /// The start of the raw `/api/health` body, for logs.
    pub body_snippet: String,
}

/// What answered on the API port.
#[derive(Debug)]
pub enum ProbeOutcome {
    /// Nothing listening: safe to bind.
    Empty,
    /// A real NetRail API answered: attach, do not bind.
    NetRail(HealthFingerprint),
    /// Something else answered: never attach silently.
    Foreign(String),
}

pub enum OutcomeView {
    Empty,
    NetRail(Seq<char>),
    Foreign(Seq<char>),
}

impl View for ProbeOutcome {
    type V = OutcomeView;

    open spec fn view(&self) -> OutcomeView {
        match self {
            ProbeOutcome::Empty => OutcomeView::Empty,
            ProbeOutcome::NetRail(f) => OutcomeView::NetRail(f.body_snippet@),
            ProbeOutcome::Foreign(s) => OutcomeView::Foreign(s@),
        }
    }
}

/// The text without its whitespace characters.
pub open spec fn without_ws(s: Seq<char>) -> Seq<char> {
    s.filter(|c: char| !is_ws(c))
}

/// A NetRail `/api/health` body: `"status":"ok"` and the keys `version` and
/// `api_contract`, whitespace ignored.
pub open spec fn netrail_body(body: Seq<char>) -> bool {
    let compact = without_ws(body);
    contains(compact, "\"status\":\"ok\""@) && contains(compact, "\"version\""@) && contains(
        compact,
        "\"api_contract\""@,
    )
}

fn compact_exec(body: &str) -> (r: Vec<char>)
    ensures
        r@ == without_ws(body@),
{
    let v = chars_of(body);
    let mut out: Vec<char> = Vec::new();
    let mut i: usize = 0;
    while i < v.len()
        invariant
            i <= v@.len(),
            v@ == body@,
            out@ == v@.take(i as int).filter(|c: char| !is_ws(c)),
        decreases v.len() - i,
    {
        proof {
            reveal(Seq::filter);
            assert(v@.take(i + 1).drop_last() =~= v@.take(i as int));
        }
        if !is_ws_exec(v[i]) {
            out.push(v[i]);
        }
        i = i + 1;
    }
    assert(v@.take(v@.len() as int) =~= v@);
    out
}

/// Whether an `/api/health` body carries the NetRail fingerprint.
pub fn is_netrail_body(body: &str) -> (r: bool)
    ensures
        r == netrail_body(body@),
{
    let c = compact_exec(body);
    contains_str(c.as_slice(), "\"status\":\"ok\"") && contains_str(c.as_slice(), "\"version\"")
        && contains_str(c.as_slice(), "\"api_contract\"")
}

/// The reply split into head and body at the first blank line (`\r\n\r\n`,
/// else `\n\n`); without one, all of it is body.
pub open spec fn split_reply(text: Seq<char>) -> (Seq<char>, Seq<char>) {
    match find(text, "\r\n\r\n"@) {
        Some(i) => (text.take(i), text.skip(i + 4)),
        None => match find(text, "\n\n"@) {
            Some(i) => (text.take(i), text.skip(i + 2)),
            None => (Seq::empty(), text),
        },
    }
}

/// The first line of the head without its line ending, `?` for an empty head.
pub open spec fn first_line(head: Seq<char>) -> Seq<char> {
    if head.len() == 0 {
        "?"@
    } else {
        let line = match find(head, "\n"@) {
            Some(i) => head.take(i),
            None => head,
        };
        if line.len() > 0 && line.last() == '\r' {
            line.drop_last()
        } else {
            line
        }
    }
}

/// What a reply to the health probe means.
pub open spec fn classified(text: Seq<char>) -> OutcomeView {
    if text.len() == 0 {
        OutcomeView::Empty
    } else {
        let parts = split_reply(text);
        if !contains(parts.0, " 200 "@) {
            OutcomeView::Foreign("non-200 from :7421 ("@ + first_line(parts.0) + ")"@)
        } else if netrail_body(parts.1) {
            OutcomeView::NetRail(if parts.1.len() > 300 {
                parts.1.take(300)
            } else {
                parts.1
            })
        } else {
            OutcomeView::Foreign("200 without NetRail fingerprint"@)
        }
    }
}

fn cat(a: &[char], b: &[char]) -> (r: Vec<char>)
    ensures
        r@ == a@ + b@,
{
    let mut v = slice_of(a, 0, a.len());
    let mut w = slice_of(b, 0, b.len());
    v.append(&mut w);
    v
}

fn split_reply_exec(t: &[char]) -> (r: (Vec<char>, Vec<char>))
    ensures
        (r.0@, r.1@) == split_reply(t@),
{
    let len = t.len();
    let crlf = chars_of("\r\n\r\n");
    match find_exec(t, crlf.as_slice()) {
        Some(i) => {
            proof {
                reveal_strlit("\r\n\r\n");
                crate::text::lemma_find_from_some(t@, crlf@, 0);
            }
            (slice_of(t, 0, i), slice_of(t, i + 4, len))
        },
        None => {
            let lf = chars_of("\n\n");
            match find_exec(t, lf.as_slice()) {
                Some(i) => {
                    proof {
                        reveal_strlit("\n\n");
                        crate::text::lemma_find_from_some(t@, lf@, 0);
                    }
                    (slice_of(t, 0, i), slice_of(t, i + 2, len))
                },
                None => (Vec::new(), slice_of(t, 0, len)),
            }
        },
    }
}

fn first_line_exec(head: &[char]) -> (r: Vec<char>)
    ensures
        r@ == first_line(head@),
{
    if head.len() == 0 {
        proof {
            reveal_strlit("?");
        }
        return chars_of("?");
    }
    let len = head.len();
    let nl = chars_of("\n");
    let line = match find_exec(head, nl.as_slice()) {
        Some(i) => {
            proof {
                crate::text::lemma_find_from_some(head@, nl@, 0);
            }
            slice_of(head, 0, i)
        },
        None => slice_of(head, 0, len),
    };
    if line.len() > 0 && line[line.len() - 1] == '\r' {
        slice_of(line.as_slice(), 0, line.len() - 1)
    } else {
        line
    }
}

/// Classifies the text of a reply to `GET /api/health` on the API port.
pub fn classify_probe_reply(text: &str) -> (r: ProbeOutcome)
    ensures
        r@ == classified(text@),
{
    let t = chars_of(text);
    if t.len() == 0 {
        return ProbeOutcome::Empty;
    }
    let (head, body) = split_reply_exec(t.as_slice());
    if !contains_str(head.as_slice(), " 200 ") {
        let a = cat(chars_of("non-200 from :7421 (").as_slice(), first_line_exec(head.as_slice()).as_slice());
        let b = cat(a.as_slice(), chars_of(")").as_slice());
        return ProbeOutcome::Foreign(string_of(b.as_slice()));
    }
    let bs = string_of(body.as_slice());
    if is_netrail_body(bs.as_str()) {
        let n = if body.len() > 300 {
            300
        } else {
            body.len()
        };
        let snippet = slice_of(body.as_slice(), 0, n);
        proof {
            if body@.len() <= 300 {
                assert(snippet@ =~= body@);
            }
        }
        ProbeOutcome::NetRail(HealthFingerprint { body_snippet: string_of(snippet.as_slice()) })
    } else {
        ProbeOutcome::Foreign(String::from_str("200 without NetRail fingerprint"))
    }
}

/// The probe attaches only to a reply that is a `200` carrying the NetRail
/// fingerprint, and binds only when nothing answered.
pub proof fn lemma_attach_only_to_netrail(text: Seq<char>)
    ensures
        classified(text) is NetRail ==> contains(split_reply(text).0, " 200 "@) && netrail_body(
            split_reply(text).1,
        ),
        classified(text) is Empty <==> text.len() == 0,
{
}

// ---------------------------------------------------------------------------
// Startup
// ---------------------------------------------------------------------------

/// What the desktop shell does after probing the API port.
pub enum StartupAction {
    /// Start the API server here.
    Bind,
    /// Use the NetRail API that answered (its health snippet, for logs).
    Attach(String),
    /// Stop with this message: something else holds the port.
    Refuse(String),
}

/// Nothing answered: bind. NetRail answered: attach. Anything else: refuse,
/// never hijack the port.
pub fn startup_action(outcome: &ProbeOutcome) -> (r: StartupAction)
    ensures
        match outcome@ {
            OutcomeView::Empty => r is Bind,
            OutcomeView::NetRail(s) => r matches StartupAction::Attach(x) && x@ == s,
            OutcomeView::Foreign(reason) => r matches StartupAction::Refuse(m) && m@
                == "Port 7421 is occupied by a non-NetRail process ("@ + reason
                + "). Refusing to hijack it — stop that process or free the port, then relaunch."@,
        },
{
    match outcome {
        ProbeOutcome::Empty => StartupAction::Bind,
        ProbeOutcome::NetRail(fp) => StartupAction::Attach(fp.body_snippet.clone()),
        ProbeOutcome::Foreign(reason) => {
            let a = cat(
                chars_of("Port 7421 is occupied by a non-NetRail process (").as_slice(),
                chars_of(reason.as_str()).as_slice(),
            );
            let b = cat(
                a.as_slice(),
                chars_of(
                    "). Refusing to hijack it — stop that process or free the port, then relaunch.",
                ).as_slice(),
            );
            StartupAction::Refuse(string_of(b.as_slice()))
        },
    }
}

/// After the server failed to bind, a second probe decides: a NetRail API
/// that came up in between is attached to; anything else stops the process.
pub fn attach_after_bind_failure(reprobe: &ProbeOutcome) -> (r: bool)
    ensures
        r <==> reprobe@ is NetRail,
{
    match reprobe {
        ProbeOutcome::NetRail(_) => true,
        _ => false,
    }
}

/// What a menu item of the desktop shell does.
pub enum MenuAction {
    Show,
    Quit,
    OpenDoc(&'static str),
    Donate,
    Nothing,
}

pub fn menu_action(id: &str) -> (r: MenuAction)
    ensures
        id@ == "show"@ ==> r is Show,
        id@ == "quit"@ ==> r is Quit,
        id@ == "doc-manual"@ ==> (r matches MenuAction::OpenDoc(d) && d@ == "manual"@),
        id@ == "doc-about"@ ==> (r matches MenuAction::OpenDoc(d) && d@ == "about"@),
        id@ == "donate"@ ==> r is Donate,
        id@ != "show"@ && id@ != "quit"@ && id@ != "doc-manual"@ && id@ != "doc-about"@ && id@
            != "donate"@ ==> r is Nothing,
{
    proof {
        reveal_strlit("show");
        reveal_strlit("quit");
        reveal_strlit("doc-manual");
        reveal_strlit("doc-about");
        reveal_strlit("donate");
        assert("show"@[0] != "quit"@[0]);
        assert("show"@.len() == 4 && "quit"@.len() == 4 && "donate"@.len() == 6);
        assert("doc-manual"@.len() == 10 && "doc-about"@.len() == 9);
    }
    let v = chars_of(id);
    let s = v.as_slice();
    if crate::text::eq_str(s, "show") {
        MenuAction::Show
    } else if crate::text::eq_str(s, "quit") {
        MenuAction::Quit
    } else if crate::text::eq_str(s, "doc-manual") {
        MenuAction::OpenDoc("manual")
    } else if crate::text::eq_str(s, "doc-about") {
        MenuAction::OpenDoc("about")
    } else if crate::text::eq_str(s, "donate") {
        MenuAction::Donate
    } else {
        MenuAction::Nothing
    }
}

/// The page script that opens a built-in document.
pub fn doc_view_script(slug: &str) -> (r: String)
    ensures
        r@ == "window.netrailOpenDoc('"@ + slug@ + "')"@,
{
    let a = cat(chars_of("window.netrailOpenDoc('").as_slice(), chars_of(slug).as_slice());
    let b = cat(a.as_slice(), chars_of("')").as_slice());
    string_of(b.as_slice())
}

} // verus!

//! The built-in documents and their image assets.
use crate::text::{chars_of, contains, contains_str, replace, replace_exec, slice_of, string_of};
use vstd::prelude::*;

verus! {

/// The title of a built-in document, by its slug.
pub open spec fn doc_title_of(slug: Seq<char>) -> Option<Seq<char>> {
    if slug == "manual"@ {
        Some("User Manual"@)
    } else if slug == "about"@ {
        Some("About NetRail"@)
    } else {
        None
    }
}

pub fn doc_title(slug: &str) -> (r: Result<&'static str, String>)
    ensures
        match doc_title_of(slug@) {
            Some(t) => r matches Ok(x) && x@ == t,
            None => r matches Err(e) && e@ == "Unknown document."@,
        },
{
    let s = chars_of(slug);
    if crate::text::eq_str(s.as_slice(), "manual") {
        Ok("User Manual")
    } else if crate::text::eq_str(s.as_slice(), "about") {
        Ok("About NetRail")
    } else {
        Err(String::from_str("Unknown document."))
    }
}

/// Asset links of the documents made to point at the served static folder.
pub open spec fn rewritten(markdown: Seq<char>) -> Seq<char> {
    replace(
        replace(markdown, "](docs/assets/"@, "](/static/docs/assets/"@),
        "](docs/assets\\"@,
        "](/static/docs/assets/"@,
    )
}

pub fn rewrite_asset_paths(markdown: &str) -> (r: String)
    ensures
        r@ == rewritten(markdown@),
{
    proof {
        reveal_strlit("](docs/assets/");
        reveal_strlit("](docs/assets\\");
    }
    let m = chars_of(markdown);
    let a = chars_of("](docs/assets/");
    let b = chars_of("](docs/assets\\");
    let to = chars_of("](/static/docs/assets/");
    let x = replace_exec(m.as_slice(), a.as_slice(), to.as_slice());
    let y = replace_exec(x.as_slice(), b.as_slice(), to.as_slice());
    string_of(y.as_slice())
}

/// An asset name is a plain file name: no `..`, no `/`, no `\`.
pub open spec fn plain_file_name(name: Seq<char>) -> bool {
    !contains(name, ".."@) && !name.contains('/') && !name.contains('\\')
}

pub fn is_plain_file_name(name: &str) -> (r: bool)
    ensures
        r == plain_file_name(name@),
{
    let v = chars_of(name);
    let slash: Vec<char> = vec!['/'];
    let back: Vec<char> = vec!['\\'];
    proof {
        assert forall|c: char| v@.contains(c) <==> contains(v@, seq![c]) by {
            if v@.contains(c) {
                let i = choose|i: int| 0 <= i < v@.len() && v@[i] == c;
                assert(v@.subrange(i, i + 1) =~= seq![c]);
                assert(crate::text::occurs_at(v@, seq![c], i));
            }
            if contains(v@, seq![c]) {
                let i = choose|i: int| crate::text::occurs_at(v@, seq![c], i);
                assert(v@.subrange(i, i + 1)[0] == v@[i]);
            }
        }
        assert(slash@ =~= seq!['/']);
        assert(back@ =~= seq!['\\']);
    }
    !contains_str(v.as_slice(), "..") && !crate::text::contains_exec(v.as_slice(), slash.as_slice())
        && !crate::text::contains_exec(v.as_slice(), back.as_slice())
}

/// The media type of a document asset, by the text after its last dot.
pub open spec fn asset_media_type(name: Seq<char>) -> Seq<char> {
    let ext = last_segment(name);
    if ext == "png"@ {
        "image/png"@
    } else if ext == "jpg"@ || ext == "jpeg"@ {
        "image/jpeg"@
    } else if ext == "svg"@ {
        "image/svg+xml"@
    } else if ext == "gif"@ {
        "image/gif"@
    } else if ext == "webp"@ {
        "image/webp"@
    } else {
        "application/octet-stream"@
    }
}

/// The text after the last `.` (all of it without one).
pub open spec fn last_segment(name: Seq<char>) -> Seq<char>
    decreases name.len(),
{
    if name.len() == 0 {
        name
    } else if name.last() == '.' {
        Seq::empty()
    } else {
        last_segment(name.drop_last()).push(name.last())
    }
}

fn last_segment_exec(name: &[char]) -> (r: Vec<char>)
    ensures
        r@ == last_segment(name@),
{
    let mut j: usize = name.len();
    let len = name.len();
    proof {
        lemma_last_segment_suffix(name@, name@.len() as int);
    }
    while j > 0 && name[j - 1] != '.'
        invariant
            j <= len,
            len == name@.len(),
            last_segment(name@) == last_segment(name@.take(j as int)) + name@.subrange(
                j as int,
                len as int,
            ),
        decreases j,
    {
        proof {
            let t = name@.take(j as int);
            assert(t.drop_last() =~= name@.take(j - 1));
            assert(name@.subrange(j - 1, len as int) =~= seq![t.last()] + name@.subrange(
                j as int,
                len as int,
            ));
            assert(last_segment(t) == last_segment(t.drop_last()).push(t.last()));
            assert(last_segment(t.drop_last()).push(t.last()) + name@.subrange(j as int, len as int)
                =~= last_segment(t.drop_last()) + name@.subrange(j - 1, len as int));
        }
        j = j - 1;
    }
    proof {
        let t = name@.take(j as int);
        if j > 0 {
            assert(t.last() == '.');
        }
        assert(last_segment(t) =~= Seq::<char>::empty());
        assert(last_segment(name@) =~= name@.subrange(j as int, len as int));
    }
    slice_of(name, j, len)
}

proof fn lemma_last_segment_suffix(s: Seq<char>, n: int)
    requires
        n == s.len(),
    ensures
        last_segment(s) == last_segment(s.take(n)) + s.subrange(n, n),
{
    assert(s.take(n) =~= s);
    assert(last_segment(s) + s.subrange(n, n) =~= last_segment(s));
}

pub fn media_type(name: &str) -> (r: &'static str)
    ensures
        r@ == asset_media_type(name@),
{
    let ext = last_segment_exec(chars_of(name).as_slice());
    let e = ext.as_slice();
    if crate::text::eq_str(e, "png") {
        "image/png"
    } else if crate::text::eq_str(e, "jpg") || crate::text::eq_str(e, "jpeg") {
        "image/jpeg"
    } else if crate::text::eq_str(e, "svg") {
        "image/svg+xml"
    } else if crate::text::eq_str(e, "gif") {
        "image/gif"
    } else if crate::text::eq_str(e, "webp") {
        "image/webp"
    } else {
        "application/octet-stream"
    }
}

} // verus!

//! Markdown rendering.
//!
//! The HTML comes from the `comrak` crate. The title of a rendered text is
//! read off the HTML: it is the text of the first top-level heading.

use crate::text::{chars_of, find, find_from};
use vstd::prelude::*;

verus! {

/// The HTML that `comrak::markdown_to_html` gives for a Markdown text, with
/// the default options but for `render.unsafe_`, which is `raw_html`: whether
/// raw HTML in the text is let through.
pub uninterp spec fn comrak_html(text: Seq<char>, raw_html: bool) -> Seq<char>;

/// Calls `comrak::markdown_to_html` on `text`.
///
/// Trusted: the result is a function of the text and of the one option
/// that is set here, since the renderer reads nothing else.
#[verifier::external_body]
fn render_html(text: &str, raw_html: bool) -> (html: String)
    ensures
        html@ == comrak_html(text@, raw_html),
{
    let mut options = comrak::Options::default();
    options.render.unsafe_ = raw_html;
    comrak::markdown_to_html(text, &options)
}

/// The HTML of a Markdown text. Raw HTML in the text is let through, since
/// the directives write HTML into the text that they hand on.
pub open spec fn markdown_html(text: Seq<char>) -> Seq<char> {
    comrak_html(text, true)
}

/// `s` without its tags: without what stands between a `<` and the next `>`,
/// both included. `inside` says whether `s` begins inside a tag.
pub open spec fn strip_tags(s: Seq<char>, inside: bool) -> Seq<char>
    decreases s.len(),
{
    if s.len() == 0 {
        Seq::empty()
    } else if inside {
        strip_tags(s.drop_first(), s[0] != '>')
    } else if s[0] == '<' {
        strip_tags(s.drop_first(), true)
    } else {
        seq![s[0]] + strip_tags(s.drop_first(), false)
    }
}

/// The title of a rendered page: the text of the first `<h1>` element of
/// `html`, without the tags inside it. Empty where `html` has no such
/// element.
pub open spec fn title_of(html: Seq<char>) -> Seq<char> {
    match find_from(html, "<h1>"@, 0) {
        None => Seq::empty(),
        Some(open) => match find_from(html, "</h1>"@, open + 4) {
            None => Seq::empty(),
            Some(close) => strip_tags(html.subrange(open + 4, close), false),
        },
    }
}

/// The characters `html[from..to]` without their tags.
fn without_tags(html: &[char], from: usize, to: usize) -> (out: String)
    requires
        from <= to <= html.len(),
    ensures
        out@ == strip_tags(html@.subrange(from as int, to as int), false),
{
    let ghost all = html@.subrange(from as int, to as int);
    let mut out = String::new();
    let mut inside = false;
    let mut i: usize = from;
    assert(all.skip(0) =~= all);
    assert(Seq::<char>::empty() + strip_tags(all, false) =~= strip_tags(all, false));
    while i < to
        invariant
            from <= i <= to <= html.len(),
            all == html@.subrange(from as int, to as int),
            out@ + strip_tags(all.skip(i - from), inside) == strip_tags(all, false),
        decreases to - i,
    {
        let c = html[i];
        proof {
            let rest = all.skip(i - from);
            assert(rest[0] == c);
            assert(rest.drop_first() =~= all.skip(i + 1 - from));
        }
        if inside {
            inside = c != '>';
        } else if c == '<' {
            inside = true;
        } else {
            let ghost before = out@;
            out.push(c);
            assert(before.push(c) + strip_tags(all.skip(i + 1 - from), false) =~= before + (seq![c]
                + strip_tags(all.skip(i + 1 - from), false)));
        }
        i = i + 1;
    }
    assert(out@ + Seq::<char>::empty() =~= out@);
    out
}

/// The title of a rendered page.
pub fn extract_title(html: &str) -> (title: String)
    ensures
        title@ == title_of(html@),
{
    let text = chars_of(html);
    let open_tag = chars_of("<h1>");
    let close_tag = chars_of("</h1>");
    proof {
        reveal_strlit("<h1>");
        reveal_strlit("</h1>");
    }
    match find(text.as_slice(), open_tag.as_slice(), 0) {
        None => String::new(),
        Some(open) => match find(text.as_slice(), close_tag.as_slice(), open + 4) {
            None => String::new(),
            Some(close) => without_tags(text.as_slice(), open + 4, close),
        },
    }
}

/// A Markdown text rendered to HTML, and the title found in it.
pub fn render(text: &str) -> (r: (String, String))
    ensures
        r.0@ == markdown_html(text@),
        r.1@ == title_of(markdown_html(text@)),
{
    let html = render_html(text, true);
    let title = extract_title(html.as_str());
    (html, title)
}

} // verus!

//! Rendering of a body to markup.
//!
//! The renderer is pulldown-cmark, with one change: an inline image becomes
//! an `<img>` tag with empty `width` and `height` attributes, written by
//! `image_tag`, and its description follows the tag as text.
use vstd::prelude::*;
use vstd::string::*;
use pulldown_cmark::{html, Event, LinkType, Options, Parser, Tag};
use crate::text::chars_of;

verus! {

/// The entity that stands for `"` in an attribute value.
pub open spec fn quote_entity() -> Seq<char> {
    seq!['&', 'q', 'u', 'o', 't', ';']
}

/// `s` with each `"` replaced by `&quot;`.
pub open spec fn escape_quotes(s: Seq<char>) -> Seq<char>
    decreases s.len(),
{
    if s.len() == 0 {
        Seq::empty()
    } else if s.last() == '"' {
        escape_quotes(s.drop_last()) + quote_entity()
    } else {
        escape_quotes(s.drop_last()).push(s.last())
    }
}

/// The tag of an inline image.
pub open spec fn image_tag_of(src: Seq<char>, title: Seq<char>) -> Seq<char> {
    "<img src=\""@ + escape_quotes(src) + "\" title=\""@ + escape_quotes(title)
        + "\" width=\"\" height=\"\" />"@
}

/// Appends `text`, with each `"` replaced by `&quot;`, to `out`.
fn push_escaped(out: &mut String, text: &str)
    ensures
        final(out)@ == old(out)@ + escape_quotes(text@),
{
    let chars = chars_of(text);
    let n = chars.len();
    let mut start: usize = 0;
    let mut i: usize = 0;
    proof {
        assert(chars@.take(0) =~= Seq::<char>::empty());
        assert(out@ + chars@.subrange(0, 0) =~= old(out)@ + escape_quotes(chars@.take(0)));
    }
    while i < n
        invariant
            start <= i <= n,
            n == chars.len(),
            chars@ == text@,
            out@ + chars@.subrange(start as int, i as int) == old(out)@ + escape_quotes(
                chars@.take(i as int),
            ),
        decreases n - i,
    {
        proof {
            assert(chars@.take(i + 1).drop_last() =~= chars@.take(i as int));
            assert(chars@.take(i + 1).last() == chars@[i as int]);
        }
        if chars[i] == '"' {
            out.append(text.substring_char(start, i));
            proof {
                reveal_strlit("&quot;");
                assert("&quot;"@ =~= quote_entity());
            }
            out.append("&quot;");
            start = i + 1;
            proof {
                assert(chars@.subrange(start as int, i + 1) =~= Seq::<char>::empty());
                assert(out@ + chars@.subrange(start as int, i + 1) =~= out@);
            }
        } else {
            proof {
                assert(chars@.subrange(start as int, i + 1) =~= chars@.subrange(
                    start as int,
                    i as int,
                ).push(chars@[i as int]));
                assert(out@ + chars@.subrange(start as int, i + 1) =~= (out@ + chars@.subrange(
                    start as int,
                    i as int,
                )).push(chars@[i as int]));
            }
        }
        i = i + 1;
    }
    out.append(text.substring_char(start, n));
    proof {
        assert(chars@.take(n as int) =~= chars@);
    }
}

/// The `<img>` tag that an inline image with the address `src` and the title
/// `title` is rendered as. Quotes in either are written as `&quot;`.
pub fn image_tag(src: &str, title: &str) -> (tag: String)
    ensures
        tag@ == image_tag_of(src@, title@),
{
    let mut tag = "<img src=\"".to_owned();
    push_escaped(&mut tag, src);
    tag.append("\" title=\"");
    push_escaped(&mut tag, title);
    tag.append("\" width=\"\" height=\"\" />");
    tag
}

/// The markup that pulldown-cmark renders `markdown` to, with strikethrough,
/// footnotes and tables enabled, where the start of each inline image has
/// been replaced by the tag that `image_tag` writes for it.
pub uninterp spec fn rendered(markdown: Seq<char>) -> Seq<char>;

/// Parses `markdown` with `pulldown_cmark::Parser::new_ext` and renders the
/// events with `pulldown_cmark::html::push_html`; on the way, the start of
/// each inline image is replaced by the tag that `image_tag` writes.
#[verifier::external_body]
fn render(markdown: &str) -> (html: String)
    ensures
        html@ == rendered(markdown@),
{
    let mut options = Options::empty();
    options.insert(Options::ENABLE_STRIKETHROUGH);
    options.insert(Options::ENABLE_FOOTNOTES);
    options.insert(Options::ENABLE_TABLES);
    let events = Parser::new_ext(markdown, options).map(
        |event| match event {
            Event::Start(Tag::Image(LinkType::Inline, src, title)) => Event::Html(
                image_tag(&src, &title).into(),
            ),
            other => other,
        },
    );
    let mut html = String::new();
    html::push_html(&mut html, events);
    html
}

/// Renders a body to markup.
pub fn markdown_to_html(markdown: &str) -> (html: String)
    ensures
        html@ == rendered(markdown@),
{
    render(markdown)
}

} // verus!

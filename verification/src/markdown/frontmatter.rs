//! Front-matter: an optional header block at the start of a document.
//!
//! A document has a header where it starts with `---` and holds a second
//! `---` after that. The header is the text between the two; the body is what
//! follows the second, without the line breaks at its start. Any other
//! document has no header and is all body.
use vstd::prelude::*;
use vstd::string::*;
use crate::text::{chars_of, is_line_break, skip_line_breaks, trim_start};
use crate::timestamp::Timestamp;

verus! {

/// The header could not be parsed.
#[derive(Debug, Clone, PartialEq, Eq)]
pub enum Error {
    /// The header is not the structured data that is expected, with the
    /// parser's message.
    YamlParseError(String),
}

/// The fields of a header.
#[derive(Debug, Clone, PartialEq, Eq)]
pub struct Frontmatter {
    pub title: Option<String>,
    pub published: Option<Timestamp>,
    /// An absolute locator under which the document was once published.
    pub old_url: Option<String>,
}

impl Frontmatter {
    /// The header of a document that has none: every field absent.
    pub open spec fn empty() -> Frontmatter {
        Frontmatter { title: None, published: None, old_url: None }
    }
}

impl Default for Frontmatter {
    fn default() -> (res: Frontmatter)
        ensures
            res == Frontmatter::empty(),
    {
        Frontmatter { title: None, published: None, old_url: None }
    }
}

/// Whether `---` stands at index `i` of `s`.
pub open spec fn delimiter_at(s: Seq<char>, i: int) -> bool {
    0 <= i && i + 3 <= s.len() && s[i] == '-' && s[i + 1] == '-' && s[i + 2] == '-'
}

/// The index of the first `---` at or after `from`, or `s.len()` if there is none.
pub open spec fn find_delimiter(s: Seq<char>, from: int) -> int
    decreases s.len() - from,
{
    if from < 0 || from + 3 > s.len() {
        s.len() as int
    } else if delimiter_at(s, from) {
        from
    } else {
        find_delimiter(s, from + 1)
    }
}

/// Whether `s` splits at `---` into exactly three parts of which the first is
/// empty: it starts with the delimiter and holds it once more after that.
pub open spec fn has_header(s: Seq<char>) -> bool {
    delimiter_at(s, 0) && find_delimiter(s, 3) < s.len()
}

/// The text between the two delimiters of a document with a header.
pub open spec fn header_of(s: Seq<char>) -> Seq<char> {
    s.subrange(3, find_delimiter(s, 3))
}

/// The body of a document: what follows the header, without the line breaks
/// at its start, or the whole document where there is no header.
pub open spec fn body_of(s: Seq<char>) -> Seq<char> {
    if has_header(s) {
        trim_start(s.subrange(find_delimiter(s, 3) + 3, s.len() as int), |c: char| is_line_break(c))
    } else {
        s
    }
}

/// A position before which, from `from` on, no delimiter starts, and which
/// holds one or is too close to the end for one, is where the search ends.
proof fn lemma_find_delimiter_is(s: Seq<char>, from: int, k: int)
    requires
        0 <= from <= k,
        forall|j: int| from <= j < k ==> !delimiter_at(s, j),
        delimiter_at(s, k) || k + 3 > s.len(),
    ensures
        find_delimiter(s, from) == (if delimiter_at(s, k) { k } else { s.len() as int }),
    decreases k - from,
{
    if from + 3 > s.len() {
    } else if from < k {
        lemma_find_delimiter_is(s, from + 1, k);
    }
}

/// A document that does not start with the delimiter has no header, and is
/// all body.
pub proof fn lemma_no_delimiter_no_header(s: Seq<char>)
    requires
        !delimiter_at(s, 0),
    ensures
        !has_header(s),
        body_of(s) == s,
{
}

/// A document that holds no delimiter after the one at its start does not
/// split into three parts: it has no header, and is all body.
pub proof fn lemma_one_delimiter_no_header(s: Seq<char>)
    requires
        forall|j: int| 3 <= j ==> !delimiter_at(s, j),
    ensures
        !has_header(s),
        body_of(s) == s,
{
    if s.len() >= 3 {
        lemma_find_delimiter_is(s, 3, s.len() as int);
    }
}

/// Where the second delimiter starts, if the document has a header.
fn second_delimiter(chars: &Vec<char>) -> (res: Option<usize>)
    ensures
        res is Some <==> has_header(chars@),
        res matches Some(d) ==> d == find_delimiter(chars@, 3) && 3 <= d && d + 3 <= chars.len(),
{
    let n = chars.len();
    if n < 6 || chars[0] != '-' || chars[1] != '-' || chars[2] != '-' {
        proof {
            if delimiter_at(chars@, 0) {
                // too short to hold a second delimiter
                assert(n < 6);
                lemma_find_delimiter_is(chars@, 3, 3);
            }
        }
        return None;
    }
    let mut k: usize = 3;
    while k <= n - 3 && !(chars[k] == '-' && chars[k + 1] == '-' && chars[k + 2] == '-')
        invariant
            3 <= k <= n,
            n == chars.len(),
            6 <= n,
            forall|j: int| 3 <= j < k ==> !delimiter_at(chars@, j),
        decreases n - k,
    {
        k = k + 1;
    }
    proof {
        lemma_find_delimiter_is(chars@, 3, k as int);
    }
    if k <= n - 3 {
        Some(k)
    } else {
        None
    }
}

/// The header block of a document, as it is handed to the parser, or `None`
/// where the document has no header.
pub fn header_block(markdown: &str) -> (res: Option<&str>)
    ensures
        res is Some <==> has_header(markdown@),
        res matches Some(header) ==> header@ == header_of(markdown@),
{
    let chars = chars_of(markdown);
    match second_delimiter(&chars) {
        Some(d) => Some(markdown.substring_char(3, d)),
        None => None,
    }
}

/// Splits a document into its header and its body.
///
/// `parsed` is what the parser made of `header_block(markdown)`; it counts
/// only where the document has a header. A document without one gives the
/// empty header and itself as the body, whatever `parsed` holds. With a
/// header, a parse failure is handed on, and a parsed header comes back with
/// the body that follows the header block.
pub fn get_frontmatter(markdown: &str, parsed: Result<Frontmatter, Error>) -> (res: Result<
    (Frontmatter, String),
    Error,
>)
    ensures
        !has_header(markdown@) ==> (res matches Ok(pair) && pair.0 == Frontmatter::empty()
            && pair.1@ == markdown@),
        has_header(markdown@) ==> (match parsed {
            Ok(header) => res matches Ok(pair) && pair.0 == header && pair.1@ == body_of(
                markdown@,
            ),
            Err(e) => res == Err::<(Frontmatter, String), Error>(e),
        }),
{
    let chars = chars_of(markdown);
    match second_delimiter(&chars) {
        Some(d) => {
            match parsed {
                Ok(header) => {
                    let n = chars.len();
                    let start = skip_line_breaks(&chars, d + 3, n);
                    let body = markdown.substring_char(start, n);
                    Ok((header, body.to_owned()))
                },
                Err(e) => Err(e),
            }
        },
        None => Ok((Frontmatter::default(), markdown.to_owned())),
    }
}

} // verus!

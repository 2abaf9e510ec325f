//! Compilation of one document: header, title, rendering, timestamps, slug.
//!
//! Reading the file, parsing the header and asking the version history are
//! done by the caller; what they gave is handed in. The stages run in a fixed
//! order, and the first that fails gives the error.
use vstd::prelude::*;
use vstd::string::*;
use crate::git;
use crate::markdown::frontmatter;
use crate::markdown::frontmatter::{body_of, get_frontmatter, has_header, Frontmatter};
use crate::markdown::metadata::{first_title_rest, rest_of, title_of};
use crate::markdown::to_html::{markdown_to_html, rendered};
use crate::paths::{file_name, file_name_of, names_file};
use crate::text::chars_of;
use crate::timestamp::Timestamp;

verus! {

/// Why a document could not be compiled.
#[derive(Debug, Clone, PartialEq, Eq)]
pub enum Error {
    /// The path of the document does not end in a file name.
    FileNameError,
    /// The version history could not be asked.
    GitError(git::Error),
    /// The header is malformed.
    FrontmatterParseError(frontmatter::Error),
    /// The document could not be read; with the message of the failure.
    IOError(String),
}

/// A document as it was read, at the start of its compilation.
#[derive(Debug, Clone, PartialEq, Eq)]
pub struct SourceDocument {
    /// The absolute path of the file.
    pub path: String,
    pub content: String,
    pub modified_on_disk: Timestamp,
}

/// A compiled document.
#[derive(Debug, Clone, PartialEq, Eq)]
pub struct CompiledMarkdown {
    pub slug: String,
    pub title: String,
    pub published: Timestamp,
    pub modified: Timestamp,
    pub modified_on_disk: Timestamp,
    pub local_path: String,
    pub old_url: Option<String>,
    pub html: String,
}

/// Whether `name` ends in `.md`.
pub open spec fn ends_with_md(name: Seq<char>) -> bool {
    name.len() >= 3 && name[name.len() - 3] == '.' && name[name.len() - 2] == 'm' && name[name.len()
        - 1] == 'd'
}

/// The slug of a file name: the name without `.md` at its end, as often as it
/// stands there.
pub open spec fn slug_of(name: Seq<char>) -> Seq<char>
    decreases name.len(),
{
    if ends_with_md(name) {
        slug_of(name.subrange(0, name.len() - 3))
    } else {
        name
    }
}

/// The header that counts for a document: the parsed one where the document
/// has a header block, else the empty one.
pub open spec fn header_in_force(text: Seq<char>, parsed: Frontmatter) -> Frontmatter {
    if has_header(text) {
        parsed
    } else {
        Frontmatter::empty()
    }
}

/// The title of a document: the one its header gives, else the one its body
/// gives.
pub open spec fn resolved_title(header: Frontmatter, body: Seq<char>) -> Seq<char> {
    match header.title {
        Some(title) => title@,
        None => title_of(body),
    }
}

/// The text that is rendered: the body, without its first line where that
/// line gave the title.
pub open spec fn resolved_body(header: Frontmatter, body: Seq<char>) -> Seq<char> {
    match header.title {
        Some(_) => body,
        None => rest_of(body),
    }
}

/// Whether `res` is what compiling `source` gives, where `parsed` is what the
/// parser made of the header block, and `created` and `modified` are what
/// the version history said of the first and of the last commit of the file.
///
/// The stages, in their order, and the error of each:
///  1. the header: a document with a header block whose header is malformed
///     fails with `FrontmatterParseError`;
///  2. the publication date: the one of the header, else `created`, whose
///     failure is a `GitError`;
///  3. the date of the last change: `modified`, whose failure is a `GitError`;
///  4. the slug: a path that ends in no file name fails with `FileNameError`.
pub open spec fn compiled_as(
    source: SourceDocument,
    parsed: Result<Frontmatter, frontmatter::Error>,
    created: Result<Timestamp, git::Error>,
    modified: Result<Timestamp, git::Error>,
    res: Result<CompiledMarkdown, Error>,
) -> bool {
    let text = source.content@;
    if has_header(text) && parsed is Err {
        res == Err::<CompiledMarkdown, Error>(Error::FrontmatterParseError(parsed->Err_0))
    } else {
        let header = header_in_force(text, parsed->Ok_0);
        let body = body_of(text);
        if header.published is None && created is Err {
            res == Err::<CompiledMarkdown, Error>(Error::GitError(created->Err_0))
        } else if modified is Err {
            res == Err::<CompiledMarkdown, Error>(Error::GitError(modified->Err_0))
        } else if !names_file(source.path@) {
            res == Err::<CompiledMarkdown, Error>(Error::FileNameError)
        } else {
            &&& res matches Ok(doc)
            &&& doc.slug@ == slug_of(file_name_of(source.path@))
            &&& doc.title@ == resolved_title(header, body)
            &&& doc.html@ == rendered(resolved_body(header, body))
            &&& doc.published == (match header.published {
                Some(published) => published,
                None => created->Ok_0,
            })
            &&& doc.modified == modified->Ok_0
            &&& doc.modified_on_disk == source.modified_on_disk
            &&& doc.local_path@ == source.path@
            &&& doc.old_url == header.old_url
        }
    }
}

/// The slug of a file name.
fn slug(name: &str) -> (res: String)
    ensures
        res@ == slug_of(name@),
{
    let chars = chars_of(name);
    let mut k: usize = chars.len();
    proof {
        assert(chars@.take(k as int) =~= chars@);
    }
    while k >= 3 && chars[k - 3] == '.' && chars[k - 2] == 'm' && chars[k - 1] == 'd'
        invariant
            k <= chars.len(),
            chars@ == name@,
            slug_of(chars@) == slug_of(chars@.take(k as int)),
        decreases k,
    {
        proof {
            let t = chars@.take(k as int);
            assert(ends_with_md(t));
            assert(t.subrange(0, t.len() - 3) =~= chars@.take(k - 3));
        }
        k = k - 3;
    }
    proof {
        let t = chars@.take(k as int);
        assert(!ends_with_md(t));
    }
    name.substring_char(0, k).to_owned()
}

/// Compiles one document.
///
/// `parsed` is what the parser made of `header_block(source.content)`, and
/// counts only where the document has a header block. `created` counts only
/// where the header gives no publication date.
pub fn compile_markdown_file(
    source: &SourceDocument,
    parsed: Result<Frontmatter, frontmatter::Error>,
    created: Result<Timestamp, git::Error>,
    modified: Result<Timestamp, git::Error>,
) -> (res: Result<CompiledMarkdown, Error>)
    ensures
        compiled_as(*source, parsed, created, modified, res),
{
    let (header, markdown_all) = match get_frontmatter(source.content.as_str(), parsed) {
        Ok(pair) => pair,
        Err(e) => {
            return Err(Error::FrontmatterParseError(e));
        },
    };
    let Frontmatter { title, published, old_url } = header;
    let (title, markdown): (String, String) = match title {
        None => {
            let (title, rest) = first_title_rest(markdown_all.as_str());
            (title.to_owned(), rest.to_owned())
        },
        Some(title) => (title, markdown_all),
    };
    let html = markdown_to_html(markdown.as_str());
    let published = match published {
        Some(published) => published,
        None => match created {
            Ok(at) => at,
            Err(e) => {
                return Err(Error::GitError(e));
            },
        },
    };
    let modified = match modified {
        Ok(at) => at,
        Err(e) => {
            return Err(Error::GitError(e));
        },
    };
    let slug = match file_name(source.path.as_str()) {
        Some(name) => slug(name),
        None => {
            return Err(Error::FileNameError);
        },
    };
    Ok(
        CompiledMarkdown {
            slug,
            title,
            old_url,
            modified,
            modified_on_disk: source.modified_on_disk,
            local_path: source.path.clone(),
            published,
            html,
        },
    )
}

/// Compiling is a function of what is handed in: two compilations of the same
/// document, with the same answers of the parser and of the version history,
/// give the same document, field by field, or the same error.
pub proof fn lemma_compilation_is_repeatable(
    source: SourceDocument,
    parsed: Result<Frontmatter, frontmatter::Error>,
    created: Result<Timestamp, git::Error>,
    modified: Result<Timestamp, git::Error>,
    first: Result<CompiledMarkdown, Error>,
    second: Result<CompiledMarkdown, Error>,
)
    requires
        compiled_as(source, parsed, created, modified, first),
        compiled_as(source, parsed, created, modified, second),
    ensures
        match (first, second) {
            (Ok(a), Ok(b)) => {
                &&& a.slug@ == b.slug@
                &&& a.title@ == b.title@
                &&& a.html@ == b.html@
                &&& a.published == b.published
                &&& a.modified == b.modified
                &&& a.modified_on_disk == b.modified_on_disk
                &&& a.local_path@ == b.local_path@
                &&& a.old_url == b.old_url
            },
            (Err(a), Err(b)) => a == b,
            _ => false,
        },
{
}

} // verus!

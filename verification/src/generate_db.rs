//! From a compiled document to a record for the cache, and from a scan of the
//! source directories to the changes that a build starts from.
use vstd::prelude::*;
use vstd::string::*;
use crate::db;
use crate::db::uuid::UUID;
use crate::changes::FilesChange;
use crate::markdown::compile;
use crate::markdown::compile::CompiledMarkdown;
use crate::normalize;
use crate::paths::{directory, directory_of};
use crate::timestamp::Timestamp;
use crate::urls;
use crate::urls::{
    all_external, candidate_path, convert_html_urls, convert_html_urls_with, converted,
    is_external, lemma_failure_is_reported, lemma_missing_target_is_named, lookup_at,
    reference_spans, resolvable, value_at, ConvertedUrls, Reference,
};

verus! {

/// Why a document did not make it into the cache, or a build did not start.
#[derive(Debug, Clone, PartialEq, Eq)]
pub enum Error {
    /// The pattern for the scan of a source directory is invalid; with the
    /// message of the failure.
    PatternError(String),
    /// The store refused the record.
    DbError(db::Error),
    CompileMarkdownError(compile::Error),
    UrlConvertError(urls::Error),
    /// Another document is served under the server path, which is given.
    ServerPathTaken(String),
}

/// A compiled document on its way into the cache: a record that has no
/// source path yet, and whose identifier is a proposal.
#[derive(Debug, Clone, PartialEq, Eq)]
pub struct Draft {
    /// The identifier that the document gets if the cache does not hold the
    /// document yet. A document that the cache holds keeps the one it has.
    pub id: UUID,
    pub published: Timestamp,
    pub modified: Timestamp,
    pub modified_on_disk: Timestamp,
    pub server_path: String,
    pub title: String,
    pub html: String,
}

/// The server path of the article with the slug `slug`.
pub open spec fn server_path_of(slug: Seq<char>) -> Seq<char> {
    "/articles/"@ + slug
}

/// Whether `res` is what a compilation `compiled` becomes on its way into the
/// cache, where `lookups` is what the file system said of the references of
/// the document, and `id` is the identifier proposed for it.
///
/// A failed compilation is handed on. The references of a compiled document
/// are rewritten, relative ones from the directory of the document or from
/// `root` on; a reference that does not resolve fails the document. What is
/// left is served under `/articles/` and the slug.
pub open spec fn drafted_as(
    compiled: Result<CompiledMarkdown, compile::Error>,
    root: Seq<char>,
    lookups: Seq<Result<String, normalize::Error>>,
    id: Seq<char>,
    res: Result<(Draft, Vec<Reference>), Error>,
) -> bool {
    match compiled {
        Err(e) => res == Err::<(Draft, Vec<Reference>), Error>(Error::CompileMarkdownError(e)),
        Ok(doc) => match res {
            Ok((draft, urls)) => {
                &&& converted(
                    doc.html@,
                    directory_of(doc.local_path@),
                    root,
                    lookups,
                    Ok(ConvertedUrls { html: draft.html, urls }),
                )
                &&& draft.id@ == id
                &&& draft.title@ == doc.title@
                &&& draft.server_path@ == server_path_of(doc.slug@)
                &&& draft.published == doc.published
                &&& draft.modified == doc.modified
                &&& draft.modified_on_disk == doc.modified_on_disk
            },
            Err(Error::UrlConvertError(e)) => converted(
                doc.html@,
                directory_of(doc.local_path@),
                root,
                lookups,
                Err(e),
            ),
            Err(_) => false,
        },
    }
}

/// A reference that does not resolve fails the whole document: there is no
/// draft. Where it is a relative reference at whose path nothing exists, and
/// every reference after it resolves, the error is `FileNotFound` and names
/// the path that the reference stands for.
pub proof fn lemma_unresolved_reference_fails_the_document(
    doc: CompiledMarkdown,
    root: Seq<char>,
    lookups: Seq<Result<String, normalize::Error>>,
    id: Seq<char>,
    res: Result<(Draft, Vec<Reference>), Error>,
    i: int,
)
    requires
        drafted_as(Ok(doc), root, lookups, id, res),
        0 <= i < reference_spans(doc.html@).len(),
        !resolvable(value_at(doc.html@, reference_spans(doc.html@)[i]), lookup_at(lookups, i)),
    ensures
        res matches Err(Error::UrlConvertError(_)),
        (!is_external(value_at(doc.html@, reference_spans(doc.html@)[i])) && lookup_at(lookups, i)
            == Err::<String, normalize::Error>(normalize::Error::NotFound) && forall|j: int|
            i < j < reference_spans(doc.html@).len() ==> resolvable(
                value_at(doc.html@, #[trigger] reference_spans(doc.html@)[j]),
                lookup_at(lookups, j),
            )) ==> (res matches Err(Error::UrlConvertError(urls::Error::FileNotFound(path)))
            && path@ == candidate_path(
            value_at(doc.html@, reference_spans(doc.html@)[i]),
            directory_of(doc.local_path@),
            root,
        )),
{
    let current = directory_of(doc.local_path@);
    match res {
        Ok((draft, urls)) => {
            lemma_failure_is_reported(
                doc.html@,
                current,
                root,
                lookups,
                Ok(ConvertedUrls { html: draft.html, urls }),
                i,
            );
        },
        Err(Error::UrlConvertError(e)) => {
            if !is_external(value_at(doc.html@, reference_spans(doc.html@)[i])) && lookup_at(
                lookups,
                i,
            ) == Err::<String, normalize::Error>(normalize::Error::NotFound) && forall|j: int|
                i < j < reference_spans(doc.html@).len() ==> resolvable(
                    value_at(doc.html@, #[trigger] reference_spans(doc.html@)[j]),
                    lookup_at(lookups, j),
                ) {
                lemma_missing_target_is_named(doc.html@, current, root, lookups, Err(e), i);
            }
        },
        Err(_) => {},
    }
}

/// Puts a draft together from a compiled document and its rewritten markup.
fn draft_of(doc: CompiledMarkdown, rewritten: Result<ConvertedUrls, urls::Error>, id: UUID) -> (res:
    Result<(Draft, Vec<Reference>), Error>)
    ensures
        match rewritten {
            Ok(done) => res matches Ok((draft, urls)) && {
                &&& draft.html == done.html
                &&& urls == done.urls
                &&& draft.id == id
                &&& draft.title@ == doc.title@
                &&& draft.server_path@ == server_path_of(doc.slug@)
                &&& draft.published == doc.published
                &&& draft.modified == doc.modified
                &&& draft.modified_on_disk == doc.modified_on_disk
            },
            Err(e) => res == Err::<(Draft, Vec<Reference>), Error>(Error::UrlConvertError(e)),
        },
{
    match rewritten {
        Err(e) => Err(Error::UrlConvertError(e)),
        Ok(done) => {
            let mut server_path = "/articles/".to_owned();
            server_path.append(doc.slug.as_str());
            Ok(
                (
                    Draft {
                        id,
                        published: doc.published,
                        modified: doc.modified,
                        modified_on_disk: doc.modified_on_disk,
                        server_path,
                        title: doc.title,
                        html: done.html,
                    },
                    done.urls,
                ),
            )
        },
    }
}

/// Makes the draft of a compiled document, given what the file system said
/// of the paths of its references (see `urls::convert_html_urls_with`) and
/// the identifier to propose for it.
pub fn generate_article_db_with(
    compiled: Result<CompiledMarkdown, compile::Error>,
    root_path: &str,
    lookups: &Vec<Result<String, normalize::Error>>,
    id: UUID,
) -> (res: Result<(Draft, Vec<Reference>), Error>)
    ensures
        drafted_as(compiled, root_path@, lookups@, id@, res),
{
    match compiled {
        Err(e) => Err(Error::CompileMarkdownError(e)),
        Ok(doc) => {
            let rewritten = convert_html_urls_with(
                doc.html.as_str(),
                directory(doc.local_path.as_str()),
                root_path,
                lookups,
            );
            draft_of(doc, rewritten, id)
        },
    }
}

/// Makes the draft of a compiled document; the relative references of the
/// document are looked up on disk, and the identifier that is proposed for
/// it is a fresh random one.
pub fn generate_article_db(
    compiled: Result<CompiledMarkdown, compile::Error>,
    root_path: &str,
) -> (res: Result<(Draft, Vec<Reference>), Error>)
    ensures
        exists|lookups: Seq<Result<String, normalize::Error>>, id: Seq<char>| #[trigger]
            drafted_as(compiled, root_path@, lookups, id, res),
        (compiled matches Ok(doc) ==> all_external(doc.html@)) ==> exists|id: Seq<char>| #[trigger]
            drafted_as(compiled, root_path@, Seq::empty(), id, res),
        res matches Ok(pair) ==> pair.0.id@.len() == 36,
{
    let id = UUID::generate();
    match compiled {
        Err(e) => {
            let res = Err(Error::CompileMarkdownError(e));
            proof {
                assert(drafted_as(compiled, root_path@, Seq::empty(), id@, res));
            }
            res
        },
        Ok(doc) => {
            let rewritten = convert_html_urls(
                doc.html.as_str(),
                directory(doc.local_path.as_str()),
                root_path,
            );
            let ghost lookups = choose|lookups: Seq<Result<String, normalize::Error>>| #[trigger]
                converted(doc.html@, directory_of(doc.local_path@), root_path@, lookups, rewritten);
            let res = draft_of(doc, rewritten, id);
            proof {
                assert(drafted_as(compiled, root_path@, lookups, id@, res));
                if all_external(doc.html@) {
                    assert(drafted_as(compiled, root_path@, Seq::empty(), id@, res));
                }
            }
            res
        },
    }
}

/// The pattern that finds the documents below the directory `dir`.
pub fn scan_pattern(dir: &str) -> (pattern: String)
    ensures
        pattern@ == dir@ + "/**/*.md"@,
{
    let mut pattern = dir.to_owned();
    pattern.append("/**/*.md");
    pattern
}

/// The changes that the first build starts from: every article and every
/// page that a scan found counts as changed.
pub fn sync(article_files: Vec<String>, page_files: Vec<String>) -> (changes: Vec<FilesChange>)
    ensures
        changes@.len() == 2,
        changes@[0] == (FilesChange::ArticlesChanged { files: article_files }),
        changes@[1] == (FilesChange::PagesChanged { files: page_files }),
{
    let mut changes: Vec<FilesChange> = Vec::new();
    changes.push(FilesChange::ArticlesChanged { files: article_files });
    changes.push(FilesChange::PagesChanged { files: page_files });
    changes
}

} // verus!

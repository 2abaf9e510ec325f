//! The records of the cache.
use vstd::prelude::*;
use crate::db::uuid::UUID;
use crate::timestamp::Timestamp;

verus! {

/// A compiled document as the cache holds it.
#[derive(Debug, Clone, PartialEq, Eq)]
pub struct Article {
    pub id: UUID,
    pub published: Timestamp,
    pub modified: Timestamp,
    pub modified_on_disk: Timestamp,
    /// The path of the source file.
    pub local_path: String,
    /// The path under which the document is served.
    pub server_path: String,
    pub title: String,
    /// The rendered body, with its references rewritten.
    pub html: String,
}

/// What an article holds, as mathematical values.
pub struct ArticleView {
    pub id: Seq<char>,
    pub published: Timestamp,
    pub modified: Timestamp,
    pub modified_on_disk: Timestamp,
    pub local_path: Seq<char>,
    pub server_path: Seq<char>,
    pub title: Seq<char>,
    pub html: Seq<char>,
}

impl View for Article {
    type V = ArticleView;

    open spec fn view(&self) -> ArticleView {
        ArticleView {
            id: self.id@,
            published: self.published,
            modified: self.modified,
            modified_on_disk: self.modified_on_disk,
            local_path: self.local_path@,
            server_path: self.server_path@,
            title: self.title@,
            html: self.html@,
        }
    }
}

impl Article {
    /// A copy of the record.
    pub fn duplicate(&self) -> (res: Article)
        ensures
            res@ == self@,
    {
        Article {
            id: self.id.duplicate(),
            published: self.published,
            modified: self.modified,
            modified_on_disk: self.modified_on_disk,
            local_path: self.local_path.clone(),
            server_path: self.server_path.clone(),
            title: self.title.clone(),
            html: self.html.clone(),
        }
    }
}

/// An image that a document shows.
#[derive(Debug, Clone, PartialEq, Eq)]
pub struct Image {
    pub id: UUID,
    pub modified_on_disk: Timestamp,
    pub width: i32,
    pub height: i32,
    pub local_path: String,
    pub server_path: String,
}

/// A locator that a document refers to.
#[derive(Debug, Clone, PartialEq, Eq)]
pub struct Url {
    pub id: UUID,
    pub url: String,
}

} // verus!

//! Incremental build pipeline of a static-content publishing tool.
//!
//! Documents are split into an optional front-matter header and a body, given
//! a title, rendered, and have the references in their markup rewritten to
//! absolute locators; an orchestrator runs this per document in rounds and
//! reconciles the results into a cache.
pub mod changes;
pub mod db;
pub mod generate;
pub mod generate_db;
pub mod git;
pub mod markdown;
pub mod normalize;
pub mod paths;
pub mod raw;
pub mod reconcile;
pub mod text;
pub mod timestamp;
pub mod urls;

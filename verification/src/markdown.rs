//! Per-document compilation: front-matter, title, rendering, assembly.
pub mod compile;
pub mod frontmatter;
pub mod metadata;
pub mod to_html;

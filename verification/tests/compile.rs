use cianticblog::git;
use cianticblog::markdown::compile::{
    compile_markdown_file, CompiledMarkdown, Error, SourceDocument,
};
use cianticblog::markdown::frontmatter;
use cianticblog::markdown::frontmatter::Frontmatter;
use cianticblog::timestamp::Timestamp;

fn at(seconds: i64) -> Timestamp {
    Timestamp { seconds, nanos: 0 }
}

fn source(path: &str, content: &str) -> SourceDocument {
    SourceDocument {
        path: path.to_string(),
        content: content.to_string(),
        modified_on_disk: at(30),
    }
}

const POST01: &str = "# First post\n\nHello *world*.\n";

const POST02: &str = "---\nold_url: https://www.foo.com/path1/path2\n---\n\n# Second post\n\nLorem ipsum dolor sit amet!\n\n![Test image](./res01.svg)\n\n![Non-existing file](./res404.svg)\n";

fn post02_header() -> Frontmatter {
    Frontmatter {
        title: None,
        published: None,
        old_url: Some("https://www.foo.com/path1/path2".to_string()),
    }
}

#[test]
fn a_document_without_header_takes_its_title_from_the_first_line() {
    let post = compile_markdown_file(
        &source("/site/examples/articles/post01.md", POST01),
        Ok(Frontmatter::default()),
        Ok(at(10)),
        Ok(at(20)),
    )
    .unwrap();
    assert_eq!(
        post,
        CompiledMarkdown {
            slug: "post01".to_string(),
            title: "First post".to_string(),
            published: at(10),
            modified: at(20),
            modified_on_disk: at(30),
            local_path: "/site/examples/articles/post01.md".to_string(),
            old_url: None,
            html: "<p>Hello <em>world</em>.</p>\n".to_string(),
        }
    );
}

#[test]
fn the_title_is_separated_from_the_rest() {
    let post = compile_markdown_file(
        &source("/site/examples/articles/post02.md", POST02),
        Ok(post02_header()),
        Ok(at(10)),
        Ok(at(20)),
    )
    .unwrap();
    assert_eq!(post.title, "Second post");
    assert!(post.html.starts_with("<p>Lorem ipsum dolor sit amet!"));
    assert_eq!(post.html, "<p>Lorem ipsum dolor sit amet!</p>\n<p><img src=\"./res01.svg\" title=\"\" width=\"\" height=\"\" />Test image</p>\n<p><img src=\"./res404.svg\" title=\"\" width=\"\" height=\"\" />Non-existing file</p>\n");
    assert_eq!(
        post.old_url,
        Some("https://www.foo.com/path1/path2".to_string())
    );
    assert_eq!(post.slug, "post02");
}

#[test]
fn a_title_of_the_header_leaves_the_body_whole() {
    let header = Frontmatter {
        title: Some("From the header".to_string()),
        published: Some(at(5)),
        old_url: None,
    };
    let post = compile_markdown_file(
        &source("/a/b.md", "---\ntitle: From the header\n---\n# Heading\n\ntext\n"),
        Ok(header),
        Err(git::Error::SignalTerminated),
        Ok(at(20)),
    )
    .unwrap();
    assert_eq!(post.title, "From the header");
    assert_eq!(post.html, "<h1>Heading</h1>\n<p>text</p>\n");
    assert_eq!(post.published, at(5));
    assert_eq!(post.modified, at(20));
}

#[test]
fn the_parsed_header_does_not_count_without_a_header_block() {
    let header = Frontmatter {
        title: Some("Not used".to_string()),
        published: Some(at(5)),
        old_url: Some("https://x.example/".to_string()),
    };
    let post = compile_markdown_file(&source("/a/b.md", POST01), Ok(header), Ok(at(10)), Ok(at(20)))
        .unwrap();
    assert_eq!(post.title, "First post");
    assert_eq!(post.published, at(10));
    assert_eq!(post.old_url, None);
    let failing = Err(frontmatter::Error::YamlParseError("no".to_string()));
    assert!(compile_markdown_file(&source("/a/b.md", POST01), failing, Ok(at(10)), Ok(at(20))).is_ok());
}

#[test]
fn the_first_stage_that_fails_gives_the_error() {
    let malformed = || Err(frontmatter::Error::YamlParseError("bad".to_string()));
    let no_history = || Err(git::Error::ExitError(128, "fatal".to_string()));
    let killed = || Err(git::Error::SignalTerminated);
    assert_eq!(
        compile_markdown_file(&source("/", POST02), malformed(), no_history(), killed()),
        Err(Error::FrontmatterParseError(
            frontmatter::Error::YamlParseError("bad".to_string())
        ))
    );
    assert_eq!(
        compile_markdown_file(&source("/", POST02), Ok(post02_header()), no_history(), killed()),
        Err(Error::GitError(git::Error::ExitError(
            128,
            "fatal".to_string()
        )))
    );
    assert_eq!(
        compile_markdown_file(&source("/", POST02), Ok(post02_header()), Ok(at(1)), killed()),
        Err(Error::GitError(git::Error::SignalTerminated))
    );
    assert_eq!(
        compile_markdown_file(&source("/", POST02), Ok(post02_header()), Ok(at(1)), Ok(at(2))),
        Err(Error::FileNameError)
    );
}

#[test]
fn the_slug_is_the_file_name_without_its_extension() {
    let slug_of = |path: &str| {
        compile_markdown_file(&source(path, POST01), Ok(Frontmatter::default()), Ok(at(1)), Ok(at(2)))
            .unwrap()
            .slug
    };
    assert_eq!(slug_of("/a/post01.md"), "post01");
    assert_eq!(slug_of("/a/post01.md.md"), "post01");
    assert_eq!(slug_of("/a/post01.markdown"), "post01.markdown");
    assert_eq!(slug_of("/a/.md"), "");
    assert_eq!(slug_of("/a.md/read.me"), "read.me");
    assert_eq!(slug_of("md"), "md");
    assert_eq!(slug_of("/a/caf\u{e9}.md"), "caf\u{e9}");
}

#[test]
fn compiling_twice_gives_the_same_document() {
    let compile = || {
        compile_markdown_file(
            &source("/site/examples/articles/post02.md", POST02),
            Ok(post02_header()),
            Ok(at(10)),
            Ok(at(20)),
        )
    };
    assert_eq!(compile(), compile());
}

use cianticblog::markdown::compile::{compile_markdown_file, SourceDocument};
use cianticblog::markdown::frontmatter::{get_frontmatter, header_block, Frontmatter};
use cianticblog::markdown::metadata::{first_title, first_title_rest};
use cianticblog::markdown::to_html::image_tag;
use cianticblog::normalize;
use cianticblog::timestamp::Timestamp;
use cianticblog::urls::{convert_html_urls_with, lookup_paths};

/// A small generator of texts over an alphabet that holds the characters the
/// parsers look for.
struct Texts {
    state: u64,
}

impl Texts {
    fn new(seed: u64) -> Texts {
        Texts { state: seed }
    }

    fn next(&mut self) -> u64 {
        self.state = self
            .state
            .wrapping_mul(6364136223846793005)
            .wrapping_add(1442695040888963407);
        self.state >> 33
    }

    fn text(&mut self, alphabet: &[&str], longest: u64) -> String {
        let length = self.next() % (longest + 1);
        let mut text = String::new();
        for _ in 0..length {
            text.push_str(alphabet[(self.next() % alphabet.len() as u64) as usize]);
        }
        text
    }
}

fn title_by_std(text: &str) -> (&str, &str) {
    let mut parts = text.splitn(2, '\n');
    (
        parts.next().unwrap().trim_start_matches('#').trim(),
        parts
            .next()
            .unwrap_or("")
            .trim_start_matches(|c| c == '\r' || c == '\n'),
    )
}

#[test]
fn titles_agree_with_splitting_and_trimming_of_std() {
    let alphabet = [
        "#", " ", "\n", "\r", "\t", "a", "\u{a0}", "\u{e9}", "\u{3000}", "\u{1F600}", "\u{85}",
        "-",
    ];
    let mut texts = Texts::new(1);
    for _ in 0..20000 {
        let text = texts.text(&alphabet, 12);
        assert_eq!(first_title_rest(&text), title_by_std(&text), "{:?}", text);
        assert_eq!(
            first_title(&text),
            text.lines()
                .next()
                .unwrap_or(&text)
                .trim_start_matches('#')
                .trim(),
            "{:?}",
            text
        );
    }
}

#[test]
fn white_space_is_that_of_std_for_every_character() {
    let mut code = 0u32;
    while code <= 0x10FFFF {
        if let Some(c) = char::from_u32(code) {
            let text = format!("{}x{}", c, c);
            let expected = if c.is_whitespace() { "x" } else { text.as_str() };
            let expected = if c == '#' { "x#" } else { expected };
            assert_eq!(first_title(&text), if c == '\n' { "" } else { expected }, "{:x}", code);
        }
        code += 1;
    }
}

fn frontmatter_by_std(markdown: &str) -> (Option<&str>, String) {
    if markdown.starts_with("---") {
        let parts: Vec<&str> = markdown.splitn(3, "---").collect();
        if parts.len() == 3 {
            return (
                Some(parts[1]),
                parts[2]
                    .trim_start_matches(|c| c == '\r' || c == '\n')
                    .into(),
            );
        }
    }
    (None, markdown.into())
}

#[test]
fn headers_agree_with_splitting_of_std() {
    let alphabet = ["-", "-", "-", "\n", "\r", "a", " ", "\u{e9}", ":"];
    let mut texts = Texts::new(2);
    let header = Frontmatter {
        title: Some("t".to_string()),
        published: None,
        old_url: None,
    };
    for _ in 0..20000 {
        let text = texts.text(&alphabet, 14);
        let (expected_header, expected_body) = frontmatter_by_std(&text);
        assert_eq!(header_block(&text), expected_header, "{:?}", text);
        let (found, body) = get_frontmatter(&text, Ok(header.clone())).unwrap();
        assert_eq!(body, expected_body, "{:?}", text);
        assert_eq!(
            found,
            if expected_header.is_some() {
                header.clone()
            } else {
                Frontmatter::default()
            }
        );
    }
}

#[test]
fn slugs_agree_with_trimming_of_std() {
    let alphabet = [".", "m", "d", ".md", "a", "\u{e9}"];
    let mut texts = Texts::new(3);
    for _ in 0..5000 {
        let name = format!("x{}", texts.text(&alphabet, 8));
        let source = SourceDocument {
            path: format!("/dir/{}", name),
            content: "# t\n".to_string(),
            modified_on_disk: Timestamp {
                seconds: 0,
                nanos: 0,
            },
        };
        let at = Timestamp {
            seconds: 1,
            nanos: 0,
        };
        let compiled =
            compile_markdown_file(&source, Ok(Frontmatter::default()), Ok(at), Ok(at)).unwrap();
        assert_eq!(compiled.slug, name.trim_end_matches(".md"), "{:?}", name);
    }
}

#[test]
fn image_tags_agree_with_replacing_of_std() {
    let alphabet = ["\"", "a", "&", "\u{e9}", " ", "q"];
    let mut texts = Texts::new(4);
    for _ in 0..5000 {
        let src = texts.text(&alphabet, 8);
        let title = texts.text(&alphabet, 8);
        assert_eq!(
            image_tag(&src, &title),
            format!(
                "<img src=\"{}\" title=\"{}\" width=\"\" height=\"\" />",
                src.replace("\"", "&quot;"),
                title.replace("\"", "&quot;")
            )
        );
    }
}

#[test]
fn relative_paths_agree_with_joining_of_std() {
    let alphabet = ["/", "a", ".", "..", "b c", "\u{e9}"];
    let mut texts = Texts::new(5);
    for _ in 0..5000 {
        let value = texts.text(&alphabet, 6);
        let current = texts.text(&alphabet, 5);
        let root = texts.text(&alphabet, 5);
        if value.contains('"') || value.contains(':') {
            continue;
        }
        let html = format!("<a href=\"{}\">", value);
        let expected = match value.strip_prefix('/') {
            Some(rest) => std::path::Path::new(&root).join(rest),
            None => std::path::Path::new(&current).join(&value),
        };
        assert_eq!(
            lookup_paths(&html, &current, &root),
            vec![Some(expected.to_string_lossy().into_owned())],
            "{:?} {:?} {:?}",
            value,
            current,
            root
        );
    }
}

#[test]
fn rewriting_agrees_with_replacing_from_the_end() {
    let alphabet = [
        " href=\"", " src=\"", "\"", "a", "/", "<", ">", " ", "\u{e9}", "x:y", "href", "=",
    ];
    let mut texts = Texts::new(6);
    let pattern = regex::Regex::new(r#" (href|src)="([^"]*?)""#).unwrap();
    for _ in 0..5000 {
        let html = texts.text(&alphabet, 14);
        let found: Vec<_> = pattern
            .captures_iter(&html)
            .map(|c| c.get(2).unwrap())
            .collect();
        let lookups: Vec<Result<String, normalize::Error>> = found
            .iter()
            .enumerate()
            .map(|(i, _)| Ok(format!("/found/{}", i)))
            .collect();
        let converted = convert_html_urls_with(&html, "/cur", "/root", &lookups);
        let mut expected = html.clone();
        let mut failed = false;
        for (i, value) in found.iter().enumerate().rev() {
            let locator = if value.as_str().contains(':') {
                match url::Url::parse(value.as_str()) {
                    Ok(url) => url.to_string(),
                    Err(_) => {
                        failed = true;
                        break;
                    }
                }
            } else {
                format!("file:///found/{}", i)
            };
            expected.replace_range(value.range(), &locator);
        }
        match converted {
            Ok(done) => {
                assert!(!failed, "{:?}", html);
                assert_eq!(done.html, expected, "{:?}", html);
                assert_eq!(done.urls.len(), found.len());
                for (reference, value) in done.urls.iter().zip(found.iter()) {
                    assert_eq!(reference.raw, value.as_str());
                }
                // the markup that comes out holds the locators, one for each
                // reference, and no other reference
                let again: Vec<_> = pattern
                    .captures_iter(&done.html)
                    .map(|c| c.get(2).unwrap().as_str().to_string())
                    .collect();
                let locators: Vec<_> = done.urls.iter().map(|r| r.locator.clone()).collect();
                assert_eq!(again, locators, "{:?}", html);
                for locator in locators {
                    assert!(url::Url::parse(&locator).is_ok());
                }
            }
            Err(_) => assert!(failed, "{:?}", html),
        }
    }
}

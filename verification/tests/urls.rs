use cianticblog::normalize;
use cianticblog::urls::{
    convert_html_urls, convert_html_urls_with, lookup_paths, resolve_with, Error, ReferenceKind,
};

#[test]
fn test_urlparsing_failure() {
    let html = r#"
            <a href=":broken">...</a>
        "#;

    let res = convert_html_urls(html, "./examples/articles/", "./examples/layout/");
    assert!(matches!(res, Err(Error::UrlParsingFailed(val, _)) if val == ":broken"));
}

#[test]
fn test_canonicalization_failure() {
    let html = r#"
            <a href="/notfound.txt">...</a>
        "#;

    let res = convert_html_urls(html, "./examples/articles/", "./examples/layout/");
    assert!(matches!(res, Err(Error::FileNotFound(_))));
}

#[test]
fn missing_target_names_the_resolved_path() {
    let html = r#"<a href="/notfound.txt">...</a>"#;
    let res = convert_html_urls(html, "./examples/articles/", "./examples/layout/");
    assert_eq!(
        res,
        Err(Error::FileNotFound("./examples/layout/notfound.txt".to_string()))
    );
    let html = r#"<img src="res404.svg" />"#;
    let res = convert_html_urls(html, "./examples/articles", "./examples/layout/");
    assert_eq!(
        res,
        Err(Error::FileNotFound("./examples/articles/res404.svg".to_string()))
    );
}

#[test]
fn rewrites_every_reference_and_nothing_else() {
    let html = r#"first
            <!-- Relative to root path -->
            <link href="/style.css" />

            <!-- Relative to current path -->
            <a href="./post02.md">...</a>
            <a href="../pages/example.md">...</a>
            <img src="res01.svg" />

            <!-- Full urls -->
            <a href="https://www.example.com">...</a>
            end"#;

    let expect_html = r#"first
            <!-- Relative to root path -->
            <link href="file:///site/examples/layout/style.css" />

            <!-- Relative to current path -->
            <a href="file:///site/examples/articles/post02.md">...</a>
            <a href="file:///site/examples/pages/example.md">...</a>
            <img src="file:///site/examples/articles/res01.svg" />

            <!-- Full urls -->
            <a href="https://www.example.com/">...</a>
            end"#;

    let paths = lookup_paths(html, "./examples/articles/", "./examples/layout/");
    assert_eq!(
        paths,
        vec![
            Some("./examples/layout/style.css".to_string()),
            Some("./examples/articles/./post02.md".to_string()),
            Some("./examples/articles/../pages/example.md".to_string()),
            Some("./examples/articles/res01.svg".to_string()),
            None,
        ]
    );
    let lookups = vec![
        Ok("/site/examples/layout/style.css".to_string()),
        Ok("/site/examples/articles/post02.md".to_string()),
        Ok("/site/examples/pages/example.md".to_string()),
        Ok("/site/examples/articles/res01.svg".to_string()),
        Err(normalize::Error::NotFound),
    ];
    let value = convert_html_urls_with(
        html,
        "./examples/articles/",
        "./examples/layout/",
        &lookups,
    )
    .unwrap();
    assert_eq!(value.html, expect_html);
    assert_eq!(value.urls.len(), 5);
    assert_eq!(value.urls[0].raw, "/style.css");
    assert_eq!(value.urls[0].locator, "file:///site/examples/layout/style.css");
    assert_eq!(value.urls[0].kind, ReferenceKind::InternalFile);
    assert_eq!(value.urls[4].raw, "https://www.example.com");
    assert_eq!(value.urls[4].locator, "https://www.example.com/");
    assert_eq!(value.urls[4].kind, ReferenceKind::External);
}

#[test]
fn markup_without_references_is_unchanged() {
    // no space before the attribute, another attribute name, no closing quote
    let html = "href=\"x\"<p>h\u{e9}llo w\u{f6}rld</p><a\thref=\"y\" name=\"a:b\"> src=\"z";
    let value = convert_html_urls(html, "/nowhere", "/nowhere").unwrap();
    assert_eq!(value.html, html);
    assert!(value.urls.is_empty());
}

#[test]
fn text_around_a_reference_keeps_its_bytes() {
    let html = "\u{e4}\u{1F600} <a href=\"mailto:a@example.com\">\u{2028}z</a> \u{3000}";
    let value = convert_html_urls(html, "/nowhere", "/nowhere").unwrap();
    assert_eq!(value.html, html);
    assert_eq!(value.urls.len(), 1);
    assert_eq!(value.urls[0].locator, "mailto:a@example.com");
}

#[test]
fn an_empty_value_stands_for_the_current_directory() {
    let res = convert_html_urls("<img src=\"\">", "/nowhere", "/");
    assert_eq!(res, Err(Error::FileNotFound("/nowhere/".to_string())));
}

#[test]
fn the_last_failing_reference_is_reported() {
    let html = r#"<a href=":first"></a><a href="missing.md"></a><a href="https://ok.example/"></a>"#;
    let res = convert_html_urls_with(html, "/docs", "/", &vec![]);
    assert_eq!(res, Err(Error::FileNotFound("/docs/missing.md".to_string())));
}

#[test]
fn lookup_outcomes_give_their_errors() {
    let failed: Result<String, normalize::Error> =
        Err(normalize::Error::Failed("permission denied".to_string()));
    assert_eq!(
        resolve_with("a/b.png", "/docs/", "/root", &failed),
        Err(Error::CanonicalizationFailed(
            "/docs/a/b.png".to_string(),
            "permission denied".to_string()
        ))
    );
    let relative: Result<String, normalize::Error> = Ok("not/absolute".to_string());
    assert_eq!(
        resolve_with("a/b.png", "/docs/", "/root", &relative),
        Err(Error::UrlCreationFailed("not/absolute".to_string()))
    );
    let found: Result<String, normalize::Error> = Ok("/docs/a/b c.png".to_string());
    let reference = resolve_with("a/b c.png", "/docs/", "/root", &found).unwrap();
    assert_eq!(reference.locator, "file:///docs/a/b%20c.png");
    assert_eq!(reference.raw, "a/b c.png");
}

#[test]
fn relative_values_are_joined_to_their_base() {
    let missing: Result<String, normalize::Error> = Err(normalize::Error::NotFound);
    let path_of = |value: &str, current: &str, root: &str| match resolve_with(
        value, current, root, &missing,
    ) {
        Err(Error::FileNotFound(path)) => path,
        other => panic!("unexpected {:?}", other),
    };
    assert_eq!(path_of("/a.css", "/cur", "/root"), "/root/a.css");
    assert_eq!(path_of("/a.css", "/cur", "/root/"), "/root/a.css");
    assert_eq!(path_of("//a.css", "/cur", "/root"), "/a.css");
    assert_eq!(path_of("a.css", "/cur", "/root"), "/cur/a.css");
    assert_eq!(path_of("a.css", "", "/root"), "a.css");
    assert_eq!(path_of("", "/cur", "/root"), "/cur/");
    assert_eq!(path_of("/", "/cur", "/root"), "/root/");
}

#[test]
fn an_existing_directory_resolves_on_disk() {
    let value = convert_html_urls(r#"<a href="/">root</a>"#, "/nowhere", "/").unwrap();
    assert_eq!(value.html, r#"<a href="file:///">root</a>"#);
    assert_eq!(value.urls.len(), 1);
    assert_eq!(value.urls[0].kind, ReferenceKind::InternalFile);
}

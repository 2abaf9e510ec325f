use cianticblog::db::models::Article;
use cianticblog::db::repositories::Cache;
use cianticblog::db::uuid::UUID;
use cianticblog::changes::{ChangeSet, FilesChange};
use cianticblog::generate::{Action, Message, Orchestrator, Phase};
use cianticblog::reconcile::{reconcile, store_draft, Failure};
use cianticblog::generate_db::{
    generate_article_db, generate_article_db_with, scan_pattern, sync, Draft, Error,
};
use cianticblog::git;
use cianticblog::markdown::compile::{compile_markdown_file, SourceDocument};
use cianticblog::markdown::compile;
use cianticblog::markdown::frontmatter::Frontmatter;
use cianticblog::normalize;
use cianticblog::timestamp::Timestamp;
use cianticblog::urls;

fn at(seconds: i64) -> Timestamp {
    Timestamp { seconds, nanos: 0 }
}

fn draft(server_path: &str, title: &str) -> Draft {
    Draft {
        id: UUID::new(format!("id of {}", title)),
        published: at(1),
        modified: at(2),
        modified_on_disk: at(3),
        server_path: server_path.to_string(),
        title: title.to_string(),
        html: format!("<p>{}</p>", title),
    }
}

fn paths(list: &[&str]) -> Vec<String> {
    list.iter().map(|p| p.to_string()).collect()
}

fn compile_paths(actions: &[Action]) -> Vec<(u64, String)> {
    actions
        .iter()
        .filter_map(|a| match a {
            Action::Compile { round, path } => Some((*round, path.clone())),
            _ => None,
        })
        .collect()
}

fn local_paths(cache: &Cache) -> Vec<String> {
    Article::get_all(cache)
        .into_iter()
        .map(|a| a.local_path)
        .collect()
}

const POST01: &str = "# First post\n\nHello.\n";

const POST02: &str = "---\nold_url: https://www.foo.com/path1/path2\n---\n# Second post\n\n![Test image](./res01.svg)\n\n![Non-existing file](./res404.svg)\n";

fn compiled(path: &str, content: &str, header: Frontmatter) -> Result<compile::CompiledMarkdown, compile::Error> {
    compile_markdown_file(
        &SourceDocument {
            path: path.to_string(),
            content: content.to_string(),
            modified_on_disk: at(30),
        },
        Ok(header),
        Ok(at(10)),
        Ok(at(20)),
    )
}

#[test]
fn a_scan_looks_for_documents_at_any_depth() {
    assert_eq!(scan_pattern("./examples/articles"), "./examples/articles/**/*.md");
    assert_eq!(scan_pattern(""), "/**/*.md");
}

#[test]
fn the_first_build_counts_every_file_as_changed() {
    assert_eq!(
        sync(paths(&["/a/1.md", "/a/2.md"]), paths(&["/p/1.md"])),
        vec![
            FilesChange::ArticlesChanged {
                files: paths(&["/a/1.md", "/a/2.md"])
            },
            FilesChange::PagesChanged {
                files: paths(&["/p/1.md"])
            },
        ]
    );
}

#[test]
fn a_change_set_holds_the_articles_only() {
    let changes = vec![
        FilesChange::RootChanged {
            root_files: paths(&["/style.css"]),
        },
        FilesChange::ArticlesChanged {
            files: paths(&["/a/1.md", "/a/2.md"]),
        },
        FilesChange::PagesDeleted {
            files: paths(&["/p/9.md"]),
        },
        FilesChange::ArticlesDeleted {
            files: paths(&["/a/3.md"]),
        },
        FilesChange::PagesChanged {
            files: paths(&["/p/1.md"]),
        },
        FilesChange::ArticlesChanged {
            files: paths(&["/a/4.md"]),
        },
    ];
    assert_eq!(
        ChangeSet::from_changes(&changes),
        ChangeSet {
            cold_start: false,
            changed: paths(&["/a/1.md", "/a/2.md", "/a/4.md"]),
            deleted: paths(&["/a/3.md"]),
        }
    );
    assert_eq!(
        ChangeSet::from_scan(paths(&["/a/1.md"])),
        ChangeSet {
            cold_start: true,
            changed: paths(&["/a/1.md"]),
            deleted: vec![],
        }
    );
}

#[test]
fn a_draft_is_served_under_its_slug() {
    let doc = compiled("/site/articles/post01.md", POST01, Frontmatter::default());
    let (random, _) = generate_article_db(doc.clone(), "/site").unwrap();
    assert_eq!(random.id.as_str().len(), 36);
    assert_eq!(random.server_path, "/articles/post01");
    let (draft, urls) =
        generate_article_db_with(doc, "/site", &vec![], UUID::new("p1".to_string())).unwrap();
    assert_eq!(
        draft,
        Draft {
            id: UUID::new("p1".to_string()),
            published: at(10),
            modified: at(20),
            modified_on_disk: at(30),
            server_path: "/articles/post01".to_string(),
            title: "First post".to_string(),
            html: "<p>Hello.</p>\n".to_string(),
        }
    );
    assert!(urls.is_empty());
}

#[test]
fn a_failed_compilation_is_handed_on() {
    let failed: Result<compile::CompiledMarkdown, compile::Error> =
        Err(compile::Error::GitError(git::Error::SignalTerminated));
    assert_eq!(
        generate_article_db(failed.clone(), "/site"),
        Err(Error::CompileMarkdownError(compile::Error::GitError(
            git::Error::SignalTerminated
        )))
    );
    assert_eq!(
        generate_article_db_with(failed, "/site", &vec![], UUID::new("x".to_string())),
        Err(Error::CompileMarkdownError(compile::Error::GitError(
            git::Error::SignalTerminated
        )))
    );
}

#[test]
fn references_are_resolved_from_the_directory_of_the_document() {
    let header = Frontmatter {
        title: None,
        published: None,
        old_url: Some("https://www.foo.com/path1/path2".to_string()),
    };
    let doc = compiled("/site/articles/post02.md", POST02, header);
    let found = vec![
        Ok("/site/articles/res01.svg".to_string()),
        Ok("/site/articles/res404.svg".to_string()),
    ];
    let (draft, urls) =
        generate_article_db_with(doc.clone(), "/site", &found, UUID::new("p2".to_string()))
            .unwrap();
    assert_eq!(draft.id.as_str(), "p2");
    assert_eq!(draft.title, "Second post");
    assert_eq!(draft.server_path, "/articles/post02");
    assert_eq!(draft.html, "<p><img src=\"file:///site/articles/res01.svg\" title=\"\" width=\"\" height=\"\" />Test image</p>\n<p><img src=\"file:///site/articles/res404.svg\" title=\"\" width=\"\" height=\"\" />Non-existing file</p>\n");
    assert_eq!(urls.len(), 2);
    assert_eq!(urls[0].raw, "./res01.svg");
    assert_eq!(urls[1].locator, "file:///site/articles/res404.svg");

    let one_missing = vec![
        Ok("/site/articles/res01.svg".to_string()),
        Err(normalize::Error::NotFound),
    ];
    assert_eq!(
        generate_article_db_with(doc, "/site", &one_missing, UUID::new("p2".to_string())),
        Err(Error::UrlConvertError(urls::Error::FileNotFound(
            "/site/articles/./res404.svg".to_string()
        )))
    );
}

#[test]
fn a_new_document_gets_a_fresh_identifier_and_keeps_it() {
    let mut cache = Cache::new();
    let path = "/a/1.md".to_string();
    let first = store_draft(&mut cache, &path, &draft("/articles/1", "one")).unwrap();
    assert_eq!(first.id.as_str(), "id of one");
    assert_eq!(first.local_path, "/a/1.md");
    assert_eq!(first.title, "one");
    let second = store_draft(&mut cache, &path, &draft("/articles/1", "one, revised")).unwrap();
    assert!(second.id.same(&first.id));
    assert_eq!(Article::get_all(&cache), vec![second]);
}

#[test]
fn a_server_path_that_is_taken_fails_the_document() {
    let mut cache = Cache::new();
    store_draft(&mut cache, &"/a/post.md".to_string(), &draft("/articles/post", "a")).unwrap();
    let before = Article::get_all(&cache);
    assert_eq!(
        store_draft(&mut cache, &"/b/post.md".to_string(), &draft("/articles/post", "b")),
        Err(Failure {
            path: "/b/post.md".to_string(),
            error: Error::ServerPathTaken("/articles/post".to_string()),
        })
    );
    assert_eq!(Article::get_all(&cache), before);
}

#[test]
fn reconciling_cleans_first_and_stores_then() {
    let mut cache = Cache::new();
    store_draft(&mut cache, &"/a/old.md".to_string(), &draft("/articles/x", "old")).unwrap();
    store_draft(&mut cache, &"/a/kept.md".to_string(), &draft("/articles/kept", "kept")).unwrap();
    let drafts = vec![
        ("/a/new.md".to_string(), draft("/articles/x", "new")),
        ("/a/clash.md".to_string(), draft("/articles/kept", "clash")),
    ];
    let known = paths(&["/a/kept.md", "/a/new.md", "/a/clash.md"]);
    let done = reconcile(&mut cache, true, &known, &vec![], &drafts);
    assert_eq!(done.removed, 1);
    assert_eq!(done.saved.len(), 1);
    assert_eq!(done.saved[0].local_path, "/a/new.md");
    assert_eq!(
        done.failures,
        vec![Failure {
            path: "/a/clash.md".to_string(),
            error: Error::ServerPathTaken("/articles/kept".to_string()),
        }]
    );
    assert_eq!(local_paths(&cache), paths(&["/a/kept.md", "/a/new.md"]));
}

#[test]
fn a_round_is_built_and_reconciled() {
    let mut orchestrator = Orchestrator::new(Cache::new());
    assert_eq!(orchestrator.phase(), Phase::Idle);
    let actions = orchestrator.generate(Message::Sync {
        article_files: paths(&["/a/1.md", "/a/2.md", "/a/1.md"]),
        page_files: paths(&["/p/1.md"]),
    });
    assert_eq!(
        actions,
        vec![
            Action::Compile {
                round: 1,
                path: "/a/1.md".to_string()
            },
            Action::Compile {
                round: 1,
                path: "/a/2.md".to_string()
            },
        ]
    );
    assert_eq!(orchestrator.phase(), Phase::Building);
    assert_eq!(orchestrator.round(), 1);

    let none = orchestrator.generate(Message::DbArticleCreated {
        round: 1,
        path: "/a/2.md".to_string(),
        article: draft("/articles/2", "two"),
        urls: vec![],
    });
    assert!(none.is_empty());
    assert_eq!(orchestrator.phase(), Phase::Building);
    assert_eq!(orchestrator.cache().len(), 0);

    let failure = Error::UrlConvertError(urls::Error::FileNotFound("/a/res404.svg".to_string()));
    let done = orchestrator.generate(Message::DbArticleError {
        round: 1,
        path: "/a/1.md".to_string(),
        error: failure.clone(),
    });
    assert_eq!(orchestrator.phase(), Phase::Idle);
    assert_eq!(done.len(), 3);
    assert_eq!(
        done[0],
        Action::CleanNonExisting {
            existing: paths(&["/a/1.md", "/a/2.md", "/a/1.md"])
        }
    );
    let stored = Article::get_all(orchestrator.cache());
    assert_eq!(stored.len(), 1);
    assert_eq!(stored[0].local_path, "/a/2.md");
    assert_eq!(stored[0].server_path, "/articles/2");
    assert_eq!(stored[0].title, "two");
    assert_eq!(done[1], Action::Save(stored[0].clone()));
    assert_eq!(
        done[2],
        Action::Emit(Message::DbGenerated {
            compiled: 1,
            deleted: 0,
            failures: vec![Failure {
                path: "/a/1.md".to_string(),
                error: failure,
            }],
        })
    );
}

#[test]
fn a_round_that_is_superseded_leaves_no_trace() {
    let mut orchestrator = Orchestrator::new(Cache::new());
    orchestrator.submit(ChangeSet::from_scan(paths(&["/a/1.md", "/a/2.md"])));
    orchestrator.report(1, "/a/1.md".to_string(), Ok(draft("/articles/1", "from A")));
    let actions = orchestrator.submit(ChangeSet {
        cold_start: false,
        changed: paths(&["/a/2.md"]),
        deleted: vec![],
    });
    assert_eq!(
        actions,
        vec![
            Action::Cancel { round: 1 },
            Action::Compile {
                round: 2,
                path: "/a/2.md".to_string()
            },
        ]
    );
    assert_eq!(orchestrator.cache().len(), 0);
    // a late report of the old round
    let late = orchestrator.report(1, "/a/2.md".to_string(), Ok(draft("/articles/2", "late")));
    assert!(late.is_empty());
    assert_eq!(orchestrator.phase(), Phase::Building);
    assert_eq!(orchestrator.cache().len(), 0);
    let done = orchestrator.report(2, "/a/2.md".to_string(), Ok(draft("/articles/2", "from B")));
    assert_eq!(done.len(), 3);
    let stored = Article::get_all(orchestrator.cache());
    assert_eq!(stored.len(), 1);
    assert_eq!(stored[0].title, "from B");
}

#[test]
fn reports_that_are_not_awaited_are_ignored() {
    let mut orchestrator = Orchestrator::new(Cache::new());
    assert!(orchestrator
        .report(0, "/a/1.md".to_string(), Ok(draft("/articles/1", "x")))
        .is_empty());
    orchestrator.submit(ChangeSet::from_scan(paths(&["/a/1.md"])));
    assert!(orchestrator
        .report(1, "/a/other.md".to_string(), Ok(draft("/articles/1", "x")))
        .is_empty());
    assert!(orchestrator
        .report(7, "/a/1.md".to_string(), Ok(draft("/articles/1", "x")))
        .is_empty());
    assert!(orchestrator
        .generate(Message::DbGenerated {
            compiled: 0,
            deleted: 0,
            failures: vec![]
        })
        .is_empty());
    assert_eq!(orchestrator.phase(), Phase::Building);
    assert_eq!(orchestrator.cache().len(), 0);
}

#[test]
fn after_a_round_over_the_corpus_the_cache_holds_the_corpus() {
    let mut cache = Cache::new();
    store_draft(&mut cache, &"/a/gone.md".to_string(), &draft("/articles/gone", "gone")).unwrap();
    store_draft(&mut cache, &"/a/1.md".to_string(), &draft("/articles/1", "stale")).unwrap();
    let kept_id = Article::get_all(&cache)[1].id.duplicate();
    let mut orchestrator = Orchestrator::new(cache);
    orchestrator.submit(ChangeSet::from_scan(paths(&["/a/1.md", "/a/2.md"])));
    orchestrator.report(1, "/a/2.md".to_string(), Ok(draft("/articles/2", "two")));
    let done = orchestrator.report(1, "/a/1.md".to_string(), Ok(draft("/articles/1", "one")));
    assert_eq!(
        done.last(),
        Some(&Action::Emit(Message::DbGenerated {
            compiled: 2,
            deleted: 1,
            failures: vec![]
        }))
    );
    let stored = Article::get_all(orchestrator.cache());
    assert_eq!(stored.len(), 2);
    assert_eq!(stored[0].local_path, "/a/1.md");
    assert_eq!(stored[0].title, "one");
    assert!(stored[0].id.same(&kept_id));
    assert_eq!(stored[1].local_path, "/a/2.md");
    assert_eq!(stored[1].title, "two");
}

#[test]
fn a_round_without_documents_is_completed_at_once() {
    let mut cache = Cache::new();
    store_draft(&mut cache, &"/a/1.md".to_string(), &draft("/articles/1", "one")).unwrap();
    store_draft(&mut cache, &"/a/2.md".to_string(), &draft("/articles/2", "two")).unwrap();
    let mut orchestrator = Orchestrator::new(cache);
    let actions = orchestrator.generate(Message::Changes(vec![FilesChange::ArticlesDeleted {
        files: paths(&["/a/1.md"]),
    }]));
    assert_eq!(
        actions,
        vec![
            Action::DeleteListed {
                gone: paths(&["/a/1.md"])
            },
            Action::Emit(Message::DbGenerated {
                compiled: 0,
                deleted: 1,
                failures: vec![]
            }),
        ]
    );
    assert_eq!(orchestrator.phase(), Phase::Idle);
    assert_eq!(local_paths(orchestrator.cache()), paths(&["/a/2.md"]));
    let actions = orchestrator.generate(Message::Sync {
        article_files: vec![],
        page_files: vec![],
    });
    assert_eq!(actions.len(), 2);
    assert_eq!(orchestrator.cache().len(), 0);
    assert_eq!(orchestrator.round(), 2);
}

#[test]
fn two_documents_one_of_which_refers_to_a_missing_image() {
    let root = "/site";
    let post01 = compiled("/site/articles/post01.md", POST01, Frontmatter::default());
    assert_eq!(post01.as_ref().unwrap().title, "First post");
    let header = Frontmatter {
        title: None,
        published: None,
        old_url: Some("https://www.foo.com/path1/path2".to_string()),
    };
    let post02 = compiled("/site/articles/post02.md", POST02, header);
    assert_eq!(post02.as_ref().unwrap().title, "Second post");

    let mut orchestrator = Orchestrator::new(Cache::new());
    let actions = orchestrator.generate(Message::Sync {
        article_files: paths(&["/site/articles/post01.md", "/site/articles/post02.md"]),
        page_files: vec![],
    });
    assert_eq!(
        compile_paths(&actions),
        vec![
            (1, "/site/articles/post01.md".to_string()),
            (1, "/site/articles/post02.md".to_string())
        ]
    );
    let (first, _) =
        generate_article_db_with(post01, root, &vec![], UUID::new("p1".to_string())).unwrap();
    orchestrator.report(1, "/site/articles/post01.md".to_string(), Ok(first));
    // the first image exists, the second does not
    let lookups = vec![
        Ok("/site/articles/res01.svg".to_string()),
        Err(normalize::Error::NotFound),
    ];
    let second = generate_article_db_with(post02, root, &lookups, UUID::new("p2".to_string()));
    let failure = Error::UrlConvertError(urls::Error::FileNotFound(
        "/site/articles/./res404.svg".to_string(),
    ));
    assert_eq!(second, Err(failure.clone()));
    let done = orchestrator.report(
        1,
        "/site/articles/post02.md".to_string(),
        second.map(|pair| pair.0),
    );
    assert_eq!(
        done.last(),
        Some(&Action::Emit(Message::DbGenerated {
            compiled: 1,
            deleted: 0,
            failures: vec![Failure {
                path: "/site/articles/post02.md".to_string(),
                error: failure
            }],
        }))
    );
    assert_eq!(
        local_paths(orchestrator.cache()),
        paths(&["/site/articles/post01.md"])
    );
}

#[test]
fn converting_twice_gives_the_same_markup() {
    let html = r#"<a href="a.md">a</a> <img src="https://x.example/i.png"> <a href="/b.md">b</a>"#;
    let lookups = vec![
        Ok("/site/docs/a.md".to_string()),
        Err(normalize::Error::NotFound),
        Ok("/site/b.md".to_string()),
    ];
    let first = urls::convert_html_urls_with(html, "/site/docs", "/site", &lookups);
    let second = urls::convert_html_urls_with(html, "/site/docs", "/site", &lookups);
    assert_eq!(first, second);
    assert_eq!(
        first.unwrap().html,
        r#"<a href="file:///site/docs/a.md">a</a> <img src="https://x.example/i.png"> <a href="file:///site/b.md">b</a>"#
    );
}

#[test]
fn a_proposed_identifier_that_is_held_fails_a_new_document() {
    let mut cache = Cache::new();
    store_draft(&mut cache, &"/a/1.md".to_string(), &draft("/articles/1", "one")).unwrap();
    let before = Article::get_all(&cache);
    let mut clashing = draft("/articles/2", "two");
    clashing.id = UUID::new("id of one".to_string());
    let refused = store_draft(&mut cache, &"/a/2.md".to_string(), &clashing);
    assert!(matches!(
        refused,
        Err(Failure {
            error: Error::DbError(cianticblog::db::Error::OtherDbError(_)),
            ..
        })
    ));
    assert_eq!(Article::get_all(&cache), before);
    // a document that the cache holds keeps its identifier, whatever is proposed
    let mut revised = draft("/articles/1", "one, revised");
    revised.id = UUID::new("another".to_string());
    let stored = store_draft(&mut cache, &"/a/1.md".to_string(), &revised).unwrap();
    assert_eq!(stored.id.as_str(), "id of one");
}

#[test]
fn one_failure_does_not_keep_the_others_out_of_the_cache() {
    let mut orchestrator = Orchestrator::new(Cache::new());
    let names = ["/a/1.md", "/a/2.md", "/a/3.md", "/a/4.md"];
    orchestrator.submit(ChangeSet::from_scan(paths(&names)));
    let failure = Error::CompileMarkdownError(compile::Error::FileNameError);
    let mut last = vec![];
    for (i, name) in names.iter().enumerate() {
        let outcome = if i == 1 {
            Err(failure.clone())
        } else {
            Ok(draft(&format!("/articles/{}", i), &format!("doc {}", i)))
        };
        last = orchestrator.report(1, name.to_string(), outcome);
    }
    assert_eq!(
        local_paths(orchestrator.cache()),
        paths(&["/a/1.md", "/a/3.md", "/a/4.md"])
    );
    assert_eq!(last.len(), 5);
    assert_eq!(
        last.last(),
        Some(&Action::Emit(Message::DbGenerated {
            compiled: 3,
            deleted: 0,
            failures: vec![Failure {
                path: "/a/2.md".to_string(),
                error: failure
            }],
        }))
    );
}

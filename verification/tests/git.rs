use cianticblog::git::{git_created, git_date, git_modified, git_query, Error, GitQuery};
use cianticblog::timestamp::Timestamp;

#[test]
fn the_first_commit_is_asked_with_a_filter() {
    assert_eq!(
        git_created("./examples/articles/post01.md"),
        Ok(GitQuery {
            directory: "./examples/articles".to_string(),
            arguments: vec![
                "log".to_string(),
                "-1".to_string(),
                "--pretty=format:%ci".to_string(),
                "--diff-filter=A".to_string(),
                "post01.md".to_string(),
            ],
        })
    );
}

#[test]
fn the_last_commit_is_asked_without_a_filter() {
    assert_eq!(
        git_modified("./examples/articles/post01.md"),
        Ok(GitQuery {
            directory: "./examples/articles".to_string(),
            arguments: vec![
                "log".to_string(),
                "-1".to_string(),
                "--pretty=format:%ci".to_string(),
                "post01.md".to_string(),
            ],
        })
    );
}

#[test]
fn a_query_runs_in_the_directory_of_the_file() {
    assert_eq!(git_query("/post.md", None).unwrap().directory, "/");
    assert_eq!(git_query("post.md", None).unwrap().directory, "");
    assert_eq!(git_query("/a/b/c.md", Some("-x")).unwrap().directory, "/a/b");
    assert_eq!(
        git_query("/a/b/c.md", Some("-x")).unwrap().arguments,
        vec!["log", "-1", "--pretty=format:%ci", "-x", "c.md"]
    );
}

#[test]
fn a_path_without_file_name_has_no_query() {
    for path in ["", "/", "/a/b/", "/a/..", "..", ".", "a/."] {
        assert_eq!(git_created(path), Err(Error::FilePathSeparationError));
        assert_eq!(git_modified(path), Err(Error::FilePathSeparationError));
    }
}

#[test]
fn the_date_of_a_commit_is_read_in_utc() {
    assert_eq!(
        git_date(Some(0), "2021-01-01 22:56:55 +0200", ""),
        Ok(Timestamp {
            seconds: 1609534615,
            nanos: 0
        })
    );
    assert_eq!(
        git_date(Some(0), "2021-01-03 12:42:37 +0000", "ignored"),
        Ok(Timestamp {
            seconds: 1609677757,
            nanos: 0
        })
    );
}

#[test]
fn output_that_is_no_date_is_a_parse_error() {
    assert!(matches!(
        git_date(Some(0), "", ""),
        Err(Error::DateParseError(_))
    ));
    assert!(matches!(
        git_date(Some(0), "2021-01-03T12:42:37Z", ""),
        Err(Error::DateParseError(_))
    ));
}

#[test]
fn a_failed_run_gives_its_status_and_error_output() {
    assert_eq!(
        git_date(Some(128), "2021-01-03 12:42:37 +0000", "fatal: not a git repository"),
        Err(Error::ExitError(128, "fatal: not a git repository".to_string()))
    );
    assert_eq!(
        git_date(Some(-1), "", ""),
        Err(Error::ExitError(-1, "".to_string()))
    );
    assert_eq!(
        git_date(None, "2021-01-03 12:42:37 +0000", ""),
        Err(Error::SignalTerminated)
    );
}

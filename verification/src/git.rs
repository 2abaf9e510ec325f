//! Version-history timestamps of a file.
//!
//! The history is asked by running `git log`; this module says which command
//! to run for a file, and reads what the command gave.
use vstd::prelude::*;
use vstd::string::*;
use chrono::DateTime;
use crate::paths::{directory, directory_of, file_name, file_name_of, names_file};
use crate::timestamp::Timestamp;

verus! {

/// Why the history of a file could not be had.
#[derive(Debug, Clone, PartialEq, Eq)]
pub enum Error {
    /// The path does not end in a file name.
    FilePathSeparationError,
    /// The command was ended by a signal.
    SignalTerminated,
    /// The command ended with an exit status other than 0; with the status
    /// and what it wrote to its error stream.
    ExitError(i32, String),
    /// The command's output is no timestamp; with the parser's message.
    DateParseError(String),
    /// The command could not be run; with the message of the failure.
    IOError(String),
}

/// A run of `git`: the directory to run it in, and its arguments.
#[derive(Debug, Clone, PartialEq, Eq)]
pub struct GitQuery {
    pub directory: String,
    pub arguments: Vec<String>,
}

/// The texts that a sequence of strings holds.
pub open spec fn texts(strings: Seq<String>) -> Seq<Seq<char>> {
    Seq::new(strings.len(), |i: int| strings[i]@)
}

/// The arguments that ask for the date of one commit that touched the file
/// `name`: `log -1 --pretty=format:%ci`, the flag if there is one, and `name`.
pub open spec fn query_arguments(flag: Option<Seq<char>>, name: Seq<char>) -> Seq<Seq<char>> {
    match flag {
        Some(flag) => seq!["log"@, "-1"@, "--pretty=format:%ci"@, flag, name],
        None => seq!["log"@, "-1"@, "--pretty=format:%ci"@, name],
    }
}

/// The view of an optional text.
pub open spec fn flag_text(flag: Option<&str>) -> Option<Seq<char>> {
    match flag {
        Some(flag) => Some(flag@),
        None => None,
    }
}

/// The command that asks the history for the date of a commit of `file`: it
/// runs in the directory of `file` and names the file by its file name. A
/// path that ends in no file name has no such command.
pub fn git_query(file: &str, flag: Option<&str>) -> (res: Result<GitQuery, Error>)
    ensures
        match res {
            Ok(query) => {
                &&& names_file(file@)
                &&& query.directory@ == directory_of(file@)
                &&& texts(query.arguments@) == query_arguments(
                    flag_text(flag),
                    file_name_of(file@),
                )
            },
            Err(e) => !names_file(file@) && e == Error::FilePathSeparationError,
        },
{
    match file_name(file) {
        None => Err(Error::FilePathSeparationError),
        Some(name) => {
            let mut arguments: Vec<String> = Vec::new();
            arguments.push("log".to_owned());
            arguments.push("-1".to_owned());
            arguments.push("--pretty=format:%ci".to_owned());
            match flag {
                Some(flag) => {
                    arguments.push(flag.to_owned());
                },
                None => {},
            }
            arguments.push(name.to_owned());
            proof {
                assert(texts(arguments@) =~= query_arguments(flag_text(flag), file_name_of(file@)));
            }
            Ok(GitQuery { directory: directory(file).to_owned(), arguments })
        },
    }
}

/// The command that asks when `file` was first committed.
pub fn git_created(file: &str) -> (res: Result<GitQuery, Error>)
    ensures
        match res {
            Ok(query) => {
                &&& names_file(file@)
                &&& query.directory@ == directory_of(file@)
                &&& texts(query.arguments@) == query_arguments(
                    Some("--diff-filter=A"@),
                    file_name_of(file@),
                )
            },
            Err(e) => !names_file(file@) && e == Error::FilePathSeparationError,
        },
{
    git_query(file, Some("--diff-filter=A"))
}

/// The command that asks when `file` was last committed.
pub fn git_modified(file: &str) -> (res: Result<GitQuery, Error>)
    ensures
        match res {
            Ok(query) => {
                &&& names_file(file@)
                &&& query.directory@ == directory_of(file@)
                &&& texts(query.arguments@) == query_arguments(None, file_name_of(file@))
            },
            Err(e) => !names_file(file@) && e == Error::FilePathSeparationError,
        },
{
    git_query(file, None)
}

/// What chrono makes of `text` under the format `%Y-%m-%d %H:%M:%S %z`: the
/// point in time, or the message of the parse error.
pub uninterp spec fn parsed_commit_date(text: Seq<char>) -> Result<Timestamp, Seq<char>>;

/// Parses `text` with `chrono::DateTime::parse_from_str` under the format
/// `%Y-%m-%d %H:%M:%S %z` and hands back the point in time as seconds and
/// nanoseconds since the epoch, or the message of the error.
#[verifier::external_body]
fn parse_commit_date(text: &str) -> (res: Result<Timestamp, String>)
    ensures
        match res {
            Ok(at) => parsed_commit_date(text@) == Ok::<Timestamp, Seq<char>>(at),
            Err(message) => parsed_commit_date(text@) == Err::<Timestamp, Seq<char>>(message@),
        },
{
    DateTime::parse_from_str(text, "%Y-%m-%d %H:%M:%S %z").map(
        |at| Timestamp { seconds: at.timestamp(), nanos: at.timestamp_subsec_nanos() },
    ).map_err(|e| e.to_string())
}

/// Whether `res` is what a run of the history command says: `code` is its
/// exit status, or `None` where a signal ended it.
///
///  - Status 0: the output parsed as a timestamp, or `DateParseError`.
///  - Another status: `ExitError` with the status and the error output.
///  - No status: `SignalTerminated`.
pub open spec fn date_read_as(
    code: Option<i32>,
    stdout: Seq<char>,
    stderr: Seq<char>,
    res: Result<Timestamp, Error>,
) -> bool {
    match res {
        Ok(at) => code == Some(0i32) && parsed_commit_date(stdout) == Ok::<Timestamp, Seq<char>>(
            at,
        ),
        Err(Error::DateParseError(message)) => code == Some(0i32) && parsed_commit_date(stdout)
            == Err::<Timestamp, Seq<char>>(message@),
        Err(Error::ExitError(status, output)) => code == Some(status) && status != 0 && output@
            == stderr,
        Err(Error::SignalTerminated) => code is None,
        Err(_) => false,
    }
}

/// Reads the outcome of a run of the history command.
pub fn git_date(code: Option<i32>, stdout: &str, stderr: &str) -> (res: Result<Timestamp, Error>)
    ensures
        date_read_as(code, stdout@, stderr@, res),
{
    match code {
        Some(status) => {
            if status == 0 {
                match parse_commit_date(stdout) {
                    Ok(at) => Ok(at),
                    Err(message) => Err(Error::DateParseError(message)),
                }
            } else {
                Err(Error::ExitError(status, stderr.to_owned()))
            }
        },
        None => Err(Error::SignalTerminated),
    }
}

} // verus!

//! URLs of documents and directories, as the `url` crate writes them.
use vstd::prelude::*;

use crate::error::ServiceError;

verus! {

/// The text `url::Url` prints for a URL parsed from `raw`, where it parses.
pub uninterp spec fn url_parse(raw: Seq<char>) -> Option<Seq<char>>;

/// The `file:` URL `url::Url::from_file_path` gives for a path, where the
/// path is absolute.
pub uninterp spec fn file_url(path: Seq<char>) -> Option<Seq<char>>;

/// The `file:` URL `url::Url::from_directory_path` gives for a directory,
/// ending in a slash, where the path is absolute.
pub uninterp spec fn directory_url(path: Seq<char>) -> Option<Seq<char>>;

/// Calls `url::Url::parse` and prints the URL it reads: the result is
/// `url_parse` of the text.
#[verifier::external_body]
pub(crate) fn parse_url(raw: &str) -> (r: Option<String>)
    ensures
        match r {
            Some(u) => url_parse(raw@) == Some(u@),
            None => url_parse(raw@) is None,
        },
{
    match url::Url::parse(raw) {
        Ok(u) => Some(u.to_string()),
        Err(_) => None,
    }
}

/// Calls `url::Url::from_file_path` and prints the URL: the result is
/// `file_url` of the path.
#[verifier::external_body]
pub(crate) fn url_of_file(path: &str) -> (r: Option<String>)
    ensures
        match r {
            Some(u) => file_url(path@) == Some(u@),
            None => file_url(path@) is None,
        },
{
    match url::Url::from_file_path(path) {
        Ok(u) => Some(u.to_string()),
        Err(()) => None,
    }
}

/// Calls `url::Url::from_directory_path` and prints the URL: the result is
/// `directory_url` of the path.
#[verifier::external_body]
pub(crate) fn url_of_directory(path: &str) -> (r: Option<String>)
    ensures
        match r {
            Some(u) => directory_url(path@) == Some(u@),
            None => directory_url(path@) is None,
        },
{
    match url::Url::from_directory_path(path) {
        Ok(u) => Some(u.to_string()),
        Err(()) => None,
    }
}

/// The URI a document is known by: the `file:` URL of its absolute path.
pub fn document_uri(path: &str) -> (r: Result<String, ServiceError>)
    ensures
        match file_url(path@) {
            Some(u) => r matches Ok(v) && v@ == u,
            None => r matches Err(e) && e is InvalidRequest && e.text() == "Некорректный путь к файлу."@,
        },
{
    match url_of_file(path) {
        Some(u) => Ok(u),
        None => Err(ServiceError::InvalidRequest("Некорректный путь к файлу.".to_string())),
    }
}

} // verus!

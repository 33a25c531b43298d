//! Reading hrefs: percent-decoding and the path of a URL.

use crate::result::SyncError;
use vstd::prelude::*;

verus! {

/// The error of `urlencoding::decode`: `std::string::FromUtf8Error`, held
/// as an opaque value.
#[verifier::external_type_specification]
#[verifier::external_body]
pub struct ExFromUtf8Error(std::string::FromUtf8Error);

/// The error of `url::Url::parse`: `url::ParseError`, held as an opaque
/// value.
#[verifier::external_type_specification]
#[verifier::external_body]
pub struct ExParseError(url::ParseError);

/// The text that `urlencoding::decode` makes of `text`, or `None` where it
/// reports that the decoded bytes are not UTF-8.
pub uninterp spec fn percent_decoded(text: Seq<char>) -> Option<Seq<char>>;

/// The path of the URL that `url::Url::parse` reads from `text`, or `None`
/// where it reports that `text` is no absolute URL.
pub uninterp spec fn url_path(text: Seq<char>) -> Option<Seq<char>>;

/// Calls `urlencoding::decode`. The contract claims only that the outcome
/// is a function of `text`: it is `percent_decoded(text)`.
#[verifier::external_body]
fn decode(text: &str) -> (r: Result<String, std::string::FromUtf8Error>)
    ensures
        match r {
            Ok(decoded) => percent_decoded(text@) == Some(decoded@),
            Err(_) => percent_decoded(text@) is None,
        },
{
    match urlencoding::decode(text) {
        Ok(decoded) => Ok(decoded.into_owned()),
        Err(error) => Err(error),
    }
}

/// Calls `url::Url::parse` and, on the URL it returns, `url::Url::path`.
/// The contract claims only that the outcome is a function of `text`: it is
/// `url_path(text)`.
#[verifier::external_body]
fn parse_path(text: &str) -> (r: Result<String, url::ParseError>)
    ensures
        match r {
            Ok(path) => url_path(text@) == Some(path@),
            Err(_) => url_path(text@) is None,
        },
{
    match url::Url::parse(text) {
        Ok(parsed) => Ok(parsed.path().to_string()),
        Err(error) => Err(error),
    }
}

/// What percent-decoding makes of `text`.
pub open spec fn decoded_text(text: Seq<char>) -> Result<Seq<char>, SyncError> {
    match percent_decoded(text) {
        Some(decoded) => Ok(decoded),
        None => Err(SyncError::Encoding),
    }
}

/// The path of `text` read as a URL.
pub open spec fn path_of_url(text: Seq<char>) -> Result<Seq<char>, SyncError> {
    match url_path(text) {
        Some(path) => Ok(path),
        None => Err(SyncError::Url),
    }
}

/// Percent-decodes `text`.
pub fn percent_decode(text: &str) -> (r: Result<String, SyncError>)
    ensures
        match r {
            Ok(decoded) => decoded_text(text@) == Ok::<Seq<char>, SyncError>(decoded@),
            Err(error) => decoded_text(text@) == Err::<Seq<char>, SyncError>(error),
        },
{
    match decode(text) {
        Ok(decoded) => Ok(decoded),
        Err(_) => Err(SyncError::Encoding),
    }
}

/// Reads `text` as a URL and returns its path.
pub fn url_root(text: &str) -> (r: Result<String, SyncError>)
    ensures
        match r {
            Ok(path) => path_of_url(text@) == Ok::<Seq<char>, SyncError>(path@),
            Err(error) => path_of_url(text@) == Err::<Seq<char>, SyncError>(error),
        },
{
    match parse_path(text) {
        Ok(path) => Ok(path),
        Err(_) => Err(SyncError::Url),
    }
}

} // verus!

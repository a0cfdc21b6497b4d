//! Fetch client, pure part: URL validation before any network attempt,
//! and classification of an HTTP response status. The transport itself
//! is an outside capability; callers hand its outcome back in.
use vstd::prelude::*;
use vstd::string::StringExecFns;

verus! {

/// Whether URL parsing accepts `s`.
pub uninterp spec fn url_wellformed(s: Seq<char>) -> bool;

/// Relies on `reqwest::Url` (the `url` crate's `Url`): `str::parse`
/// succeeds or fails as a function of the string alone.
#[verifier::external_body]
fn parse_url_ok(s: &str) -> (r: bool)
    ensures
        r == url_wellformed(s@),
{
    s.parse::<reqwest::Url>().is_ok()
}

/// Errors of the fetch client.
#[derive(Clone, Copy, Debug, PartialEq, Eq, Structural)]
pub enum FetchError {
    /// The URL does not parse; no network attempt is made.
    InvalidUrl,
    /// The request itself failed.
    TransportFailure,
    /// The response carried a non-success status.
    HttpStatus(u16),
}

impl FetchError {
    /// A short description, for callers that surface errors as strings.
    pub fn message(&self) -> (r: String)
        ensures
            r@ == match self {
                FetchError::InvalidUrl => "invalid URL"@,
                FetchError::TransportFailure => "request failed"@,
                FetchError::HttpStatus(_) => "request failed with an error status"@,
            },
    {
        match self {
            FetchError::InvalidUrl => String::from_str("invalid URL"),
            FetchError::TransportFailure => String::from_str("request failed"),
            FetchError::HttpStatus(_) => String::from_str("request failed with an error status"),
        }
    }
}

/// Validates a URL's syntax; every fetch passes this test before any
/// network attempt.
pub fn check_url(s: &str) -> (r: Result<(), FetchError>)
    ensures
        r is Ok <==> url_wellformed(s@),
        r is Err ==> r.unwrap_err() == FetchError::InvalidUrl,
{
    if parse_url_ok(s) {
        Ok(())
    } else {
        Err(FetchError::InvalidUrl)
    }
}

/// A response status counts as success exactly when it is 2xx.
pub open spec fn spec_status_success(code: u16) -> bool {
    200 <= code < 300
}

/// Classifies a response status: a non-2xx status is the
/// `HttpStatus` error carrying the code.
pub fn classify_status(code: u16) -> (r: Result<(), FetchError>)
    ensures
        r is Ok <==> spec_status_success(code),
        r is Err ==> r.unwrap_err() == FetchError::HttpStatus(code),
{
    if 200 <= code && code < 300 {
        Ok(())
    } else {
        Err(FetchError::HttpStatus(code))
    }
}

} // verus!

//! What one fetch comes to: the body of a successful response, or the way
//! in which the request failed.

use crate::text::{int_text, push_int};
use vstd::prelude::*;
use vstd::string::*;

verus! {

/// How a request failed.
#[derive(Clone, Debug)]
pub enum HttpClientError {
    /// The request did not get a response.
    RequestError(String),
    /// The response came with a status outside `200..=299`.
    UnexpectedStatus(u16),
    /// The response was a success, but its body could not be read.
    ReadBodyError,
}

/// A fetch error with its text as a character sequence.
pub enum HttpClientErrorView {
    RequestError(Seq<char>),
    UnexpectedStatus(u16),
    ReadBodyError,
}

impl View for HttpClientError {
    type V = HttpClientErrorView;

    open spec fn view(&self) -> HttpClientErrorView {
        match self {
            HttpClientError::RequestError(s) => HttpClientErrorView::RequestError(s@),
            HttpClientError::UnexpectedStatus(code) => HttpClientErrorView::UnexpectedStatus(*code),
            HttpClientError::ReadBodyError => HttpClientErrorView::ReadBodyError,
        }
    }
}

impl HttpClientErrorView {
    /// The words that describe the error.
    pub open spec fn text(self) -> Seq<char> {
        match self {
            HttpClientErrorView::RequestError(s) => "Request failed: "@ + s,
            HttpClientErrorView::UnexpectedStatus(code) => "Unexpected response status: "@
                + int_text(code as int),
            HttpClientErrorView::ReadBodyError => "Failed to read response body"@,
        }
    }
}

impl HttpClientError {
    /// Describes the error in words.
    pub fn message(&self) -> (r: String)
        ensures
            r@ == self@.text(),
    {
        let mut out = String::new();
        match self {
            HttpClientError::RequestError(s) => {
                out.append("Request failed: ");
                out.append(s.as_str());
            },
            HttpClientError::UnexpectedStatus(code) => {
                out.append("Unexpected response status: ");
                push_int(&mut out, *code as i128);
            },
            HttpClientError::ReadBodyError => {
                out.append("Failed to read response body");
            },
        }
        assert(out@ =~= self@.text());
        out
    }
}

/// What the transport reports of one request.
pub enum FetchEvent {
    /// No response came.
    TransportFailed(String),
    /// A response came, with this status; `body` is its text where it was
    /// read, `None` where reading it failed or was not tried.
    Responded { status: u16, body: Option<String> },
}

/// Whether a status stands for success.
pub open spec fn success_status(status: u16) -> bool {
    200 <= status < 300
}

/// Whether a status stands for success: the range `200..=299`.
pub fn is_success(status: u16) -> (r: bool)
    ensures
        r == success_status(status),
{
    200 <= status && status < 300
}

/// The result of one fetch. The status is looked at before the body: a
/// response without success fails as `UnexpectedStatus` whatever its body.
pub fn fetch_outcome(event: FetchEvent) -> (r: Result<String, HttpClientError>)
    ensures
        match event {
            FetchEvent::TransportFailed(reason) => r matches Err(e) && e@
                == HttpClientErrorView::RequestError(reason@),
            FetchEvent::Responded { status, body } => if !success_status(status) {
                r matches Err(e) && e@ == HttpClientErrorView::UnexpectedStatus(status)
            } else {
                match body {
                    Some(text) => r matches Ok(got) && got@ == text@,
                    None => r matches Err(e) && e@ == HttpClientErrorView::ReadBodyError,
                }
            },
        },
{
    match event {
        FetchEvent::TransportFailed(reason) => Err(HttpClientError::RequestError(reason)),
        FetchEvent::Responded { status, body } => {
            if !is_success(status) {
                Err(HttpClientError::UnexpectedStatus(status))
            } else {
                match body {
                    Some(text) => Ok(text),
                    None => Err(HttpClientError::ReadBodyError),
                }
            }
        },
    }
}

} // verus!

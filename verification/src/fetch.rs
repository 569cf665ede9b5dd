//! The decisions of one fetch.
//!
//! A fetch asks one origin for one feed. The caller sends the request,
//! awaits the answer and has the body parsed; what to do with each answer is
//! decided here. A fetch ends in one of three ways: a feed, a skip that the
//! run forgives, or a failure that ends the run.

use vstd::prelude::*;
use feed_rs::model::Feed as Document;
use feed_rs::parser::ParseFeedError;
use crate::document::{document_contents, feed_of_parse};
use crate::model::Feed;

verus! {

/// The value of the `User-Agent` header of every request.
/// It names the ingester, and in brackets where to reach who runs it.
pub const USER_AGENT: &'static str = "Digest/0.1.0 (+https://digest.jlewis.sh; contact@jlewis.sh)";

/// The value of the `Accept-Encoding` header of every request.
pub const ACCEPT_ENCODING: &'static str = "brotli, zstd, gzip, deflate";

/// At which point of a fetch the transport gave up.
#[derive(Debug, Clone, Copy, PartialEq, Eq, Structural)]
pub enum TransportStage {
    /// No response came back: the connection, the name lookup or the request failed.
    Request,
    /// The response came, but its body could not be read to the end.
    Body,
}

/// Why a fetch failed in a way that ends the whole run.
#[derive(Debug, PartialEq, Eq)]
pub enum FetchError {
    /// The transport failed while fetching `url`.
    Transport { url: String, stage: TransportStage },
    /// The body that `url` answered with is no feed document.
    Parse { url: String, body: String },
    /// A fetch ended without reporting an outcome.
    Join,
}

/// How one fetch ended.
#[derive(Debug, PartialEq, Eq)]
pub enum FetchOutcome {
    /// The origin answered with a document, and this is its feed.
    Feed(Feed),
    /// The origin answered with an error status: the source is left out.
    Skip,
    /// The fetch failed, and the run fails with it.
    HardFailure(FetchError),
}

/// The request of one fetch: a GET of `url` with two fixed headers.
#[derive(Debug, PartialEq, Eq)]
pub struct FetchRequest {
    pub url: String,
    pub user_agent: String,
    pub accept_encoding: String,
}

/// What came back for a request.
#[derive(Debug, PartialEq, Eq)]
pub enum ResponseEvent {
    /// The transport failed before any response.
    Failed,
    /// A response with this status code.
    Status(u16),
}

/// What came of reading a response's body.
#[derive(Debug)]
pub enum BodyEvent {
    /// The body could not be read to the end.
    Failed,
    /// The whole body as text, and what the feed parser made of that text.
    Text { body: String, parsed: Result<Document, ParseFeedError> },
}

/// A fetch whose request is out and whose response has not come yet.
#[derive(Debug)]
pub struct AwaitingResponse {
    url: String,
}

/// A fetch whose response has a status that is no error, and whose body is
/// being read.
#[derive(Debug)]
pub struct AwaitingBody {
    url: String,
}

/// What a fetch does after its response has come.
#[derive(Debug)]
pub enum AfterResponse {
    /// Read the whole body as text, have it parsed, and hand both to
    /// `AwaitingBody::on_body`.
    ReadBody(AwaitingBody),
    /// The fetch is over.
    Done(FetchOutcome),
}

/// The status codes that stand for an error of the client or of the server:
/// the classes 4xx and 5xx.
pub open spec fn is_error_status(status: u16) -> bool {
    400 <= status < 600
}

/// Decides `is_error_status`.
pub fn status_is_error(status: u16) -> (r: bool)
    ensures
        r == is_error_status(status),
{
    400 <= status && status < 600
}

/// How a fetch ends once the parser has spoken: with the feed that it found,
/// unchanged, or with a failure that carries the address and the body.
pub fn conclude_fetch(url: String, body: String, parsed: Option<Feed>) -> (outcome: FetchOutcome)
    ensures
        outcome == match parsed {
            Some(feed) => FetchOutcome::Feed(feed),
            None => FetchOutcome::HardFailure((FetchError::Parse { url, body })),
        },
{
    match parsed {
        Some(feed) => FetchOutcome::Feed(feed),
        None => FetchOutcome::HardFailure(FetchError::Parse { url, body }),
    }
}

/// Starts the fetch of `url`: the request to send, and the fetch that awaits
/// its response.
pub fn begin_fetch(url: String) -> (r: (AwaitingResponse, FetchRequest))
    ensures
        r.0.url() == url,
        r.1.url == url,
        r.1.user_agent@ == USER_AGENT@,
        r.1.accept_encoding@ == ACCEPT_ENCODING@,
{
    let request = FetchRequest {
        url: url.clone(),
        user_agent: USER_AGENT.to_owned(),
        accept_encoding: ACCEPT_ENCODING.to_owned(),
    };
    (AwaitingResponse { url }, request)
}

impl AwaitingResponse {
    /// The address that is being fetched.
    pub closed spec fn url(&self) -> String {
        self.url
    }

    /// Classifies the answer to the request. A failure of the transport ends
    /// the fetch with a hard failure. A status of the classes 4xx and 5xx
    /// ends it with a skip, never with a failure. With any other status the
    /// body is to be read.
    pub fn on_response(self, event: ResponseEvent) -> (next: AfterResponse)
        ensures
            match event {
                ResponseEvent::Failed => next == AfterResponse::Done(
                    FetchOutcome::HardFailure(
                        (FetchError::Transport { url: self.url(), stage: TransportStage::Request }),
                    ),
                ),
                ResponseEvent::Status(status) => if is_error_status(status) {
                    next == AfterResponse::Done(FetchOutcome::Skip)
                } else {
                    next matches AfterResponse::ReadBody(reading) && reading.url() == self.url()
                },
            },
    {
        match event {
            ResponseEvent::Failed => AfterResponse::Done(
                FetchOutcome::HardFailure(
                    FetchError::Transport { url: self.url, stage: TransportStage::Request },
                ),
            ),
            ResponseEvent::Status(status) => {
                if status_is_error(status) {
                    AfterResponse::Done(FetchOutcome::Skip)
                } else {
                    AfterResponse::ReadBody(AwaitingBody { url: self.url })
                }
            },
        }
    }
}

impl AwaitingBody {
    /// The address that is being fetched.
    pub closed spec fn url(&self) -> String {
        self.url
    }

    /// Ends the fetch. A body that could not be read is a hard failure with
    /// the address. Of a body that was read, the parser's answer decides: a
    /// document ends the fetch with its feed, with everything that the
    /// document holds, and an error of the parser ends it with a hard failure
    /// that carries the address and the body. A body never ends in a skip.
    pub fn on_body(self, event: BodyEvent) -> (outcome: FetchOutcome)
        ensures
            match event {
                BodyEvent::Failed => outcome == FetchOutcome::HardFailure(
                    (FetchError::Transport { url: self.url(), stage: TransportStage::Body }),
                ),
                BodyEvent::Text { body, parsed } => match parsed {
                    Ok(document) => outcome matches FetchOutcome::Feed(feed) && feed@
                        == document_contents(document),
                    Err(_) => outcome == FetchOutcome::HardFailure(
                        (FetchError::Parse { url: self.url(), body }),
                    ),
                },
            },
    {
        match event {
            BodyEvent::Failed => FetchOutcome::HardFailure(
                FetchError::Transport { url: self.url, stage: TransportStage::Body },
            ),
            BodyEvent::Text { body, parsed } => {
                let found = feed_of_parse(parsed);
                conclude_fetch(self.url, body, found)
            },
        }
    }
}

} // verus!

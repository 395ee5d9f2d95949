//! One connection as a state machine. The machine decides; its driver reads, writes and
//! touches files, and reports each outcome as an event.

use crate::buffer::buffer_contents;
use crate::decimal::decimal;
use crate::encoding::{
    accepts_gzip, encode_content, encoded, gzip_encoded, gzipped, lemma_gzipped_fields,
    wants_gzip,
};
use crate::error::HttpError;
use crate::headers::{lookup, names_distinct};
use crate::request::{decoded, HttpRequest, RequestView};
use crate::response::{wire, HttpResponse, ResponseView};
use crate::router::{
    file_read, file_written, handle_request, read_outcome, routed, settle, settled, write_outcome,
    Dispatch, DispatchView, ReadReply, ServerConfig,
};
use crate::text::same_text;
use vstd::prelude::*;
use vstd::string::*;

verus! {

/// How many bytes the driver reads from the peer at most for one request. A request that does
/// not arrive whole in one chunk of this size is not put together from several.
pub const READ_CHUNK: usize = 1024;

/// Where a connection stands while its driver is at work. Decoding a request and encoding a
/// response need nothing from outside, so both happen within a step.
#[derive(Clone, Copy, Debug, PartialEq, Eq, Structural)]
pub enum ConnectionState {
    /// The next request is being read from the peer.
    Reading,
    /// A request is being handled and a file is being read (`storing` is false) or written
    /// (`storing` is true) for it. `gzip` tells whether the request accepts a gzip stream.
    Handling { storing: bool, gzip: bool },
    /// A response is being written to the peer.
    Writing,
    /// The connection is over.
    Closed,
}

/// What the driver reports.
#[derive(Debug)]
pub enum Event {
    /// A chunk was read from the peer; the buffer holds it.
    Received(bytes::BytesMut),
    /// Reading from the peer failed.
    ReadFailed,
    /// The file system answered the reading of a file.
    FileRead(ReadReply),
    /// The file was written (`true`), or writing it failed (`false`).
    FileWritten(bool),
    /// The response was written to the peer in full.
    Sent,
    /// Writing to the peer failed.
    SendFailed,
}

/// What the driver is to do next.
#[derive(Debug)]
pub enum Action {
    /// Read one chunk from the peer into a fresh buffer.
    Receive,
    /// Look the file up and read it.
    ReadFile { path: String },
    /// Write `contents` to the file, which is created or emptied first.
    WriteFile { path: String, contents: Vec<u8> },
    /// Write all of `bytes` to the peer.
    Send { bytes: Vec<u8> },
    /// Give the connection up, and report `error` if there is one.
    Close { error: Option<HttpError> },
}

/// Whether the connection is over for the reason `error`.
pub open spec fn closes(next: ConnectionState, action: Action, error: Option<HttpError>) -> bool {
    next == ConnectionState::Closed && action == (Action::Close { error })
}

/// Whether a request asks for the connection to end: its `Connection` field reads `close`.
pub open spec fn asks_to_close(request: RequestView) -> bool {
    lookup(request.headers, "Connection"@) == Some("close"@)
}

/// Whether `next` and `action` are how the connection answers a request that was handled with
/// the outcome `outcome`: the response is settled, brought into the negotiated encoding once
/// and put on the wire. The connection is over instead exactly where the request accepts gzip
/// and the encoder gives no stream.
pub open spec fn answers(
    outcome: Result<ResponseView, HttpError>,
    gzip: bool,
    next: ConnectionState,
    action: Action,
) -> bool {
    match encoded(settled(outcome), gzip) {
        Some(sent) => {
            &&& next == ConnectionState::Writing
            &&& action matches Action::Send { bytes }
            &&& bytes@ == wire(sent)
        },
        None => closes(next, action, Some(HttpError::IoFailure)),
    }
}

/// Whatever the route: where the request accepts gzip and the encoder gives a stream, the
/// answer is the response with that stream for its body, marked as gzip and with the length of
/// the stream declared; a failure of handling is answered so too, as a `500`.
pub proof fn lemma_answers_with_gzip(
    outcome: Result<ResponseView, HttpError>,
    next: ConnectionState,
    action: Action,
)
    requires
        answers(outcome, true, next, action),
        outcome matches Ok(response) ==> names_distinct(response.headers),
    ensures
        match gzip_encoded(settled(outcome).body) {
            Some(stream) => {
                let sent = gzipped(settled(outcome), stream);
                &&& next == ConnectionState::Writing
                &&& action matches Action::Send { bytes }
                &&& bytes@ == wire(sent)
                &&& sent.status_code == settled(outcome).status_code
                &&& sent.body == stream
                &&& lookup(sent.headers, "Content-Encoding"@) == Some("gzip"@)
                &&& lookup(sent.headers, "Content-Length"@) == Some(decimal(stream.len()))
            },
            None => closes(next, action, Some(HttpError::IoFailure)),
        },
{
    if let Some(stream) = gzip_encoded(settled(outcome).body) {
        lemma_gzipped_fields(settled(outcome), gzipped(settled(outcome), stream), Seq::empty());
    }
}

/// Whether `next` and `action` are how the connection goes on after it read `request`.
pub open spec fn serves(
    request: RequestView,
    directory: Option<Seq<char>>,
    next: ConnectionState,
    action: Action,
) -> bool {
    let gzip = accepts_gzip(lookup(request.headers, "Accept-Encoding"@));
    if asks_to_close(request) {
        closes(next, action, None)
    } else {
        match routed(request, directory) {
            Ok(DispatchView::Respond(response)) => answers(Ok(response), gzip, next, action),
            Ok(DispatchView::ReadFile { path }) => {
                &&& next == ConnectionState::Handling { storing: false, gzip }
                &&& action matches Action::ReadFile { path: asked }
                &&& asked@ == path
            },
            Ok(DispatchView::WriteFile { path, contents }) => {
                &&& next == ConnectionState::Handling { storing: true, gzip }
                &&& action matches Action::WriteFile { path: asked, contents: given }
                &&& asked@ == path
                &&& given@ == contents
            },
            Err(e) => answers(Err(e), gzip, next, action),
        }
    }
}

/// Whether the connection goes from `state` to `next` with `action` when `event` is reported.
///
/// While reading: a chunk is decoded, and a request that does not decode ends the connection
/// with the decoder's error; a request that asks to close ends it without a response; any other
/// is routed and answered, or waits for its file. While handling: the file's reply completes
/// the response. While writing: the connection reads on once the response is out. Any failure
/// to read or write ends the connection, and so does an event that the state does not await.
pub open spec fn transition(
    state: ConnectionState,
    event: Event,
    directory: Option<Seq<char>>,
    next: ConnectionState,
    action: Action,
) -> bool {
    match (state, event) {
        (ConnectionState::Closed, _) => closes(next, action, None),
        (ConnectionState::Reading, Event::Received(buffer)) => match decoded(
            buffer_contents(buffer),
        ) {
            Ok(request) => serves(request, directory, next, action),
            Err(e) => closes(next, action, Some(e)),
        },
        (ConnectionState::Handling { storing: false, gzip }, Event::FileRead(reply)) => answers(
            read_outcome(reply),
            gzip,
            next,
            action,
        ),
        (ConnectionState::Handling { storing: true, gzip }, Event::FileWritten(written)) => answers(
            write_outcome(written),
            gzip,
            next,
            action,
        ),
        (ConnectionState::Writing, Event::Sent) => next == ConnectionState::Reading && action
            == Action::Receive,
        _ => closes(next, action, Some(HttpError::IoFailure)),
    }
}

/// How a connection begins: it reads.
pub fn start() -> (first: (ConnectionState, Action))
    ensures
        first.0 == ConnectionState::Reading,
        first.1 == Action::Receive,
{
    (ConnectionState::Reading, Action::Receive)
}

/// The step that closes the connection.
fn close(error: Option<HttpError>) -> (step: (ConnectionState, Action))
    ensures
        closes(step.0, step.1, error),
{
    (ConnectionState::Closed, Action::Close { error })
}

/// Answers a request that was handled with `outcome`.
pub fn answer(outcome: Result<HttpResponse, HttpError>, gzip: bool) -> (step: (
    ConnectionState,
    Action,
))
    ensures
        answers(
            match outcome {
                Ok(response) => Ok(response@),
                Err(e) => Err(e),
            },
            gzip,
            step.0,
            step.1,
        ),
{
    let mut response = settle(outcome);
    match encode_content(&mut response, gzip) {
        Ok(_) => {
            let bytes = response.encode();
            (ConnectionState::Writing, Action::Send { bytes })
        },
        Err(e) => close(Some(e)),
    }
}

/// Goes on after `request` was read.
pub fn serve(request: &HttpRequest, config: &ServerConfig) -> (step: (ConnectionState, Action))
    ensures
        serves(request@, config.directory(), step.0, step.1),
{
    let closing = match request.headers.get("Connection") {
        Some(value) => same_text(value.as_str(), "close"),
        None => false,
    };
    if closing {
        return close(None);
    }
    let gzip = wants_gzip(request.headers.get("Accept-Encoding"));
    match handle_request(request, config) {
        Ok(Dispatch::Respond(response)) => answer(Ok(response), gzip),
        Ok(Dispatch::ReadFile { path }) => (
            ConnectionState::Handling { storing: false, gzip },
            Action::ReadFile { path },
        ),
        Ok(Dispatch::WriteFile { path, contents }) => (
            ConnectionState::Handling { storing: true, gzip },
            Action::WriteFile { path, contents },
        ),
        Err(e) => answer(Err(e), gzip),
    }
}

/// Takes the connection one step further: from `state`, on `event`, to the state and the action
/// that come next.
pub fn step(state: ConnectionState, event: Event, config: &ServerConfig) -> (next: (
    ConnectionState,
    Action,
))
    ensures
        transition(state, event, config.directory(), next.0, next.1),
{
    match (state, event) {
        (ConnectionState::Closed, _) => close(None),
        (ConnectionState::Reading, Event::Received(buffer)) => match HttpRequest::from_bytes(
            buffer,
        ) {
            Ok(request) => serve(&request, config),
            Err(e) => close(Some(e)),
        },
        (ConnectionState::Handling { storing: false, gzip }, Event::FileRead(reply)) => answer(
            file_read(reply),
            gzip,
        ),
        (ConnectionState::Handling { storing: true, gzip }, Event::FileWritten(written)) => answer(
            file_written(written),
            gzip,
        ),
        (ConnectionState::Writing, Event::Sent) => (ConnectionState::Reading, Action::Receive),
        _ => close(Some(HttpError::IoFailure)),
    }
}

} // verus!

//! The routes of the server: which response a request gets, and which file it may touch first.
//!
//! The router never touches the file system itself. Where a response hangs on a file, routing
//! ends in the file operation that is needed; whoever drives the router carries it out and
//! hands the reply to [`file_read`] or [`file_written`].

use crate::decimal::{decimal, decimal_string};
use crate::error::HttpError;
use crate::headers::lookup;
use crate::request::{HttpRequest, RequestView};
use crate::response::{bare, HttpResponse, ResponseView};
use crate::text::{
    lemma_tokens_after_delimiter, lemma_tokens_concat, same_text, split_tokens, tokens, Delimiter,
};
use vstd::prelude::*;
use vstd::slice::slice_to_vec;
use vstd::string::*;
use vstd::utf8::encode_utf8;

verus! {

/// What the server is started with.
#[derive(Debug)]
pub struct ServerConfig {
    /// The directory whose files the `files` route serves and stores. A file's path is this text
    /// followed by the file's name, with nothing put between them.
    pub static_directory: Option<String>,
}

impl Clone for ServerConfig {
    /// A copy for one more connection: the configuration never changes once the server runs.
    fn clone(&self) -> (copy: Self)
        ensures
            copy.directory() == self.directory(),
    {
        ServerConfig {
            static_directory: match &self.static_directory {
                Some(directory) => Some(directory.clone()),
                None => None,
            },
        }
    }
}

impl ServerConfig {
    /// The configured directory, as text.
    pub open spec fn directory(&self) -> Option<Seq<char>> {
        match self.static_directory {
            Some(directory) => Some(directory@),
            None => None,
        }
    }
}

/// Where routing a request ends.
#[derive(Debug)]
pub enum Dispatch {
    /// The response is ready.
    Respond(HttpResponse),
    /// The file at `path` has to be looked up and read first.
    ReadFile { path: String },
    /// `contents` have to be written to the file at `path` first.
    WriteFile { path: String, contents: Vec<u8> },
}

/// What a [`Dispatch`] holds.
pub enum DispatchView {
    Respond(ResponseView),
    ReadFile { path: Seq<char> },
    WriteFile { path: Seq<char>, contents: Seq<u8> },
}

impl View for Dispatch {
    type V = DispatchView;

    open spec fn view(&self) -> DispatchView {
        match self {
            Dispatch::Respond(response) => DispatchView::Respond(response@),
            Dispatch::ReadFile { path } => DispatchView::ReadFile { path: path@ },
            Dispatch::WriteFile { path, contents } => DispatchView::WriteFile {
                path: path@,
                contents: contents@,
            },
        }
    }
}

/// What the file system answers when a file is looked up and read.
#[derive(Debug)]
pub enum ReadReply {
    /// The path could not be looked up, or it names no regular file.
    Absent,
    /// The path names a regular file, which then could not be read.
    Unreadable,
    /// The path names a regular file of `size` bytes, and `contents` were read from it.
    Contents { size: u64, contents: Vec<u8> },
}

/// The segments of a path: what stands between its slashes, empty stretches left out.
pub open spec fn segments(path: Seq<char>) -> Seq<Seq<char>> {
    tokens(path, Delimiter::Slash)
}

/// Empty stretches of a path count for nothing: two slashes in a row are as good as one, and
/// so is a path with or without a slash at either end.
pub proof fn lemma_segments_skip_empty(before: Seq<char>, after: Seq<char>)
    ensures
        segments(before + seq!['/', '/'] + after) == segments(before + seq!['/'] + after),
        segments(seq!['/'] + after) == segments(after),
        segments(before + seq!['/']) == segments(before),
{
    let d = Delimiter::Slash;
    let slash = seq!['/'];
    let cut = before + slash;
    lemma_tokens_concat(cut, slash + after, d);
    lemma_tokens_concat(cut, after, d);
    lemma_tokens_after_delimiter('/', after, d);
    assert(before + seq!['/', '/'] + after =~= cut + (slash + after));
    lemma_tokens_concat(before, slash, d);
    lemma_tokens_after_delimiter('/', Seq::empty(), d);
}

/// A `200 OK` that carries `body` as content of the type `content_type` and declares `length`
/// as its length.
pub open spec fn content(content_type: Seq<char>, length: nat, body: Seq<u8>) -> ResponseView {
    ResponseView {
        status_code: 200,
        headers: seq![("Content-Type"@, content_type), ("Content-Length"@, decimal(length))],
        body,
    }
}

/// A `200 OK` that carries `text` as plain text.
pub open spec fn plain_text(text: Seq<char>) -> ResponseView {
    content("text/plain"@, encode_utf8(text).len(), encode_utf8(text))
}

/// Where routing `request` ends for a server with the static directory `directory`.
///
/// The first segment of the path picks the route. No segment: an empty `200`. `echo`: the second
/// segment as plain text, or an empty text. `user-agent`: the value of the `User-Agent` field as
/// plain text. `files`: with a second segment and a directory, the file named by both is read on
/// `GET` and written with the body on `POST`; without either, `404`. Anything else: `404`.
pub open spec fn routed(request: RequestView, directory: Option<Seq<char>>) -> Result<
    DispatchView,
    HttpError,
> {
    let parts = segments(request.path);
    if parts.len() == 0 {
        Ok(DispatchView::Respond(bare(200)))
    } else if parts[0] == "echo"@ {
        Ok(
            DispatchView::Respond(
                plain_text(
                    if parts.len() > 1 {
                        parts[1]
                    } else {
                        Seq::empty()
                    },
                ),
            ),
        )
    } else if parts[0] == "user-agent"@ {
        match lookup(request.headers, "User-Agent"@) {
            Some(agent) => Ok(DispatchView::Respond(plain_text(agent))),
            None => Err(HttpError::MissingHeader),
        }
    } else if parts[0] == "files"@ {
        match directory {
            Some(root) if parts.len() > 1 => if request.method == "GET"@ {
                Ok(DispatchView::ReadFile { path: root + parts[1] })
            } else if request.method == "POST"@ {
                Ok(DispatchView::WriteFile { path: root + parts[1], contents: request.body })
            } else {
                Err(HttpError::UnsupportedMethod)
            },
            _ => Ok(DispatchView::Respond(bare(404))),
        }
    } else {
        Ok(DispatchView::Respond(bare(404)))
    }
}

/// The response to a `GET` under `files`, given what the file system answered.
pub open spec fn read_outcome(reply: ReadReply) -> Result<ResponseView, HttpError> {
    match reply {
        ReadReply::Absent => Ok(bare(404)),
        ReadReply::Unreadable => Err(HttpError::IoFailure),
        ReadReply::Contents { size, contents } => Ok(
            content("application/octet-stream"@, size as nat, contents@),
        ),
    }
}

/// The response to a `POST` under `files`, given whether the file was written.
pub open spec fn write_outcome(written: bool) -> Result<ResponseView, HttpError> {
    if written {
        Ok(bare(201))
    } else {
        Err(HttpError::IoFailure)
    }
}

/// The response that leaves the router: the one that handling produced, or an empty `500` where
/// handling failed.
pub open spec fn settled(outcome: Result<ResponseView, HttpError>) -> ResponseView {
    match outcome {
        Ok(response) => response,
        Err(_) => bare(500),
    }
}

/// Builds the `200 OK` that carries `body`.
fn content_response(content_type: &str, length: u64, body: Vec<u8>) -> (response: HttpResponse)
    ensures
        response@ == content(content_type@, length as nat, body@),
{
    let mut response = HttpResponse::ok();
    response.set_header("Content-Type".to_owned(), content_type.to_owned());
    response.set_header("Content-Length".to_owned(), decimal_string(length));
    response.set_body(body);
    proof {
        reveal_strlit("Content-Type");
        reveal_strlit("Content-Length");
        let first = ("Content-Type"@, content_type@);
        let second = ("Content-Length"@, decimal(length as nat));
        assert("Content-Type"@.len() != "Content-Length"@.len());
        assert(response@.headers =~= seq![first, second]);
    }
    response
}

/// Builds the `200 OK` that carries `text` as plain text.
fn text_response(text: &str) -> (response: HttpResponse)
    ensures
        response@ == plain_text(text@),
{
    let body = slice_to_vec(text.as_bytes());
    let length: usize = body.len();
    content_response("text/plain", length as u64, body)
}

/// Routes `request`: the response, or the file operation on which the response hangs.
pub fn handle_request(request: &HttpRequest, config: &ServerConfig) -> (outcome: Result<
    Dispatch,
    HttpError,
>)
    ensures
        match outcome {
            Ok(dispatch) => routed(request@, config.directory()) == Ok::<DispatchView, HttpError>(
                dispatch@,
            ),
            Err(e) => routed(request@, config.directory()) == Err::<DispatchView, HttpError>(e),
        },
{
    let parts = split_tokens(request.path.as_str(), Delimiter::Slash);
    if parts.len() == 0 {
        return Ok(Dispatch::Respond(HttpResponse::ok()));
    }
    let first = parts[0];
    if same_text(first, "echo") {
        let message = if parts.len() > 1 {
            parts[1]
        } else {
            proof {
                reveal_strlit("");
            }
            ""
        };
        Ok(Dispatch::Respond(text_response(message)))
    } else if same_text(first, "user-agent") {
        match request.headers.get("User-Agent") {
            Some(agent) => Ok(Dispatch::Respond(text_response(agent.as_str()))),
            None => Err(HttpError::MissingHeader),
        }
    } else if same_text(first, "files") {
        match &config.static_directory {
            Some(root) if parts.len() > 1 => {
                let path = root.clone().concat(parts[1]);
                if same_text(request.method.as_str(), "GET") {
                    Ok(Dispatch::ReadFile { path })
                } else if same_text(request.method.as_str(), "POST") {
                    Ok(Dispatch::WriteFile { path, contents: request.body.clone() })
                } else {
                    Err(HttpError::UnsupportedMethod)
                }
            },
            _ => Ok(Dispatch::Respond(HttpResponse::not_found())),
        }
    } else {
        Ok(Dispatch::Respond(HttpResponse::not_found()))
    }
}

/// Completes a `GET` under `files` with what the file system answered.
pub fn file_read(reply: ReadReply) -> (outcome: Result<HttpResponse, HttpError>)
    ensures
        match outcome {
            Ok(response) => read_outcome(reply) == Ok::<ResponseView, HttpError>(response@),
            Err(e) => read_outcome(reply) == Err::<ResponseView, HttpError>(e),
        },
{
    match reply {
        ReadReply::Absent => Ok(HttpResponse::not_found()),
        ReadReply::Unreadable => Err(HttpError::IoFailure),
        ReadReply::Contents { size, contents } => Ok(
            content_response("application/octet-stream", size, contents),
        ),
    }
}

/// Completes a `POST` under `files`, given whether the file was written.
pub fn file_written(written: bool) -> (outcome: Result<HttpResponse, HttpError>)
    ensures
        match outcome {
            Ok(response) => write_outcome(written) == Ok::<ResponseView, HttpError>(response@),
            Err(e) => write_outcome(written) == Err::<ResponseView, HttpError>(e),
        },
{
    if written {
        Ok(HttpResponse::created())
    } else {
        Err(HttpError::IoFailure)
    }
}

/// The response that leaves the router: a failure of handling becomes an empty `500`.
pub fn settle(outcome: Result<HttpResponse, HttpError>) -> (response: HttpResponse)
    ensures
        response@ == settled(
            match outcome {
                Ok(r) => Ok(r@),
                Err(e) => Err(e),
            },
        ),
{
    match outcome {
        Ok(response) => response,
        Err(_) => HttpResponse::internal_server_error(),
    }
}

} // verus!

//! What can go wrong while a request is decoded or handled.

use vstd::prelude::*;

verus! {

/// The failures of the server core.
#[derive(Clone, Copy, Debug, PartialEq, Eq, Structural)]
pub enum HttpError {
    /// The buffer holds no empty line that would end the head of a request.
    MalformedFraming,
    /// The head of the request is not UTF-8 text.
    InvalidEncoding,
    /// The request line does not consist of exactly three tokens.
    MalformedRequestLine,
    /// A header line does not hold exactly one `": "`.
    MalformedHeader,
    /// Reading or writing a socket or a file failed.
    IoFailure,
    /// A file was asked for with a method other than `GET` and `POST`.
    UnsupportedMethod,
    /// The request lacks a header field that its route needs.
    MissingHeader,
}

} // verus!

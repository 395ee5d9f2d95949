//! A minimal HTTP/1.1 server core: request decoding, routing, response encoding, gzip content
//! negotiation and the per-connection state machine, with every rule stated as a contract.
//!
//! The crate performs no I/O. A driver reads from the socket, touches the file system and
//! writes the response; [`connection::step`] tells it what to do next.

pub mod buffer;
pub mod connection;
pub mod decimal;
pub mod encoding;
pub mod error;
pub mod framing;
pub mod headers;
pub mod messages;
pub mod request;
pub mod response;
pub mod router;
pub mod text;

pub use connection::{step, Action, ConnectionState, Event};
pub use encoding::compress;
pub use error::HttpError;
pub use headers::Headers;
pub use request::HttpRequest;
pub use response::HttpResponse;
pub use router::{handle_request, Dispatch, ReadReply, ServerConfig};

//! Content negotiation: a response is sent as a gzip stream where the request accepts one.

use crate::decimal::{decimal, decimal_string};
use crate::error::HttpError;
use crate::headers::{
    lemma_upsert_keeps_names_distinct, lemma_upsert_lookup, lookup, names_distinct, upsert,
};
use crate::response::{HttpResponse, ResponseView};
use crate::text::{contains, text_contains};
use std::io::Write;
use vstd::prelude::*;
use vstd::string::*;

verus! {

/// The gzip stream that `flate2`'s encoder writes for `data` at the default level, or nothing
/// where the encoder reports an error. The stream hangs on `data` alone: the level is fixed,
/// and the header that the encoder writes carries no time and no trace of the machine.
pub uninterp spec fn gzip_encoded(data: Seq<u8>) -> Option<Seq<u8>>;

/// `flate2::write::GzEncoder::new` over an empty vector at `Compression::default()`, then
/// `write_all` of `data` and `finish`: the stream that came out, or nothing where one of the
/// two reported an error. The contract gives the outcome its name and claims nothing else.
#[verifier::external_body]
fn gzip_stream(data: &[u8]) -> (stream: Option<Vec<u8>>)
    ensures
        match stream {
            Some(s) => gzip_encoded(data@) == Some(s@),
            None => gzip_encoded(data@) is None,
        },
{
    let mut encoder = flate2::write::GzEncoder::new(Vec::new(), flate2::Compression::default());
    match encoder.write_all(data) {
        Ok(()) => match encoder.finish() {
            Ok(stream) => Some(stream),
            Err(_) => None,
        },
        Err(_) => None,
    }
}

/// Whether a request with this `Accept-Encoding` value takes a gzip stream: the value holds
/// the letters `gzip` somewhere. Nothing else of the value is read.
pub open spec fn accepts_gzip(accept_encoding: Option<Seq<char>>) -> bool {
    match accept_encoding {
        Some(value) => contains(value, "gzip"@),
        None => false,
    }
}

/// `response` with `stream` for its body, marked as gzip and with the length of `stream`
/// declared.
pub open spec fn gzipped(response: ResponseView, stream: Seq<u8>) -> ResponseView {
    ResponseView {
        status_code: response.status_code,
        headers: upsert(
            upsert(response.headers, "Content-Encoding"@, "gzip"@),
            "Content-Length"@,
            decimal(stream.len()),
        ),
        body: stream,
    }
}

/// `response` in the encoding that was negotiated: with the gzip stream of its body in place
/// of the body where `gzip` holds, and as it is where it does not. There is none where the
/// encoder gives no stream.
pub open spec fn encoded(response: ResponseView, gzip: bool) -> Option<ResponseView> {
    if gzip {
        match gzip_encoded(response.body) {
            Some(stream) => Some(gzipped(response, stream)),
            None => None,
        }
    } else {
        Some(response)
    }
}

/// What a gzip response tells its reader: that its body is a gzip stream, and how long that
/// stream is. The body is the stream of the body that was to be sent; status and other fields
/// are as before.
pub proof fn lemma_gzipped_fields(response: ResponseView, sent: ResponseView, other: Seq<char>)
    requires
        names_distinct(response.headers),
        encoded(response, true) == Some(sent),
    ensures
        sent.status_code == response.status_code,
        gzip_encoded(response.body) == Some(sent.body),
        lookup(sent.headers, "Content-Encoding"@) == Some("gzip"@),
        lookup(sent.headers, "Content-Length"@) == Some(decimal(sent.body.len())),
        other != "Content-Encoding"@ && other != "Content-Length"@ ==> lookup(sent.headers, other)
            == lookup(response.headers, other),
        names_distinct(sent.headers),
{
    reveal_strlit("Content-Encoding");
    reveal_strlit("Content-Length");
    assert("Content-Encoding"@.len() != "Content-Length"@.len());
    let marked = upsert(response.headers, "Content-Encoding"@, "gzip"@);
    let length = decimal(sent.body.len());
    lemma_upsert_keeps_names_distinct(response.headers, "Content-Encoding"@, "gzip"@);
    lemma_upsert_keeps_names_distinct(marked, "Content-Length"@, length);
    lemma_upsert_lookup(response.headers, "Content-Encoding"@, "gzip"@, other);
    lemma_upsert_lookup(marked, "Content-Length"@, length, "Content-Encoding"@);
    lemma_upsert_lookup(marked, "Content-Length"@, length, other);
}

/// What an optional header value reads.
pub open spec fn value_of(field: Option<&String>) -> Option<Seq<char>> {
    match field {
        Some(value) => Some(value@),
        None => None,
    }
}

/// Whether a request with this `Accept-Encoding` value takes a gzip stream.
pub fn wants_gzip(accept_encoding: Option<&String>) -> (wanted: bool)
    ensures
        wanted == accepts_gzip(value_of(accept_encoding)),
{
    match accept_encoding {
        Some(value) => text_contains(value.as_str(), "gzip"),
        None => false,
    }
}

/// Puts the gzip stream `stream` in the place of the body of `response`.
pub fn apply_gzip(response: &mut HttpResponse, stream: Vec<u8>)
    ensures
        final(response)@ == gzipped(old(response)@, stream@),
{
    let length: usize = stream.len();
    response.set_body(stream);
    response.set_header("Content-Encoding".to_owned(), "gzip".to_owned());
    response.set_header("Content-Length".to_owned(), decimal_string(length as u64));
}

/// Brings `response` into the encoding that was negotiated. Fails exactly where `gzip` holds
/// and the encoder gives no stream, and then changes nothing.
pub fn encode_content(response: &mut HttpResponse, gzip: bool) -> (done: Result<(), HttpError>)
    ensures
        match done {
            Ok(_) => encoded(old(response)@, gzip) == Some(final(response)@),
            Err(e) => e == HttpError::IoFailure && encoded(old(response)@, gzip) is None
                && final(response)@ == old(response)@,
        },
{
    if !gzip {
        return Ok(());
    }
    match gzip_stream(response.body.as_slice()) {
        Some(stream) => {
            apply_gzip(response, stream);
            Ok(())
        },
        None => Err(HttpError::IoFailure),
    }
}

/// Compresses the body of `response` where the request accepts gzip, and leaves the response as
/// it is where it does not. Fails exactly where the request accepts gzip and the encoder gives
/// no stream, and then changes nothing.
///
/// A response that was compressed says so in `Content-Encoding` and declares the length of the
/// stream in `Content-Length`.
pub fn compress(response: &mut HttpResponse, accept_encoding: Option<&String>) -> (done: Result<
    (),
    HttpError,
>)
    ensures
        match done {
            Ok(_) => encoded(old(response)@, accepts_gzip(value_of(accept_encoding))) == Some(
                final(response)@,
            ),
            Err(e) => e == HttpError::IoFailure && encoded(
                old(response)@,
                accepts_gzip(value_of(accept_encoding)),
            ) is None && final(response)@ == old(response)@,
        },
        done is Ok && accepts_gzip(value_of(accept_encoding)) ==> {
            &&& gzip_encoded(old(response)@.body) == Some(final(response)@.body)
            &&& lookup(final(response)@.headers, "Content-Encoding"@) == Some("gzip"@)
            &&& lookup(final(response)@.headers, "Content-Length"@) == Some(
                decimal(final(response)@.body.len()),
            )
        },
{
    proof {
        use_type_invariant(&response.headers);
    }
    let ghost before = response@;
    let done = encode_content(response, wants_gzip(accept_encoding));
    proof {
        if done is Ok && accepts_gzip(value_of(accept_encoding)) {
            lemma_gzipped_fields(before, response@, Seq::empty());
        }
    }
    done
}

} // verus!

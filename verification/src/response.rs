//! Responses and their HTTP/1.1 wire form.

use crate::decimal::{decimal, decimal_string};
use crate::headers::{upsert, Headers};
use vstd::prelude::*;
use vstd::string::*;
use vstd::utf8::encode_utf8;

verus! {

/// A response: status, header fields and body.
#[derive(Debug)]
pub struct HttpResponse {
    pub status_code: u16,
    pub headers: Headers,
    pub body: Vec<u8>,
}

/// What a response holds.
pub struct ResponseView {
    pub status_code: u16,
    pub headers: Seq<(Seq<char>, Seq<char>)>,
    pub body: Seq<u8>,
}

impl View for HttpResponse {
    type V = ResponseView;

    open spec fn view(&self) -> ResponseView {
        ResponseView { status_code: self.status_code, headers: self.headers@, body: self.body@ }
    }
}

/// A response of the given status with no header field and an empty body.
pub open spec fn bare(status_code: u16) -> ResponseView {
    ResponseView { status_code, headers: Seq::empty(), body: Seq::empty() }
}

/// The reason phrase that the status line gives for `status_code`.
pub open spec fn reason_phrase(status_code: u16) -> Seq<char> {
    if status_code == 200 {
        "OK"@
    } else if status_code == 201 {
        "Created"@
    } else if status_code == 404 {
        "Not Found"@
    } else if status_code == 500 {
        "Internal Server Error"@
    } else {
        "Unknown"@
    }
}

/// The status line: `HTTP/1.1`, the code, its reason phrase, and the line end.
pub open spec fn status_line(status_code: u16) -> Seq<u8> {
    encode_utf8("HTTP/1.1 "@) + encode_utf8(decimal(status_code as nat)) + encode_utf8(" "@)
        + encode_utf8(reason_phrase(status_code)) + encode_utf8("\r\n"@)
}

/// The line of one header field: name, `": "`, value, and the line end. Nothing is escaped.
pub open spec fn header_line(header: (Seq<char>, Seq<char>)) -> Seq<u8> {
    encode_utf8(header.0) + encode_utf8(": "@) + encode_utf8(header.1) + encode_utf8("\r\n"@)
}

/// The lines of `headers`, one after the other.
pub open spec fn header_block(headers: Seq<(Seq<char>, Seq<char>)>) -> Seq<u8>
    decreases headers.len(),
{
    if headers.len() == 0 {
        Seq::empty()
    } else {
        header_block(headers.drop_last()) + header_line(headers.last())
    }
}

/// The head of a response on the wire: the status line and the header lines.
pub open spec fn head(response: ResponseView) -> Seq<u8> {
    status_line(response.status_code) + header_block(response.headers)
}

/// A response on the wire: its head, an empty line, and the body as it is.
pub open spec fn wire(response: ResponseView) -> Seq<u8> {
    head(response) + encode_utf8("\r\n"@) + response.body
}

/// Appends the UTF-8 form of `text` to `out`.
fn put(out: &mut Vec<u8>, text: &str)
    ensures
        final(out)@ == old(out)@ + encode_utf8(text@),
{
    out.extend_from_slice(text.as_bytes());
}

impl HttpResponse {
    /// A response of the given status with no header field and an empty body.
    pub fn new(status_code: u16) -> (response: Self)
        ensures
            response@ == bare(status_code),
    {
        HttpResponse { status_code, headers: Headers::new(), body: Vec::new() }
    }

    /// An empty `404 Not Found`.
    pub fn not_found() -> (response: Self)
        ensures
            response@ == bare(404),
    {
        HttpResponse::new(404)
    }

    /// An empty `200 OK`.
    pub fn ok() -> (response: Self)
        ensures
            response@ == bare(200),
    {
        HttpResponse::new(200)
    }

    /// An empty `201 Created`.
    pub fn created() -> (response: Self)
        ensures
            response@ == bare(201),
    {
        HttpResponse::new(201)
    }

    /// An empty `500 Internal Server Error`.
    pub fn internal_server_error() -> (response: Self)
        ensures
            response@ == bare(500),
    {
        HttpResponse::new(500)
    }

    /// Sets the header field `header` to `value`; a value that the name had is overwritten.
    pub fn set_header(&mut self, header: String, value: String)
        ensures
            final(self)@ == (ResponseView {
                headers: upsert(old(self)@.headers, header@, value@),
                ..old(self)@
            }),
    {
        self.headers.insert(header, value);
    }

    /// Replaces the body. No header field changes.
    pub fn set_body(&mut self, body: Vec<u8>)
        ensures
            final(self)@ == (ResponseView { body: body@, ..old(self)@ }),
    {
        self.body = body;
    }

    /// The reason phrase of the status: `Unknown` for a code that has none here.
    pub fn reason(&self) -> (phrase: String)
        ensures
            phrase@ == reason_phrase(self.status_code),
    {
        if self.status_code == 200 {
            "OK".to_owned()
        } else if self.status_code == 201 {
            "Created".to_owned()
        } else if self.status_code == 404 {
            "Not Found".to_owned()
        } else if self.status_code == 500 {
            "Internal Server Error".to_owned()
        } else {
            "Unknown".to_owned()
        }
    }

    /// The bytes that go on the wire for this response.
    pub fn encode(&self) -> (bytes: Vec<u8>)
        ensures
            bytes@ == wire(self@),
    {
        let mut out: Vec<u8> = Vec::new();
        put(&mut out, "HTTP/1.1 ");
        put(&mut out, decimal_string(self.status_code as u64).as_str());
        put(&mut out, " ");
        put(&mut out, self.reason().as_str());
        put(&mut out, "\r\n");
        let count: usize = self.headers.len();
        let mut i: usize = 0;
        while i < count
            invariant
                i <= count == self.headers@.len(),
                out@ == status_line(self.status_code) + header_block(self.headers@.take(i as int)),
            decreases count - i,
        {
            put(&mut out, self.headers.name_at(i).as_str());
            put(&mut out, ": ");
            put(&mut out, self.headers.value_at(i).as_str());
            put(&mut out, "\r\n");
            assert(self.headers@.take(i + 1).drop_last() =~= self.headers@.take(i as int));
            i += 1;
        }
        assert(self.headers@.take(i as int) =~= self.headers@);
        put(&mut out, "\r\n");
        out.extend_from_slice(self.body.as_slice());
        out
    }
}

} // verus!

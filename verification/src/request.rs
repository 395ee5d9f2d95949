//! Requests and how they are decoded from the bytes of a read buffer.

use crate::buffer::{buffer_bytes, buffer_contents};
use crate::decimal::{parse_usize, parse_word};
use crate::error::HttpError;
use crate::headers::{lookup, upsert, Headers};
use crate::text::{
    chars_of, contains, find, is_word, lemma_tokens_after_delimiter, lemma_tokens_after_word,
    lines, occurs_at, split_lines, split_tokens, tokens, utf8_text, views, Delimiter,
};
use vstd::prelude::*;
use vstd::slice::{slice_subrange, slice_to_vec};
use vstd::string::*;
use vstd::utf8::{decode_utf8, encode_utf8_decode_utf8, valid_utf8};

verus! {

/// A request: method, path, header fields and body.
#[derive(Debug)]
pub struct HttpRequest {
    pub method: String,
    pub path: String,
    pub headers: Headers,
    pub body: Vec<u8>,
}

/// What a request holds.
pub struct RequestView {
    pub method: Seq<char>,
    pub path: Seq<char>,
    pub headers: Seq<(Seq<char>, Seq<char>)>,
    pub body: Seq<u8>,
}

impl View for HttpRequest {
    type V = RequestView;

    open spec fn view(&self) -> RequestView {
        RequestView {
            method: self.method@,
            path: self.path@,
            headers: self.headers@,
            body: self.body@,
        }
    }
}

/// Whether the four bytes CR LF CR LF stand in `bytes` at index `i`.
pub open spec fn blank_line_at(bytes: Seq<u8>, i: int) -> bool {
    0 <= i && i + 4 <= bytes.len() && bytes[i] == 13 && bytes[i + 1] == 10 && bytes[i + 2] == 13
        && bytes[i + 3] == 10
}

/// Whether `i` is where CR LF CR LF first stands in `bytes`.
pub open spec fn head_ends_at(bytes: Seq<u8>, i: int) -> bool {
    blank_line_at(bytes, i) && forall|j: int| 0 <= j < i ==> !blank_line_at(bytes, j)
}

/// Where the head of the message in `bytes` ends: the index of the first CR LF CR LF.
pub open spec fn head_end(bytes: Seq<u8>) -> Option<int> {
    if exists|i: int| head_ends_at(bytes, i) {
        Some(choose|i: int| head_ends_at(bytes, i))
    } else {
        None
    }
}

/// Finds where the head of the message in `bytes` ends.
pub fn find_head_end(bytes: &[u8]) -> (end: Option<usize>)
    ensures
        match end {
            Some(i) => head_end(bytes@) == Some(i as int) && i + 4 <= bytes@.len(),
            None => head_end(bytes@) is None,
        },
{
    if bytes.len() < 4 {
        return None;
    }
    let last: usize = bytes.len() - 4;
    let mut i: usize = 0;
    loop
        invariant
            i <= last,
            last + 4 == bytes@.len(),
            forall|j: int| 0 <= j < i ==> !blank_line_at(bytes@, j),
        decreases last - i,
    {
        if bytes[i] == 13 && bytes[i + 1] == 10 && bytes[i + 2] == 13 && bytes[i + 3] == 10 {
            assert(head_ends_at(bytes@, i as int));
            return Some(i);
        }
        if i == last {
            return None;
        }
        i += 1;
    }
}

/// The method and the path that a request line names: its first two tokens, where white space
/// cuts it into exactly three.
pub open spec fn request_line(line: Seq<char>) -> Option<(Seq<char>, Seq<char>)> {
    let parts = tokens(line, Delimiter::Whitespace);
    if parts.len() == 3 {
        Some((parts[0], parts[1]))
    } else {
        None
    }
}

/// Reads a request line. It is well formed exactly when it has three tokens.
pub fn parse_request_line(line: &str) -> (parsed: Result<(String, String), HttpError>)
    ensures
        parsed is Ok <==> tokens(line@, Delimiter::Whitespace).len() == 3,
        match parsed {
            Ok((method, path)) => request_line(line@) == Some((method@, path@)),
            Err(e) => e == HttpError::MalformedRequestLine,
        },
{
    let parts = split_tokens(line, Delimiter::Whitespace);
    if parts.len() != 3 {
        return Err(HttpError::MalformedRequestLine);
    }
    Ok((parts[0].to_owned(), parts[1].to_owned()))
}

/// A line of three words with one space between them is a request line, and names the first
/// word as method and the second as path.
pub proof fn lemma_request_line_of_words(method: Seq<char>, path: Seq<char>, version: Seq<char>)
    requires
        is_word(method, Delimiter::Whitespace),
        is_word(path, Delimiter::Whitespace),
        is_word(version, Delimiter::Whitespace),
    ensures
        request_line(method + seq![' '] + path + seq![' '] + version) == Some((method, path)),
{
    let d = Delimiter::Whitespace;
    let line = method + seq![' '] + path + seq![' '] + version;
    let after_method = seq![' '] + (path + (seq![' '] + version));
    let after_path = seq![' '] + version;
    assert(line =~= method + after_method);
    lemma_tokens_after_word(method, after_method, d);
    lemma_tokens_after_delimiter(' ', path + after_path, d);
    lemma_tokens_after_word(path, after_path, d);
    lemma_tokens_after_delimiter(' ', version, d);
    lemma_tokens_after_word(version, Seq::empty(), d);
}

/// The two characters that part the name of a header field from its value.
pub open spec fn colon_space() -> Seq<char> {
    seq![':', ' ']
}

/// Whether `": "` stands in `line` at index `i` and nowhere else.
pub open spec fn parts_at(line: Seq<char>, i: int) -> bool {
    occurs_at(line, colon_space(), i) && forall|j: int|
        occurs_at(line, colon_space(), j) ==> j == i
}

/// The name and the value of a header line: what stands before and after its `": "`, where the
/// line holds exactly one. Neither is trimmed.
pub open spec fn header_parts(line: Seq<char>) -> Option<(Seq<char>, Seq<char>)> {
    if exists|i: int| parts_at(line, i) {
        let i = choose|i: int| parts_at(line, i);
        Some((line.take(i), line.skip(i + 2)))
    } else {
        None
    }
}

/// Reads a header line. It is well formed exactly when it holds one `": "`.
pub fn parse_header(line: &str) -> (parsed: Result<(String, String), HttpError>)
    ensures
        parsed is Ok <==> exists|i: int| parts_at(line@, i),
        match parsed {
            Ok((name, value)) => header_parts(line@) == Some((name@, value@)),
            Err(e) => e == HttpError::MalformedHeader,
        },
{
    let chars = chars_of(line);
    let total: usize = chars.len();
    let mut pattern: Vec<char> = Vec::new();
    pattern.push(':');
    pattern.push(' ');
    assert(pattern@ =~= colon_space());
    match find(chars.as_slice(), pattern.as_slice(), 0) {
        None => {
            assert forall|i: int| !parts_at(line@, i) by {}
            Err(HttpError::MalformedHeader)
        },
        Some(i) => {
            let again = find(chars.as_slice(), pattern.as_slice(), i + 1);
            if again.is_some() {
                assert forall|k: int| !parts_at(line@, k) by {}
                return Err(HttpError::MalformedHeader);
            }
            assert(parts_at(line@, i as int));
            let name = line.substring_char(0, i);
            let value = line.substring_char(i + 2, total);
            Ok((name.to_owned(), value.to_owned()))
        },
    }
}

/// The header fields that `lines` give, added to `fields` in their order. Reading stops at the
/// first empty line; a line before it that is no header line spoils the whole.
pub open spec fn header_fields(
    lines: Seq<Seq<char>>,
    fields: Seq<(Seq<char>, Seq<char>)>,
) -> Option<Seq<(Seq<char>, Seq<char>)>>
    decreases lines.len(),
{
    if lines.len() == 0 || lines[0].len() == 0 {
        Some(fields)
    } else {
        match header_parts(lines[0]) {
            Some((name, value)) => header_fields(lines.skip(1), upsert(fields, name, value)),
            None => None,
        }
    }
}

/// The length that `headers` declare for the body: the value of `Content-Length` where it is a
/// decimal numeral that fits the machine word, else 0.
pub open spec fn content_length(headers: Seq<(Seq<char>, Seq<char>)>) -> nat {
    match lookup(headers, "Content-Length"@) {
        Some(value) => match parse_word(value) {
            Some(n) => n as nat,
            None => 0,
        },
        None => 0,
    }
}

/// The declared length of the body, cut down to the `available` bytes.
pub open spec fn body_length(headers: Seq<(Seq<char>, Seq<char>)>, available: nat) -> nat {
    if content_length(headers) <= available {
        content_length(headers)
    } else {
        available
    }
}

/// The request line of a head: its first line, or an empty line where the head has none.
pub open spec fn first_line(head: Seq<char>) -> Seq<char> {
    if lines(head).len() > 0 {
        lines(head)[0]
    } else {
        Seq::empty()
    }
}

/// The request whose head reads `head` and whose body is taken from `rest`, the bytes that
/// follow the head. The first line of the head is the request line, the lines after it are
/// header lines, and the body is the declared number of bytes of `rest`, or all of `rest` where
/// fewer are there.
pub open spec fn decoded_message(head: Seq<char>, rest: Seq<u8>) -> Result<RequestView, HttpError> {
    match request_line(first_line(head)) {
        None => Err(HttpError::MalformedRequestLine),
        Some((method, path)) => match header_fields(lines(head).skip(1), Seq::empty()) {
            None => Err(HttpError::MalformedHeader),
            Some(headers) => Ok(
                RequestView {
                    method,
                    path,
                    headers,
                    body: rest.take(body_length(headers, rest.len()) as int),
                },
            ),
        },
    }
}

/// The request that `bytes` hold, or why they hold none. The head of the request is what stands
/// before the first CR LF CR LF, and it has to be UTF-8 text.
pub open spec fn decoded(bytes: Seq<u8>) -> Result<RequestView, HttpError> {
    match head_end(bytes) {
        None => Err(HttpError::MalformedFraming),
        Some(end) => if valid_utf8(bytes.take(end)) {
            decoded_message(decode_utf8(bytes.take(end)), bytes.skip(end + 4))
        } else {
            Err(HttpError::InvalidEncoding)
        },
    }
}

/// The number of lines that stand before the first empty line of `lines`.
pub open spec fn leading_lines(lines: Seq<Seq<char>>) -> int
    decreases lines.len(),
{
    if lines.len() == 0 || lines[0].len() == 0 {
        0
    } else {
        1 + leading_lines(lines.skip(1))
    }
}

/// A line made of a name, `": "` and a value is a header line of that name and that value,
/// where neither the name nor the value holds a `": "` of its own.
pub proof fn lemma_header_line_parts(name: Seq<char>, value: Seq<char>)
    requires
        !contains(name, colon_space()),
        !contains(value, colon_space()),
    ensures
        header_parts(name + colon_space() + value) == Some((name, value)),
{
    let line = name + colon_space() + value;
    let at = name.len() as int;
    assert(line.subrange(at, at + 2) =~= colon_space());
    assert forall|j: int| occurs_at(line, colon_space(), j) implies j == at by {
        if j + 2 <= at {
            assert(name.subrange(j, j + 2) =~= line.subrange(j, j + 2));
            assert(occurs_at(name, colon_space(), j));
        } else if j >= at + 2 {
            let k = j - at - 2;
            assert(value.subrange(k, k + 2) =~= line.subrange(j, j + 2));
            assert(occurs_at(value, colon_space(), k));
        }
    }
    assert(parts_at(line, at));
}

/// Header lines are read to the end exactly when every line before the first empty one holds
/// one `": "`.
pub proof fn lemma_header_fields_decides(
    lines: Seq<Seq<char>>,
    fields: Seq<(Seq<char>, Seq<char>)>,
)
    ensures
        0 <= leading_lines(lines) <= lines.len(),
        header_fields(lines, fields) is Some <==> forall|k: int|
            0 <= k < leading_lines(lines) ==> header_parts(#[trigger] lines[k]) is Some,
    decreases lines.len(),
{
    if lines.len() == 0 || lines[0].len() == 0 {
    } else {
        let rest = lines.skip(1);
        match header_parts(lines[0]) {
            Some((name, value)) => {
                lemma_header_fields_decides(rest, upsert(fields, name, value));
                if header_fields(lines, fields) is Some {
                    assert forall|k: int| 0 <= k < leading_lines(lines) implies header_parts(
                        #[trigger] lines[k],
                    ) is Some by {
                        if k > 0 {
                            assert(lines[k] == rest[k - 1]);
                        }
                    }
                }
            },
            None => {
                lemma_header_fields_decides(rest, fields);
            },
        }
    }
}

/// What decides how the head of a message decodes: it fails on the request line exactly when
/// that line has not three tokens, and else on a header line exactly when the header lines
/// cannot be read to the end.
pub proof fn lemma_decoded_message_decides(head: Seq<char>, rest: Seq<u8>)
    ensures
        decoded_message(head, rest) == Err::<RequestView, HttpError>(
            HttpError::MalformedRequestLine,
        ) <==> tokens(first_line(head), Delimiter::Whitespace).len() != 3,
        decoded_message(head, rest) == Err::<RequestView, HttpError>(HttpError::MalformedHeader)
            <==> tokens(first_line(head), Delimiter::Whitespace).len() == 3 && header_fields(
            lines(head).skip(1),
            Seq::empty(),
        ) is None,
        decoded_message(head, rest) is Ok <==> tokens(first_line(head), Delimiter::Whitespace).len()
            == 3 && header_fields(lines(head).skip(1), Seq::empty()) is Some,
{
}

/// Whether `result` is the outcome `expected`.
pub open spec fn is_outcome(
    result: Result<HttpRequest, HttpError>,
    expected: Result<RequestView, HttpError>,
) -> bool {
    match result {
        Ok(request) => expected == Ok::<RequestView, HttpError>(request@),
        Err(e) => expected == Err::<RequestView, HttpError>(e),
    }
}

impl HttpRequest {
    /// Reads the header lines `lines[1..]` up to the first empty one.
    fn read_headers(lines: &Vec<&str>) -> (fields: Option<Headers>)
        requires
            lines@.len() > 0,
        ensures
            match fields {
                Some(headers) => header_fields(views(lines@).skip(1), Seq::empty()) == Some(
                    headers@,
                ),
                None => header_fields(views(lines@).skip(1), Seq::empty()) is None,
            },
    {
        let mut headers = Headers::new();
        let ghost all = views(lines@);
        let mut k: usize = 1;
        while k < lines.len()
            invariant
                1 <= k <= lines@.len(),
                all == views(lines@),
                header_fields(all.skip(1), Seq::empty()) == header_fields(
                    all.skip(k as int),
                    headers@,
                ),
            decreases lines@.len() - k,
        {
            let line = lines[k];
            let ghost rest = all.skip(k as int);
            assert(rest.skip(1) == all.skip(k + 1));
            if line.is_empty() {
                return Some(headers);
            }
            match parse_header(line) {
                Ok((name, value)) => {
                    headers.insert(name, value);
                },
                Err(_) => {
                    return None;
                },
            }
            k += 1;
        }
        Some(headers)
    }

    /// Decodes the request that `bytes` hold. Bytes beyond the body, such as the unused rest of
    /// a read buffer, are ignored.
    pub fn decode(bytes: &[u8]) -> (result: Result<HttpRequest, HttpError>)
        ensures
            is_outcome(result, decoded(bytes@)),
    {
        let total: usize = bytes.len();
        let end: usize = match find_head_end(bytes) {
            Some(end) => end,
            None => {
                return Err(HttpError::MalformedFraming);
            },
        };
        let head = slice_subrange(bytes, 0, end);
        let rest = slice_subrange(bytes, end + 4, total);
        let text = match utf8_text(head) {
            Some(text) => text,
            None => {
                return Err(HttpError::InvalidEncoding);
            },
        };
        proof {
            encode_utf8_decode_utf8(text@);
        }
        let lines = split_lines(text);
        let first = if lines.len() > 0 {
            lines[0]
        } else {
            proof {
                reveal_strlit("");
            }
            ""
        };
        let (method, path) = match parse_request_line(first) {
            Ok(pair) => pair,
            Err(e) => {
                return Err(e);
            },
        };
        let headers = match Self::read_headers(&lines) {
            Some(headers) => headers,
            None => {
                return Err(HttpError::MalformedHeader);
            },
        };
        let declared: usize = match headers.get("Content-Length") {
            Some(value) => match parse_usize(value.as_str()) {
                Some(n) => n,
                None => 0,
            },
            None => 0,
        };
        let length: usize = if declared <= rest.len() {
            declared
        } else {
            rest.len()
        };
        let body = slice_to_vec(slice_subrange(rest, 0, length));
        Ok(HttpRequest { method, path, headers, body })
    }

    /// Decodes the request that a read buffer holds.
    pub fn from_bytes(bytes: bytes::BytesMut) -> (result: Result<HttpRequest, HttpError>)
        ensures
            is_outcome(result, decoded(buffer_contents(bytes))),
    {
        HttpRequest::decode(buffer_bytes(&bytes))
    }
}

} // verus!

//! What the encoder writes, the framing of the decoder finds again: in the wire form of a
//! response, the first empty line is the one that ends the head, and what follows it is the
//! body.

use crate::buffer::buffer_contents;
use crate::connection::{answers, asks_to_close, transition, Action, ConnectionState, Event};
use crate::decimal::{decimal, lemma_decimal_digits, lemma_parse_decimal_of_decimal};
use crate::encoding::{accepts_gzip, encoded};
use crate::error::HttpError;
use crate::headers::{
    has_name, lemma_upsert_keeps_names_distinct, lemma_upsert_lookup, lookup, names_distinct,
    upsert,
};
use crate::request::{
    blank_line_at, content_length, decoded, head_end, head_ends_at, RequestView,
};
use crate::response::{bare, head, header_block, reason_phrase, status_line, wire, ResponseView};
use crate::router::{
    content, read_outcome, routed, settled, write_outcome, DispatchView, ReadReply,
};
use crate::text::{
    contains, lemma_line_end_needs_line_feed, lemma_utf8_line_end, lemma_utf8_line_feed, line_end,
    line_end_at,
};
use vstd::prelude::*;
use vstd::utf8::{encode_utf8, is_ascii_chars_encode_utf8};

verus! {

/// Whether no header line of `headers` runs over more than one line: no name and no value holds
/// a line end, CR LF. A carriage return or a line feed alone does no harm.
pub open spec fn single_lines(headers: Seq<(Seq<char>, Seq<char>)>) -> bool {
    forall|i: int|
        0 <= i < headers.len() ==> !contains((#[trigger] headers[i]).0, line_end()) && !contains(
            headers[i].1,
            line_end(),
        )
}

/// Whether `bytes` end in a line end and hold no empty line.
pub open spec fn is_head(bytes: Seq<u8>) -> bool {
    let n = bytes.len() as int;
    &&& n >= 2
    &&& bytes[n - 2] == 13
    &&& bytes[n - 1] == 10
    &&& forall|j: int| !blank_line_at(bytes, j)
}

/// The line end on the wire is the two bytes CR and LF.
proof fn lemma_line_end()
    ensures
        encode_utf8("\r\n"@) == seq![13u8, 10u8],
{
    reveal_strlit("\r\n");
    is_ascii_chars_encode_utf8("\r\n"@);
}

/// A head stays a head when a line is written after it: one byte or more in which CR LF
/// stands nowhere, and then the line end.
pub proof fn lemma_append_line(before: Seq<u8>, line: Seq<u8>)
    requires
        before.len() == 0 || is_head(before),
        line.len() >= 1,
        forall|i: int| !line_end_at(line, i),
    ensures
        is_head(before + line + seq![13u8, 10u8]),
{
    let after = before + line + seq![13u8, 10u8];
    let start = before.len() as int;
    assert forall|j: int| !blank_line_at(after, j) by {
        if blank_line_at(after, j) {
            if j + 4 <= start {
                assert(blank_line_at(before, j));
            } else if j + 2 >= start && j + 4 <= start + line.len() {
                assert(line_end_at(line, j + 2 - start));
            } else if j >= start {
                assert(line_end_at(line, j - start));
            }
        }
    }
}

/// Bytes without the byte 10 hold no CR LF.
pub proof fn lemma_line_end_needs_byte(bytes: Seq<u8>)
    requires
        !bytes.contains(10u8),
    ensures
        forall|i: int| !line_end_at(bytes, i),
{
    assert forall|i: int| !line_end_at(bytes, i) by {}
}

/// The status line holds no line feed before its end.
proof fn lemma_literals()
    ensures
        !"HTTP/1.1 "@.contains('\n'),
        !" "@.contains('\n'),
        "HTTP/1.1 "@.len() == 9,
        forall|code: u16| !(#[trigger] reason_phrase(code)).contains('\n'),
{
    reveal_strlit("HTTP/1.1 ");
    reveal_strlit(" ");
    reveal_strlit("OK");
    reveal_strlit("Created");
    reveal_strlit("Not Found");
    reveal_strlit("Internal Server Error");
    reveal_strlit("Unknown");
}

/// The numeral of a number holds no line feed, and so no line end.
proof fn lemma_decimal_line(n: nat)
    ensures
        !decimal(n).contains('\n'),
        !contains(decimal(n), line_end()),
{
    lemma_decimal_digits(n);
    lemma_line_end_needs_line_feed(decimal(n));
}

/// The status line is a head.
proof fn lemma_status_line(code: u16)
    ensures
        is_head(status_line(code)),
{
    lemma_literals();
    lemma_line_end();
    lemma_decimal_line(code as nat);
    lemma_utf8_line_feed("HTTP/1.1 "@);
    lemma_utf8_line_feed(decimal(code as nat));
    lemma_utf8_line_feed(" "@);
    lemma_utf8_line_feed(reason_phrase(code));
    let line = encode_utf8("HTTP/1.1 "@) + encode_utf8(decimal(code as nat)) + encode_utf8(" "@)
        + encode_utf8(reason_phrase(code));
    reveal_strlit("HTTP/1.1 ");
    is_ascii_chars_encode_utf8("HTTP/1.1 "@);
    assert forall|i: int| 0 <= i < line.len() implies line[i] != 10u8 by {}
    lemma_line_end_needs_byte(line);
    lemma_append_line(Seq::empty(), line);
}

/// The head of a response whose header lines are single lines is a head.
proof fn lemma_head(code: u16, headers: Seq<(Seq<char>, Seq<char>)>)
    requires
        single_lines(headers),
    ensures
        is_head(status_line(code) + header_block(headers)),
    decreases headers.len(),
{
    if headers.len() == 0 {
        lemma_status_line(code);
    } else {
        let init = headers.drop_last();
        let last = headers.last();
        assert forall|i: int| 0 <= i < init.len() implies !contains(
            (#[trigger] init[i]).0,
            line_end(),
        ) && !contains(init[i].1, line_end()) by {}
        lemma_head(code, init);
        lemma_line_end();
        lemma_utf8_line_end(last.0);
        lemma_utf8_line_end(last.1);
        let name = encode_utf8(last.0);
        let colon = encode_utf8(": "@);
        let value = encode_utf8(last.1);
        let line = name + colon + value;
        reveal_strlit(": ");
        is_ascii_chars_encode_utf8(": "@);
        assert forall|i: int| !line_end_at(line, i) by {
            if line_end_at(line, i) {
                if i + 2 <= name.len() {
                    assert(line_end_at(name, i));
                } else if i >= name.len() + 2 {
                    assert(line_end_at(value, i - name.len() - 2));
                }
            }
        }
        let before = status_line(code) + header_block(init);
        lemma_append_line(before, line);
        assert(status_line(code) + header_block(headers) =~= before + line + seq![13u8, 10u8]);
    }
}

/// In the wire form of a response whose header lines are single lines, the head ends where the
/// encoder ended it: the first empty line is the one written after the last header line, and
/// the bytes after it are the body, whatever the body holds.
pub proof fn lemma_wire_frames_body(response: ResponseView)
    requires
        single_lines(response.headers),
    ensures
        head_end(wire(response)) == Some(head(response).len() - 2),
        wire(response).skip(head(response).len() as int + 2) == response.body,
        wire(response).take(head(response).len() as int) == head(response),
{
    lemma_head(response.status_code, response.headers);
    lemma_line_end();
    lemma_head_end_after_head(head(response), response.body);
}

/// Where an empty line and then more bytes follow a head, the head ends at its last line end:
/// the first CR LF CR LF of the whole begins there.
pub proof fn lemma_head_end_after_head(head: Seq<u8>, rest: Seq<u8>)
    requires
        is_head(head),
    ensures
        head_end(head + seq![13u8, 10u8] + rest) == Some(head.len() - 2),
        (head + seq![13u8, 10u8] + rest).skip(head.len() as int + 2) == rest,
        (head + seq![13u8, 10u8] + rest).take(head.len() as int) == head,
{
    let all = head + seq![13u8, 10u8] + rest;
    let end = head.len() - 2;
    assert forall|j: int| 0 <= j < end implies !blank_line_at(all, j) by {
        if blank_line_at(all, j) && j + 4 <= head.len() {
            assert(blank_line_at(head, j));
        }
    }
    assert(head_ends_at(all, end));
}

/// Whether `response` declares the length of its body: its `Content-Length` field is the
/// numeral of that length.
pub open spec fn declares_body_length(response: ResponseView) -> bool {
    lookup(response.headers, "Content-Length"@) == Some(decimal(response.body.len()))
}

/// What holds of every response that the server sends: no header name occurs twice, every
/// header line is a single line, and a `Content-Length` field, where there is one, gives the
/// length of the body.
pub open spec fn well_framed(response: ResponseView) -> bool {
    &&& names_distinct(response.headers)
    &&& single_lines(response.headers)
    &&& has_name(response.headers, "Content-Length"@) ==> declares_body_length(response)
}

/// The names and values that the server writes hold no line end, and its names differ.
proof fn lemma_field_literals()
    ensures
        !contains("Content-Type"@, line_end()),
        !contains("Content-Length"@, line_end()),
        !contains("Content-Encoding"@, line_end()),
        !contains("text/plain"@, line_end()),
        !contains("application/octet-stream"@, line_end()),
        !contains("gzip"@, line_end()),
        "Content-Type"@ != "Content-Length"@,
        "Content-Encoding"@ != "Content-Length"@,
{
    reveal_strlit("Content-Type");
    reveal_strlit("Content-Length");
    reveal_strlit("Content-Encoding");
    reveal_strlit("text/plain");
    reveal_strlit("application/octet-stream");
    reveal_strlit("gzip");
    assert("Content-Encoding"@.len() != "Content-Length"@.len());
    lemma_line_end_needs_line_feed("Content-Type"@);
    lemma_line_end_needs_line_feed("Content-Length"@);
    lemma_line_end_needs_line_feed("Content-Encoding"@);
    lemma_line_end_needs_line_feed("text/plain"@);
    lemma_line_end_needs_line_feed("application/octet-stream"@);
    lemma_line_end_needs_line_feed("gzip"@);
}

/// Setting a field whose name and value hold no line end keeps every header line single.
proof fn lemma_upsert_single_lines(
    entries: Seq<(Seq<char>, Seq<char>)>,
    name: Seq<char>,
    value: Seq<char>,
)
    requires
        single_lines(entries),
        !contains(name, line_end()),
        !contains(value, line_end()),
    ensures
        single_lines(upsert(entries, name, value)),
{
    let after = upsert(entries, name, value);
    assert forall|i: int| 0 <= i < after.len() implies !contains(
        (#[trigger] after[i]).0,
        line_end(),
    ) && !contains(after[i].1, line_end()) by {}
}

/// A response without header fields is well framed.
proof fn lemma_bare_well_framed(status_code: u16)
    ensures
        well_framed(bare(status_code)),
{
}

/// A response that carries content and declares its true length is well framed.
proof fn lemma_content_well_framed(content_type: Seq<char>, body: Seq<u8>)
    requires
        !contains(content_type, line_end()),
    ensures
        well_framed(content(content_type, body.len(), body)),
{
    lemma_field_literals();
    lemma_decimal_line(body.len());
}

/// Whatever the request, the response that routing gives at once is well framed.
pub proof fn lemma_routed_well_framed(request: RequestView, directory: Option<Seq<char>>)
    ensures
        routed(request, directory) matches Ok(DispatchView::Respond(response)) ==> well_framed(
            response,
        ),
{
    lemma_field_literals();
    match routed(request, directory) {
        Ok(DispatchView::Respond(response)) => {
            if response.headers.len() > 0 {
                lemma_content_well_framed("text/plain"@, response.body);
            }
        },
        _ => {},
    }
}

/// The response that a file's reply completes is well framed, where the size that the file
/// system reported is the number of bytes that were read.
pub proof fn lemma_file_outcome_well_framed(reply: ReadReply, written: bool)
    requires
        reply matches ReadReply::Contents { size, contents } ==> size == contents@.len(),
    ensures
        read_outcome(reply) matches Ok(response) ==> well_framed(response),
        write_outcome(written) matches Ok(response) ==> well_framed(response),
{
    lemma_field_literals();
    match reply {
        ReadReply::Contents { size, contents } => {
            lemma_content_well_framed("application/octet-stream"@, contents@);
        },
        _ => {},
    }
}

/// Bringing a well framed response into the negotiated encoding leaves it well framed: the
/// length is declared anew for the stream that replaces the body. A gzip stream is marked as
/// one.
pub proof fn lemma_encoded_well_framed(response: ResponseView, gzip: bool, sent: ResponseView)
    requires
        well_framed(response),
        encoded(response, gzip) == Some(sent),
    ensures
        well_framed(sent),
        gzip ==> declares_body_length(sent) && lookup(sent.headers, "Content-Encoding"@) == Some(
            "gzip"@,
        ),
{
    if gzip {
        lemma_field_literals();
        let marked = upsert(response.headers, "Content-Encoding"@, "gzip"@);
        let length = decimal(sent.body.len());
        lemma_upsert_keeps_names_distinct(response.headers, "Content-Encoding"@, "gzip"@);
        lemma_upsert_single_lines(response.headers, "Content-Encoding"@, "gzip"@);
        lemma_upsert_lookup(response.headers, "Content-Encoding"@, "gzip"@, "Content-Length"@);
        lemma_decimal_line(sent.body.len());
        lemma_upsert_keeps_names_distinct(marked, "Content-Length"@, length);
        lemma_upsert_single_lines(marked, "Content-Length"@, length);
        lemma_upsert_lookup(marked, "Content-Length"@, length, "Content-Encoding"@);
    }
}

/// The round trip of a response over the wire: where a well framed response declares a length,
/// the bytes that follow the head of its wire form are as many as the decoder reads from its
/// `Content-Length` field, and they are the body.
pub proof fn lemma_declared_length_round_trip(response: ResponseView)
    requires
        well_framed(response),
        has_name(response.headers, "Content-Length"@),
        response.body.len() <= usize::MAX,
    ensures
        head_end(wire(response)) is Some,
        wire(response).skip(head_end(wire(response))->0 + 4) == response.body,
        content_length(response.headers) == response.body.len(),
{
    lemma_wire_frames_body(response);
    lemma_parse_decimal_of_decimal(response.body.len());
}

/// Every response that a connection sends is well framed: the one that routing or a file's
/// reply gave, or the empty `500` that stands for a failure, in the negotiated encoding.
pub proof fn lemma_sent_well_framed(
    outcome: Result<ResponseView, HttpError>,
    gzip: bool,
    sent: ResponseView,
)
    requires
        outcome matches Ok(response) ==> well_framed(response),
        encoded(settled(outcome), gzip) == Some(sent),
    ensures
        well_framed(sent),
{
    lemma_bare_well_framed(500);
    lemma_encoded_well_framed(settled(outcome), gzip, sent);
}

/// Whether `bytes` are the wire form of a well framed response.
pub open spec fn is_well_framed_wire(bytes: Seq<u8>) -> bool {
    exists|sent: ResponseView| #[trigger] wire(sent) == bytes && well_framed(sent)
}

/// What a connection sends in answer to a well framed outcome is well framed.
proof fn lemma_answer_well_framed(
    outcome: Result<ResponseView, HttpError>,
    gzip: bool,
    next: ConnectionState,
    action: Action,
)
    requires
        answers(outcome, gzip, next, action),
        outcome matches Ok(response) ==> well_framed(response),
    ensures
        action matches Action::Send { bytes } ==> is_well_framed_wire(bytes@),
{
    if let Some(sent) = encoded(settled(outcome), gzip) {
        lemma_sent_well_framed(outcome, gzip, sent);
    }
}

/// Whatever a connection sends, in whatever state and on whatever event, is the wire form of a
/// well framed response, as long as the file system reports for a file the number of bytes that
/// it then reads from it.
pub proof fn lemma_step_sends_well_framed(
    state: ConnectionState,
    event: Event,
    directory: Option<Seq<char>>,
    next: ConnectionState,
    action: Action,
)
    requires
        transition(state, event, directory, next, action),
        event matches Event::FileRead(ReadReply::Contents { size, contents }) ==> size
            == contents@.len(),
    ensures
        action matches Action::Send { bytes } ==> is_well_framed_wire(bytes@),
{
    match (state, event) {
        (ConnectionState::Reading, Event::Received(buffer)) => {
            match decoded(buffer_contents(buffer)) {
                Ok(request) => {
                    lemma_routed_well_framed(request, directory);
                    let gzip = accepts_gzip(lookup(request.headers, "Accept-Encoding"@));
                    if !asks_to_close(request) {
                        match routed(request, directory) {
                            Ok(DispatchView::Respond(response)) => {
                                lemma_answer_well_framed(Ok(response), gzip, next, action);
                            },
                            Err(e) => {
                                lemma_answer_well_framed(Err(e), gzip, next, action);
                            },
                            _ => {},
                        }
                    }
                },
                Err(_) => {},
            }
        },
        (ConnectionState::Handling { storing: false, gzip }, Event::FileRead(reply)) => {
            lemma_file_outcome_well_framed(reply, true);
            lemma_answer_well_framed(read_outcome(reply), gzip, next, action);
        },
        (ConnectionState::Handling { storing: true, gzip }, Event::FileWritten(written)) => {
            lemma_file_outcome_well_framed(ReadReply::Absent, written);
            lemma_answer_well_framed(write_outcome(written), gzip, next, action);
        },
        _ => {},
    }
}

} // verus!

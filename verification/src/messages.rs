//! Every request that is written by the book decodes to what it says: the method and the path
//! of its request line, the fields of its header lines, and the body that it declares.

use crate::error::HttpError;
use crate::framing::{
    is_head, lemma_append_line, lemma_head_end_after_head, lemma_line_end_needs_byte,
};
use crate::headers::upsert;
use crate::request::{
    blank_line_at, body_length, colon_space, decoded, header_fields, lemma_header_line_parts,
    lemma_request_line_of_words, RequestView,
};
use crate::text::{
    contains, is_word, lemma_lines_after_line, lemma_lines_of_line, lemma_utf8_concat,
    lemma_utf8_line_feed, line_end, lines, Delimiter,
};
use vstd::prelude::*;
use vstd::utf8::{
    encode_utf8, encode_utf8_decode_utf8, encode_utf8_valid_utf8, is_ascii_chars_encode_utf8,
};

verus! {

/// Whether `line` can stand as a line of a head and be read back as it is: it is not empty,
/// holds no line feed, and does not end in a carriage return.
pub open spec fn is_plain_line(line: Seq<char>) -> bool {
    line.len() > 0 && !line.contains('\n') && line.last() != '\r'
}

/// `lines` as one text, with a line end between each two.
pub open spec fn joined(lines: Seq<Seq<char>>) -> Seq<char>
    decreases lines.len(),
{
    if lines.len() == 0 {
        Seq::empty()
    } else if lines.len() == 1 {
        lines[0]
    } else {
        lines[0] + line_end() + joined(lines.skip(1))
    }
}

/// Plain lines that are joined are read back one by one.
pub proof fn lemma_lines_of_joined(all: Seq<Seq<char>>)
    requires
        forall|i: int| 0 <= i < all.len() ==> is_plain_line(#[trigger] all[i]),
    ensures
        lines(joined(all)) == all,
    decreases all.len(),
{
    if all.len() == 1 {
        lemma_lines_of_line(all[0]);
    } else if all.len() > 1 {
        let rest = all.skip(1);
        assert forall|i: int| 0 <= i < rest.len() implies is_plain_line(#[trigger] rest[i]) by {}
        lemma_lines_of_joined(rest);
        lemma_lines_after_line(all[0], joined(rest));
    }
}

/// The line end is the two bytes CR and LF.
proof fn lemma_line_end_bytes()
    ensures
        encode_utf8(line_end()) == seq![13u8, 10u8],
{
    is_ascii_chars_encode_utf8(line_end());
}

/// The UTF-8 form of a plain line is not empty and holds no byte 10.
proof fn lemma_plain_line_bytes(line: Seq<char>)
    requires
        is_plain_line(line),
    ensures
        encode_utf8(line).len() >= 1,
        !encode_utf8(line).contains(10u8),
{
    lemma_utf8_line_feed(line);
    lemma_utf8_concat(line.take(1), line.skip(1));
}

/// Plain lines that are joined, with a line end after the last, are a head on the wire whose
/// first two bytes are no line feeds.
proof fn lemma_joined_is_head(all: Seq<Seq<char>>)
    requires
        all.len() >= 1,
        forall|i: int| 0 <= i < all.len() ==> is_plain_line(#[trigger] all[i]),
    ensures
        is_head(encode_utf8(joined(all)) + seq![13u8, 10u8]),
        (encode_utf8(joined(all)) + seq![13u8, 10u8])[0] != 10,
        (encode_utf8(joined(all)) + seq![13u8, 10u8])[1] != 10,
    decreases all.len(),
{
    let first = encode_utf8(all[0]);
    lemma_plain_line_bytes(all[0]);
    lemma_line_end_needs_byte(first);
    if all.len() == 1 {
        lemma_append_line(Seq::empty(), first);
    } else {
        let rest = all.skip(1);
        assert forall|i: int| 0 <= i < rest.len() implies is_plain_line(#[trigger] rest[i]) by {}
        lemma_joined_is_head(rest);
        lemma_line_end_bytes();
        lemma_utf8_concat(all[0] + line_end(), joined(rest));
        lemma_utf8_concat(all[0], line_end());
        let after = encode_utf8(joined(rest)) + seq![13u8, 10u8];
        let whole = encode_utf8(joined(all)) + seq![13u8, 10u8];
        let shift = first.len() as int + 2;
        assert forall|j: int| !blank_line_at(whole, j) by {
            if blank_line_at(whole, j) && j >= shift {
                assert(blank_line_at(after, j - shift));
            }
        }
    }
}

/// The line of a header field: its name, `": "`, and its value.
pub open spec fn field_line(field: (Seq<char>, Seq<char>)) -> Seq<char> {
    field.0 + colon_space() + field.1
}

/// Whether `field` can be written as a header line and read back: its line is plain, and
/// neither its name nor its value holds a `": "` of its own.
pub open spec fn is_plain_field(field: (Seq<char>, Seq<char>)) -> bool {
    &&& is_plain_line(field_line(field))
    &&& !contains(field.0, colon_space())
    &&& !contains(field.1, colon_space())
}

/// The lines of `fields`, in their order.
pub open spec fn field_lines(fields: Seq<(Seq<char>, Seq<char>)>) -> Seq<Seq<char>> {
    Seq::new(fields.len(), |i: int| field_line(fields[i]))
}

/// The header fields that stand after each of `fields` was set in turn, beginning with `onto`:
/// a name that comes again overwrites.
pub open spec fn collected(
    fields: Seq<(Seq<char>, Seq<char>)>,
    onto: Seq<(Seq<char>, Seq<char>)>,
) -> Seq<(Seq<char>, Seq<char>)>
    decreases fields.len(),
{
    if fields.len() == 0 {
        onto
    } else {
        collected(fields.skip(1), upsert(onto, fields[0].0, fields[0].1))
    }
}

/// The lines of plain fields are read as those fields, each set in its turn.
pub proof fn lemma_header_fields_of_lines(
    fields: Seq<(Seq<char>, Seq<char>)>,
    onto: Seq<(Seq<char>, Seq<char>)>,
)
    requires
        forall|i: int| 0 <= i < fields.len() ==> is_plain_field(#[trigger] fields[i]),
    ensures
        header_fields(field_lines(fields), onto) == Some(collected(fields, onto)),
    decreases fields.len(),
{
    if fields.len() > 0 {
        let rest = fields.skip(1);
        lemma_header_line_parts(fields[0].0, fields[0].1);
        assert(field_lines(fields).skip(1) == field_lines(rest));
        assert forall|i: int| 0 <= i < rest.len() implies is_plain_field(#[trigger] rest[i]) by {}
        lemma_header_fields_of_lines(rest, upsert(onto, fields[0].0, fields[0].1));
    }
}

/// The request line of `method`, `path` and `version`, with one space between them.
pub open spec fn request_line_of(
    method: Seq<char>,
    path: Seq<char>,
    version: Seq<char>,
) -> Seq<char> {
    method + seq![' '] + path + seq![' '] + version
}

/// A request on the wire: the request line, the lines of `fields`, an empty line, and then
/// `payload`, the bytes of the body and whatever follows them in the buffer.
pub open spec fn request_bytes(
    method: Seq<char>,
    path: Seq<char>,
    version: Seq<char>,
    fields: Seq<(Seq<char>, Seq<char>)>,
    payload: Seq<u8>,
) -> Seq<u8> {
    encode_utf8(joined(seq![request_line_of(method, path, version)] + field_lines(fields)))
        + seq![13u8, 10u8, 13u8, 10u8] + payload
}

/// A request line of three words, followed by the lines of plain fields, decodes: to the method
/// and the path of the request line, to the fields as they were set in turn, and to as much of
/// the payload as the fields declare.
pub proof fn lemma_request_decodes(
    method: Seq<char>,
    path: Seq<char>,
    version: Seq<char>,
    fields: Seq<(Seq<char>, Seq<char>)>,
    payload: Seq<u8>,
)
    requires
        is_word(method, Delimiter::Whitespace),
        is_word(path, Delimiter::Whitespace),
        is_word(version, Delimiter::Whitespace),
        forall|i: int| 0 <= i < fields.len() ==> is_plain_field(#[trigger] fields[i]),
    ensures
        decoded(request_bytes(method, path, version, fields, payload)) == Ok::<
            RequestView,
            HttpError,
        >(
            RequestView {
                method,
                path,
                headers: collected(fields, Seq::empty()),
                body: payload.take(
                    body_length(collected(fields, Seq::empty()), payload.len()) as int,
                ),
            },
        ),
{
    let first = request_line_of(method, path, version);
    let all = seq![first] + field_lines(fields);
    let text = joined(all);
    let bytes = request_bytes(method, path, version, fields, payload);
    let head = encode_utf8(text) + seq![13u8, 10u8];
    assert forall|k: int| 0 <= k < first.len() implies first[k] != '\n' by {}
    assert forall|i: int| 0 <= i < all.len() implies is_plain_line(#[trigger] all[i]) by {}
    lemma_joined_is_head(all);
    lemma_head_end_after_head(head, payload);
    assert(bytes == head + seq![13u8, 10u8] + payload);
    assert(bytes.take(head.len() - 2) == encode_utf8(text));
    encode_utf8_valid_utf8(text);
    encode_utf8_decode_utf8(text);
    lemma_lines_of_joined(all);
    lemma_request_line_of_words(method, path, version);
    assert(all.skip(1) == field_lines(fields));
    lemma_header_fields_of_lines(fields, Seq::empty());
}

} // verus!

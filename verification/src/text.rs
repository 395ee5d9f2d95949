//! Character-level building blocks of the request grammar and of the wire format.

use vstd::prelude::*;
use vstd::string::*;
use vstd::utf8::*;

verus! {

/// Whether `c` has the Unicode `White_Space` property.
pub open spec fn is_whitespace(c: char) -> bool {
    let n = c as u32;
    ||| 0x09 <= n <= 0x0d
    ||| n == 0x20
    ||| n == 0x85
    ||| n == 0xa0
    ||| n == 0x1680
    ||| 0x2000 <= n <= 0x200a
    ||| n == 0x2028
    ||| n == 0x2029
    ||| n == 0x202f
    ||| n == 0x205f
    ||| n == 0x3000
}

/// The characters at which the grammar cuts a text.
#[derive(Clone, Copy, Debug)]
pub enum Delimiter {
    /// Unicode white space, between the tokens of the request line.
    Whitespace,
    /// `/`, between the segments of a path.
    Slash,
    /// The line feed, at the end of a line.
    LineFeed,
}

impl Delimiter {
    /// Whether `c` separates tokens.
    pub open spec fn separates(self, c: char) -> bool {
        match self {
            Delimiter::Whitespace => is_whitespace(c),
            Delimiter::Slash => c == '/',
            Delimiter::LineFeed => c == '\n',
        }
    }

    /// Executable form of [`Delimiter::separates`].
    pub fn matches(self, c: char) -> (r: bool)
        ensures
            r == self.separates(c),
    {
        match self {
            Delimiter::Whitespace => {
                let n: u32 = c as u32;
                (0x09 <= n && n <= 0x0d) || n == 0x20 || n == 0x85 || n == 0xa0 || n == 0x1680
                    || (0x2000 <= n && n <= 0x200a) || n == 0x2028 || n == 0x2029 || n == 0x202f
                    || n == 0x205f || n == 0x3000
            },
            Delimiter::Slash => c == '/',
            Delimiter::LineFeed => c == '\n',
        }
    }
}

/// `core::str::from_utf8`: the text that `bytes` encode, where they are well-formed UTF-8, and
/// nothing where they are not. The text borrows the bytes, so its UTF-8 form is `bytes` itself.
#[verifier::external_body]
pub(crate) fn utf8_text(bytes: &[u8]) -> (text: Option<&str>)
    ensures
        text is Some <==> valid_utf8(bytes@),
        text matches Some(s) ==> s.spec_bytes() == bytes@,
{
    match core::str::from_utf8(bytes) {
        Ok(text) => Some(text),
        Err(_) => None,
    }
}

/// The characters of `text`, one element per Unicode scalar value.
pub fn chars_of(text: &str) -> (chars: Vec<char>)
    ensures
        chars@ == text@,
{
    let mut chars: Vec<char> = Vec::new();
    for c in it: text.chars()
        invariant
            it.seq() == text@,
            chars@ == it.seq().take(it.index()),
    {
        chars.push(c);
    }
    chars
}

/// Length of the longest prefix of `s` that holds no delimiter.
pub open spec fn run_length(s: Seq<char>, d: Delimiter) -> int
    decreases s.len(),
{
    if s.len() == 0 || d.separates(s[0]) {
        0
    } else {
        1 + run_length(s.skip(1), d)
    }
}

/// The maximal delimiter-free runs of `s`, in the order in which they occur.
pub open spec fn tokens(s: Seq<char>, d: Delimiter) -> Seq<Seq<char>>
    decreases s.len(),
{
    if s.len() == 0 {
        Seq::empty()
    } else if d.separates(s[0]) {
        tokens(s.skip(1), d)
    } else {
        let n = run_length(s, d);
        if 0 < n <= s.len() {
            seq![s.take(n)] + tokens(s.skip(n), d)
        } else {
            Seq::empty()
        }
    }
}

/// `run_length` is the one index that ends a delimiter-free prefix at a delimiter or at the end.
pub proof fn lemma_run_length(s: Seq<char>, d: Delimiter, n: int)
    requires
        0 <= n <= s.len(),
        forall|k: int| 0 <= k < n ==> !d.separates(#[trigger] s[k]),
        n < s.len() ==> d.separates(s[n]),
    ensures
        run_length(s, d) == n,
    decreases s.len(),
{
    if n > 0 {
        let rest = s.skip(1);
        assert forall|k: int| 0 <= k < n - 1 implies !d.separates(#[trigger] rest[k]) by {}
        lemma_run_length(rest, d, n - 1);
    }
}

/// What `run_length` is: the index of the first delimiter, or the length of the text.
pub proof fn lemma_run_length_ends(s: Seq<char>, d: Delimiter)
    ensures
        0 <= run_length(s, d) <= s.len(),
        forall|k: int| 0 <= k < run_length(s, d) ==> !d.separates(#[trigger] s[k]),
        run_length(s, d) < s.len() ==> d.separates(s[run_length(s, d)]),
    decreases s.len(),
{
    if s.len() > 0 && !d.separates(s[0]) {
        let rest = s.skip(1);
        lemma_run_length_ends(rest, d);
        assert forall|k: int| 0 <= k < run_length(s, d) implies !d.separates(#[trigger] s[k]) by {
            if k > 0 {
                assert(s[k] == rest[k - 1]);
            }
        }
    }
}

/// A text that is cut at a delimiter has the tokens of its two parts: tokens do not reach
/// across a delimiter, and a run of delimiters counts as one.
pub proof fn lemma_tokens_concat(x: Seq<char>, y: Seq<char>, d: Delimiter)
    requires
        x.len() == 0 || y.len() == 0 || d.separates(x.last()) || d.separates(y[0]),
    ensures
        tokens(x + y, d) == tokens(x, d) + tokens(y, d),
    decreases x.len(),
{
    let s = x + y;
    if x.len() == 0 {
    } else if d.separates(x[0]) {
        let rest = x.skip(1);
        assert(s.skip(1) == rest + y);
        lemma_tokens_concat(rest, y, d);
    } else {
        let n = run_length(x, d);
        lemma_run_length_ends(x, d);
        assert forall|k: int| 0 <= k < n implies !d.separates(#[trigger] s[k]) by {}
        lemma_run_length(s, d, n);
        if n < x.len() {
            let rest = x.skip(n);
            assert(s.take(n) == x.take(n));
            assert(s.skip(n) == rest + y);
            lemma_tokens_concat(rest, y, d);
        } else {
            assert(s.take(n) == x);
            assert(x.take(n) == x);
            assert(s.skip(n) == y);
            assert(tokens(x.skip(n), d) == Seq::<Seq<char>>::empty());
        }
    }
}

/// Whether `w` is a word: not empty, and free of delimiters.
pub open spec fn is_word(w: Seq<char>, d: Delimiter) -> bool {
    w.len() > 0 && forall|k: int| 0 <= k < w.len() ==> !d.separates(#[trigger] w[k])
}

/// A word that a delimiter or the end of the text follows is the first token of the text.
pub proof fn lemma_tokens_after_word(w: Seq<char>, rest: Seq<char>, d: Delimiter)
    requires
        is_word(w, d),
        rest.len() == 0 || d.separates(rest[0]),
    ensures
        tokens(w + rest, d) == seq![w] + tokens(rest, d),
{
    let s = w + rest;
    assert forall|k: int| 0 <= k < w.len() implies !d.separates(#[trigger] s[k]) by {}
    lemma_run_length(s, d, w.len() as int);
    assert(s.take(w.len() as int) == w);
    assert(s.skip(w.len() as int) == rest);
}

/// A delimiter at the start of a text adds no token.
pub proof fn lemma_tokens_after_delimiter(c: char, rest: Seq<char>, d: Delimiter)
    requires
        d.separates(c),
    ensures
        tokens(seq![c] + rest, d) == tokens(rest, d),
{
    let s = seq![c] + rest;
    assert(s.skip(1) == rest);
}

/// The subranges of `s` that `ranges` names.
pub open spec fn pieces(s: Seq<char>, ranges: Seq<(usize, usize)>) -> Seq<Seq<char>> {
    Seq::new(ranges.len(), |i: int| s.subrange(ranges[i].0 as int, ranges[i].1 as int))
}

/// Whether each of `ranges` lies within a text of length `len`.
pub open spec fn in_bounds(ranges: Seq<(usize, usize)>, len: nat) -> bool {
    forall|i: int| 0 <= i < ranges.len() ==> (#[trigger] ranges[i]).0 <= ranges[i].1 <= len
}

/// Cuts `chars` into its tokens and returns where each starts and ends.
pub fn token_ranges(chars: &[char], d: Delimiter) -> (ranges: Vec<(usize, usize)>)
    ensures
        in_bounds(ranges@, chars@.len()),
        pieces(chars@, ranges@) == tokens(chars@, d),
{
    let mut ranges: Vec<(usize, usize)> = Vec::new();
    let mut i: usize = 0;
    assert(chars@.skip(0) == chars@);
    while i < chars.len()
        invariant
            i <= chars@.len(),
            in_bounds(ranges@, chars@.len()),
            pieces(chars@, ranges@) + tokens(chars@.skip(i as int), d) == tokens(chars@, d),
        decreases chars@.len() - i,
    {
        let ghost rest = chars@.skip(i as int);
        if d.matches(chars[i]) {
            assert(rest.skip(1) == chars@.skip(i + 1));
            i += 1;
        } else {
            let start: usize = i;
            while i < chars.len() && !d.matches(chars[i])
                invariant
                    start <= i <= chars@.len(),
                    forall|k: int| start <= k < i ==> !d.separates(#[trigger] chars@[k]),
                decreases chars@.len() - i,
            {
                i += 1;
            }
            proof {
                let n = i - start;
                assert forall|k: int| 0 <= k < n implies !d.separates(#[trigger] rest[k]) by {}
                lemma_run_length(rest, d, n);
                assert(rest.take(n) == chars@.subrange(start as int, i as int));
                assert(rest.skip(n) == chars@.skip(i as int));
            }
            ranges.push((start, i));
        }
    }
    ranges
}

/// `line` without the carriage return that ends it, if one does.
pub open spec fn strip_cr(line: Seq<char>) -> Seq<char> {
    if line.len() > 0 && line.last() == '\r' {
        line.drop_last()
    } else {
        line
    }
}

/// The lines of `s`. A line ends at a line feed or at the end of the text. The line feed is no
/// part of the line, nor is a carriage return that stands directly before it; a line that the
/// end of the text closes keeps every character. An empty text has no line.
pub open spec fn lines(s: Seq<char>) -> Seq<Seq<char>>
    decreases s.len(),
{
    if s.len() == 0 {
        Seq::empty()
    } else {
        let n = run_length(s, Delimiter::LineFeed);
        if 0 <= n < s.len() {
            seq![strip_cr(s.take(n))] + lines(s.skip(n + 1))
        } else {
            seq![s]
        }
    }
}

/// The characters CR and LF, which end a line on the wire.
pub open spec fn line_end() -> Seq<char> {
    seq!['\r', '\n']
}

/// A text without a line feed is one line, unless it is empty.
pub proof fn lemma_lines_of_line(line: Seq<char>)
    requires
        line.len() > 0,
        !line.contains('\n'),
    ensures
        lines(line) == seq![line],
{
    assert forall|k: int| 0 <= k < line.len() implies !Delimiter::LineFeed.separates(
        #[trigger] line[k],
    ) by {}
    lemma_run_length(line, Delimiter::LineFeed, line.len() as int);
}

/// A line that CR LF ends is the first line of a text, as it stands, where it holds no line
/// feed and does not end in a carriage return of its own.
pub proof fn lemma_lines_after_line(line: Seq<char>, rest: Seq<char>)
    requires
        !line.contains('\n'),
        line.len() > 0 ==> line.last() != '\r',
    ensures
        lines(line + line_end() + rest) == seq![line] + lines(rest),
{
    let s = line + line_end() + rest;
    let n = line.len() as int + 1;
    assert forall|k: int| 0 <= k < n implies !Delimiter::LineFeed.separates(#[trigger] s[k]) by {}
    lemma_run_length(s, Delimiter::LineFeed, n);
    assert(strip_cr(s.take(n)) == line);
    assert(s.skip(n + 1) == rest);
}

/// Cuts `chars` into its lines and returns where each starts and ends.
pub fn line_ranges(chars: &[char]) -> (ranges: Vec<(usize, usize)>)
    ensures
        in_bounds(ranges@, chars@.len()),
        pieces(chars@, ranges@) == lines(chars@),
{
    let mut ranges: Vec<(usize, usize)> = Vec::new();
    let mut i: usize = 0;
    assert(chars@.skip(0) == chars@);
    while i < chars.len()
        invariant
            i <= chars@.len(),
            in_bounds(ranges@, chars@.len()),
            pieces(chars@, ranges@) + lines(chars@.skip(i as int)) == lines(chars@),
        decreases chars@.len() - i,
    {
        let ghost rest = chars@.skip(i as int);
        let start: usize = i;
        while i < chars.len() && chars[i] != '\n'
            invariant
                start <= i <= chars@.len(),
                forall|k: int| start <= k < i ==> #[trigger] chars@[k] != '\n',
            decreases chars@.len() - i,
        {
            i += 1;
        }
        proof {
            let n = i - start;
            assert forall|k: int| 0 <= k < n implies !Delimiter::LineFeed.separates(
                #[trigger] rest[k],
            ) by {}
            lemma_run_length(rest, Delimiter::LineFeed, n);
            assert(rest.take(n) == chars@.subrange(start as int, i as int));
        }
        if i == chars.len() {
            ranges.push((start, i));
        } else {
            let end: usize = if i > start && chars[i - 1] == '\r' {
                i - 1
            } else {
                i
            };
            proof {
                let line = chars@.subrange(start as int, i as int);
                assert(strip_cr(line) == chars@.subrange(start as int, end as int));
                assert(rest.skip(i - start + 1) == chars@.skip(i + 1));
            }
            ranges.push((start, end));
            i += 1;
        }
    }
    ranges
}

/// What each of `parts` reads.
pub open spec fn views(parts: Seq<&str>) -> Seq<Seq<char>> {
    Seq::new(parts.len(), |i: int| parts[i]@)
}

/// The parts of `text` that `ranges` names.
fn cut<'a>(text: &'a str, ranges: &Vec<(usize, usize)>) -> (parts: Vec<&'a str>)
    requires
        in_bounds(ranges@, text@.len()),
    ensures
        views(parts@) == pieces(text@, ranges@),
{
    let mut parts: Vec<&'a str> = Vec::new();
    let mut k: usize = 0;
    while k < ranges.len()
        invariant
            k <= ranges@.len(),
            in_bounds(ranges@, text@.len()),
            parts@.len() == k,
            forall|j: int| 0 <= j < k ==> (#[trigger] parts@[j])@ == pieces(text@, ranges@)[j],
        decreases ranges@.len() - k,
    {
        let (a, b) = ranges[k];
        parts.push(text.substring_char(a, b));
        k += 1;
    }
    parts
}

/// The tokens of `text`: its maximal runs of characters other than the delimiter.
pub fn split_tokens<'a>(text: &'a str, d: Delimiter) -> (parts: Vec<&'a str>)
    ensures
        views(parts@) == tokens(text@, d),
{
    let chars = chars_of(text);
    let ranges = token_ranges(chars.as_slice(), d);
    cut(text, &ranges)
}

/// The lines of `text`.
pub fn split_lines<'a>(text: &'a str) -> (parts: Vec<&'a str>)
    ensures
        views(parts@) == lines(text@),
{
    let chars = chars_of(text);
    let ranges = line_ranges(chars.as_slice());
    cut(text, &ranges)
}

/// Whether `pattern` stands in `s` at index `i`.
pub open spec fn occurs_at(s: Seq<char>, pattern: Seq<char>, i: int) -> bool {
    0 <= i && i + pattern.len() <= s.len() && s.subrange(i, i + pattern.len()) == pattern
}

/// Whether `pattern` stands somewhere in `s`.
pub open spec fn contains(s: Seq<char>, pattern: Seq<char>) -> bool {
    exists|i: int| occurs_at(s, pattern, i)
}

/// Whether `pattern` stands in `chars` at index `i`.
fn matches_at(chars: &[char], pattern: &[char], i: usize) -> (r: bool)
    requires
        i + pattern@.len() <= chars@.len(),
    ensures
        r == occurs_at(chars@, pattern@, i as int),
{
    let total: usize = chars.len();
    let mut k: usize = 0;
    while k < pattern.len()
        invariant
            k <= pattern@.len(),
            i + pattern@.len() <= chars@.len() == total,
            forall|j: int| 0 <= j < k ==> chars@[i + j] == #[trigger] pattern@[j],
        decreases pattern@.len() - k,
    {
        if chars[i + k] != pattern[k] {
            return false;
        }
        k += 1;
    }
    assert(chars@.subrange(i as int, i + pattern@.len()) =~= pattern@);
    true
}

/// The first index at or after `from` at which `pattern` stands in `chars`.
pub fn find(chars: &[char], pattern: &[char], from: usize) -> (at: Option<usize>)
    ensures
        match at {
            Some(i) => from <= i && occurs_at(chars@, pattern@, i as int) && forall|j: int|
                from <= j < i ==> !occurs_at(chars@, pattern@, j),
            None => forall|j: int| from <= j ==> !occurs_at(chars@, pattern@, j),
        },
{
    if pattern.len() > chars.len() || from > chars.len() - pattern.len() {
        return None;
    }
    let last: usize = chars.len() - pattern.len();
    let mut i: usize = from;
    loop
        invariant
            from <= i <= last,
            last + pattern@.len() == chars@.len(),
            forall|j: int| from <= j < i ==> !occurs_at(chars@, pattern@, j),
        decreases last - i,
    {
        if matches_at(chars, pattern, i) {
            return Some(i);
        }
        if i == last {
            return None;
        }
        i += 1;
    }
}

/// Whether `pattern` stands somewhere in `text`.
pub fn text_contains(text: &str, pattern: &str) -> (r: bool)
    ensures
        r == contains(text@, pattern@),
{
    let chars = chars_of(text);
    let wanted = chars_of(pattern);
    find(chars.as_slice(), wanted.as_slice(), 0).is_some()
}

/// Whether `a` and `b` read the same.
pub fn same_text(a: &str, b: &str) -> (r: bool)
    ensures
        r == (a@ == b@),
{
    let x = a.as_bytes();
    let y = b.as_bytes();
    proof {
        encode_utf8_decode_utf8(a@);
        encode_utf8_decode_utf8(b@);
    }
    if x.len() != y.len() {
        return false;
    }
    let mut i: usize = 0;
    while i < x.len()
        invariant
            i <= x@.len(),
            x@.len() == y@.len(),
            x@ == encode_utf8(a@),
            y@ == encode_utf8(b@),
            forall|j: int| 0 <= j < i ==> x@[j] == y@[j],
        decreases x@.len() - i,
    {
        if x[i] != y[i] {
            return false;
        }
        i += 1;
    }
    assert(x@ =~= y@);
    true
}

/// The UTF-8 form of two texts in a row is the UTF-8 form of the first and then that of the
/// second.
pub proof fn lemma_utf8_concat(a: Seq<char>, b: Seq<char>)
    ensures
        encode_utf8(a + b) == encode_utf8(a) + encode_utf8(b),
    decreases a.len(),
{
    if a.len() > 0 {
        assert((a + b).drop_first() == a.drop_first() + b);
        lemma_utf8_concat(a.drop_first(), b);
    }
}

/// The UTF-8 form of a single character holds the byte 10 only where the character is the line
/// feed, and the byte 13 only where it is the carriage return: every byte of a longer form has
/// its high bit set.
proof fn lemma_scalar_line_end(c: char)
    ensures
        forall|i: int|
            0 <= i < encode_scalar(c as u32).len() && #[trigger] encode_scalar(c as u32)[i] == 10u8
                ==> c == '\n',
        forall|i: int|
            0 <= i < encode_scalar(c as u32).len() && #[trigger] encode_scalar(c as u32)[i] == 13u8
                ==> c == '\r',
{
    let v = c as u32;
    char_is_scalar(c);
    assert(has_width_1_encoding(v) && leading_byte_width_1(v) == 10u8 ==> v == 10u32)
        by (bit_vector);
    assert(has_width_1_encoding(v) && leading_byte_width_1(v) == 13u8 ==> v == 13u32)
        by (bit_vector);
    assert(leading_byte_width_2(v) >= 0x80u8) by (bit_vector);
    assert(leading_byte_width_3(v) >= 0x80u8) by (bit_vector);
    assert(leading_byte_width_4(v) >= 0x80u8) by (bit_vector);
    assert(last_continuation_byte(v) >= 0x80u8) by (bit_vector);
    assert(second_last_continuation_byte(v) >= 0x80u8) by (bit_vector);
    assert(third_last_continuation_byte(v) >= 0x80u8) by (bit_vector);
    if v == 10u32 || v == 13u32 {
        char_u32_cast(c, v);
    }
}

/// A text without a line feed has a UTF-8 form without the byte 10.
pub proof fn lemma_utf8_line_feed(s: Seq<char>)
    requires
        !s.contains('\n'),
    ensures
        !encode_utf8(s).contains(10u8),
    decreases s.len(),
{
    if s.len() > 0 {
        let rest = s.drop_first();
        assert forall|k: int| 0 <= k < rest.len() implies rest[k] != '\n' by {}
        lemma_utf8_line_feed(rest);
        lemma_scalar_line_end(s[0]);
        let bytes = encode_utf8(s);
        assert forall|i: int| 0 <= i < bytes.len() implies bytes[i] != 10u8 by {}
    }
}

/// Whether the two bytes CR and LF stand in `bytes` at index `i`.
pub open spec fn line_end_at(bytes: Seq<u8>, i: int) -> bool {
    0 <= i && i + 2 <= bytes.len() && bytes[i] == 13 && bytes[i + 1] == 10
}

/// A text without a line feed holds no line end.
pub proof fn lemma_line_end_needs_line_feed(s: Seq<char>)
    requires
        !s.contains('\n'),
    ensures
        !contains(s, line_end()),
{
    assert forall|i: int| !occurs_at(s, line_end(), i) by {}
}

/// A text that holds no line end has a UTF-8 form in which CR LF stands nowhere.
pub proof fn lemma_utf8_line_end(s: Seq<char>)
    requires
        !contains(s, line_end()),
    ensures
        forall|i: int| !line_end_at(encode_utf8(s), i),
    decreases s.len(),
{
    if s.len() > 0 {
        let rest = s.drop_first();
        let first = encode_scalar(s[0] as u32);
        let after = encode_utf8(rest);
        let bytes = encode_utf8(s);
        assert forall|k: int| !occurs_at(rest, line_end(), k) by {
            if occurs_at(rest, line_end(), k) {
                assert(s.subrange(k + 1, k + 3) == rest.subrange(k, k + 2));
                assert(occurs_at(s, line_end(), k + 1));
            }
        }
        lemma_utf8_line_end(rest);
        lemma_scalar_line_end(s[0]);
        assert forall|i: int| !line_end_at(bytes, i) by {
            if line_end_at(bytes, i) {
                if i >= first.len() {
                    assert(line_end_at(after, i - first.len()));
                } else if i + 1 == first.len() {
                    lemma_scalar_line_end(rest[0]);
                    assert(s.subrange(0, 2) == line_end());
                    assert(occurs_at(s, line_end(), 0));
                }
            }
        }
    }
}

} // verus!

use http_server::decimal::{decimal_string, parse_usize};
use http_server::text::{
    chars_of, find, line_ranges, same_text, split_lines, split_tokens, text_contains,
    token_ranges, Delimiter,
};
use http_server::Headers;

#[test]
fn decimal_strings() {
    assert_eq!(decimal_string(0), "0");
    assert_eq!(decimal_string(7), "7");
    assert_eq!(decimal_string(10), "10");
    assert_eq!(decimal_string(404), "404");
    assert_eq!(decimal_string(1234567890), "1234567890");
    assert_eq!(decimal_string(u64::MAX), "18446744073709551615");
}

#[test]
fn parse_usize_reads_numerals() {
    assert_eq!(parse_usize("0"), Some(0));
    assert_eq!(parse_usize("42"), Some(42));
    assert_eq!(parse_usize("+42"), Some(42));
    assert_eq!(parse_usize("007"), Some(7));
    assert_eq!(parse_usize(&usize::MAX.to_string()), Some(usize::MAX));
}

#[test]
fn parse_usize_refuses_the_rest() {
    for text in ["", "+", "-1", "-0", "++1", "1+", " 1", "1 ", "1_000", "12a", "a", "٣", "1.5"] {
        assert_eq!(parse_usize(text), None, "{:?}", text);
        assert_eq!(text.parse::<usize>().ok(), None, "{:?}", text);
    }
    assert_eq!(parse_usize("18446744073709551616"), None);
    assert_eq!(parse_usize("99999999999999999999999999"), None);
    assert_eq!(parse_usize("184467440737095516150"), None);
}

#[test]
fn parse_usize_reads_what_decimal_string_wrote() {
    for n in [0u64, 1, 9, 10, 99, 100, 1024, 65535, 4294967295] {
        assert_eq!(parse_usize(&decimal_string(n)), Some(n as usize));
        assert_eq!(decimal_string(n), n.to_string());
    }
}

#[test]
fn tokens_between_white_space() {
    assert_eq!(split_tokens("a b  c", Delimiter::Whitespace), vec!["a", "b", "c"]);
    assert_eq!(split_tokens("  a\tb\n", Delimiter::Whitespace), vec!["a", "b"]);
    assert_eq!(split_tokens("", Delimiter::Whitespace), Vec::<&str>::new());
    assert_eq!(split_tokens(" \t ", Delimiter::Whitespace), Vec::<&str>::new());
    assert_eq!(split_tokens("one", Delimiter::Whitespace), vec!["one"]);
    let text = "α\u{85}β\u{1680}γ\u{2028}δ\u{2029}ε\u{202f}ζ\u{205f}η\u{2000}θ\u{200a}ι";
    assert_eq!(
        split_tokens(text, Delimiter::Whitespace),
        text.split_whitespace().collect::<Vec<&str>>()
    );
    assert_eq!(split_tokens(text, Delimiter::Whitespace).len(), 9);
    let not_space = "a\u{200b}b\u{feff}c\u{180e}d\u{1f}e";
    assert_eq!(split_tokens(not_space, Delimiter::Whitespace), vec![not_space]);
}

#[test]
fn tokens_between_slashes() {
    assert_eq!(split_tokens("/a//b/", Delimiter::Slash), vec!["a", "b"]);
    assert_eq!(split_tokens("/a/b", Delimiter::Slash), vec!["a", "b"]);
    assert_eq!(split_tokens("/", Delimiter::Slash), Vec::<&str>::new());
    assert_eq!(split_tokens("", Delimiter::Slash), Vec::<&str>::new());
    assert_eq!(split_tokens("a b/c", Delimiter::Slash), vec!["a b", "c"]);
}

#[test]
fn lines_of_a_text() {
    assert_eq!(split_lines("a\r\nb\nc"), vec!["a", "b", "c"]);
    assert_eq!(split_lines("a\n"), vec!["a"]);
    assert_eq!(split_lines("a\n\n"), vec!["a", ""]);
    assert_eq!(split_lines("\n"), vec![""]);
    assert_eq!(split_lines(""), Vec::<&str>::new());
    assert_eq!(split_lines("a\r"), vec!["a\r"]);
    assert_eq!(split_lines("a\r\r\nb"), vec!["a\r", "b"]);
    assert_eq!(split_lines("\r\n\r\n"), vec!["", ""]);
    for text in ["", "x", "x\n", "x\r\n", "x\r", "\r", "\r\n", "a\rb\n\rc", "é\r\nü\n", "\n\n\n"] {
        assert_eq!(split_lines(text), text.lines().collect::<Vec<&str>>(), "{:?}", text);
    }
}

#[test]
fn text_search() {
    assert!(text_contains("gzip", "gzip"));
    assert!(text_contains("deflate, gzip;q=0.5", "gzip"));
    assert!(text_contains("xgzipx", "gzip"));
    assert!(text_contains("anything", ""));
    assert!(text_contains("", ""));
    assert!(!text_contains("", "gzip"));
    assert!(!text_contains("gzi", "gzip"));
    assert!(!text_contains("GZIP", "gzip"));
    assert!(!text_contains("g zip", "gzip"));
    assert!(text_contains("ggzip", "gzip"));
}

#[test]
fn find_returns_the_first_place() {
    let text: Vec<char> = "a: b: c".chars().collect();
    let pattern = [':', ' '];
    assert_eq!(find(&text, &pattern, 0), Some(1));
    assert_eq!(find(&text, &pattern, 1), Some(1));
    assert_eq!(find(&text, &pattern, 2), Some(4));
    assert_eq!(find(&text, &pattern, 5), None);
    assert_eq!(find(&text, &pattern, 100), None);
    assert_eq!(find(&text, &[], 7), Some(7));
    assert_eq!(find(&text, &[], 8), None);
    assert_eq!(find(&[], &pattern, 0), None);
}

#[test]
fn ranges_of_tokens_and_lines() {
    let text: Vec<char> = " ab  c\r\nd".chars().collect();
    assert_eq!(token_ranges(&text, Delimiter::Whitespace), vec![(1, 3), (5, 6), (8, 9)]);
    assert_eq!(line_ranges(&text), vec![(0, 6), (8, 9)]);
    assert_eq!(token_ranges(&[], Delimiter::Slash), vec![]);
    assert_eq!(line_ranges(&[]), vec![]);
}

#[test]
fn text_equality() {
    assert!(same_text("", ""));
    assert!(same_text("close", "close"));
    assert!(!same_text("close", "Close"));
    assert!(!same_text("close", "closed"));
    assert!(!same_text("é", "e"));
    assert!(same_text("é", "é"));
}

#[test]
fn characters_of_a_text() {
    assert_eq!(chars_of("aé€😀"), vec!['a', 'é', '€', '😀']);
    assert_eq!(chars_of(""), Vec::<char>::new());
}

#[test]
fn delimiters() {
    assert!(Delimiter::Whitespace.matches(' '));
    assert!(Delimiter::Whitespace.matches('\u{3000}'));
    assert!(!Delimiter::Whitespace.matches('/'));
    assert!(Delimiter::Slash.matches('/'));
    assert!(!Delimiter::Slash.matches('\\'));
    assert!(Delimiter::LineFeed.matches('\n'));
    assert!(!Delimiter::LineFeed.matches('\r'));
    for code in 0u32..0x3100 {
        if let Some(c) = char::from_u32(code) {
            assert_eq!(Delimiter::Whitespace.matches(c), c.is_whitespace(), "{:x}", code);
        }
    }
}

#[test]
fn headers_map_names_to_values() {
    let mut headers = Headers::new();
    assert_eq!(headers.len(), 0);
    assert_eq!(headers.get("A"), None);
    headers.insert("A".to_string(), "1".to_string());
    headers.insert("B".to_string(), "2".to_string());
    headers.insert("a".to_string(), "3".to_string());
    headers.insert("A".to_string(), "4".to_string());
    assert_eq!(headers.len(), 3);
    assert_eq!(headers.get("A").map(|v| v.as_str()), Some("4"));
    assert_eq!(headers.get("B").map(|v| v.as_str()), Some("2"));
    assert_eq!(headers.get("a").map(|v| v.as_str()), Some("3"));
    assert_eq!(headers.get("C"), None);
    assert_eq!(headers.name_at(0), "A");
    assert_eq!(headers.value_at(0), "4");
    assert_eq!(headers.name_at(1), "B");
    assert_eq!(headers.name_at(2), "a");
    assert_eq!(headers.value_at(2), "3");
}

use http_base::headers::Headers;
use http_base::method::Method;
use http_base::parser::RequestParser;
use http_base::reader::LineReader;
use http_base::request::Request;
use http_base::response::response;
use http_base::text::{is_whitespace, same_text, Text};

const ANSWER: &[u8] = b"HTTP/1.1 200 Ok\r\nContent-Type: text/plain\r\n\r\nHello World!\r\n";

#[test]
fn response_is_fixed() {
    let parsed = Request::create(LineReader::new("GET / HTTP/1.1\r\n\r\n"));
    let failed = Request::create(LineReader::new("GET\r\n\r\n"));
    assert!(parsed.is_ok());
    assert!(failed.is_err());
    assert_eq!(response(&parsed), ANSWER);
    assert_eq!(response(&failed), ANSWER);
    assert_eq!(response(&parsed), response(&parsed));
    assert_eq!(response(&parsed), response(&failed));
    assert_eq!(response(&parsed).len(), 59);
}

#[test]
fn parser_is_driven_line_by_line() {
    let mut parser = RequestParser::new();
    assert!(parser.wants_line());
    parser = parser.feed(Some("GET /a HTTP/1.1\r\n"));
    assert!(parser.wants_line());
    parser = parser.feed(Some("Host: h\r\n"));
    assert!(parser.wants_line());
    parser = parser.feed(Some("\r\n"));
    assert!(!parser.wants_line());
    parser = parser.feed(Some("Late: 1\r\n"));
    assert!(!parser.wants_line());
    let request = parser.finish(7u8).unwrap();
    assert!(matches!(request.method, Method::GET));
    assert_eq!(request.path, "/a");
    assert_eq!(request.version, "HTTP/1.1");
    assert_eq!(request.headers.len(), 1);
    assert_eq!(request.headers.get("Host").map(|v| v.as_str()), Some("h"));
    assert_eq!(request.body, 7u8);
}

#[test]
fn parser_takes_lines_without_terminator() {
    let parser = RequestParser::new().feed(Some("HEAD / HTTP/1.0")).feed(Some("A:b")).feed(Some(""));
    assert!(!parser.wants_line());
    let request = parser.finish(()).unwrap();
    assert!(matches!(request.method, Method::HEAD));
    assert_eq!(request.headers.get("A").map(|v| v.as_str()), Some("b"));
}

#[test]
fn parser_fails_on_end_before_request_line() {
    let parser = RequestParser::new().feed(None);
    assert!(!parser.wants_line());
    assert!(parser.finish(()).is_err());
    assert!(RequestParser::new().finish(()).is_err());
}

#[test]
fn parser_fails_on_short_request_line_and_stays_failed() {
    let parser = RequestParser::new().feed(Some("GET /\r\n"));
    assert!(!parser.wants_line());
    let parser = parser.feed(Some("GET / HTTP/1.1\r\n")).feed(None);
    assert!(parser.finish(()).is_err());
}

#[test]
fn parser_ends_headers_at_end_of_input() {
    let parser = RequestParser::new().feed(Some("GET / HTTP/1.1\r\n")).feed(Some("A: 1\r\n"));
    assert!(parser.wants_line());
    let parser = parser.feed(None);
    assert!(!parser.wants_line());
    let request = parser.finish(()).unwrap();
    assert_eq!(request.headers.len(), 1);
}

#[test]
fn finish_while_headers_are_awaited_ends_them() {
    let parser = RequestParser::new().feed(Some("GET / HTTP/1.1\r\n")).feed(Some("A: 1\r\n"));
    let request = parser.finish("rest").unwrap();
    assert_eq!(request.headers.get("A").map(|v| v.as_str()), Some("1"));
    assert_eq!(request.body, "rest");
}

#[test]
fn reader_yields_lines_with_their_line_feed() {
    let mut reader = LineReader::new("a\r\nbc\n\nlast");
    assert_eq!(reader.consumed(), 0);
    assert_eq!(reader.rest(), "a\r\nbc\n\nlast");
    assert_eq!(reader.read_line(), Some("a\r\n"));
    assert_eq!(reader.consumed(), 3);
    assert_eq!(reader.read_line(), Some("bc\n"));
    assert_eq!(reader.read_line(), Some("\n"));
    assert_eq!(reader.rest(), "last");
    assert_eq!(reader.read_line(), Some("last"));
    assert_eq!(reader.consumed(), 11);
    assert_eq!(reader.read_line(), None);
    assert_eq!(reader.read_line(), None);
    assert_eq!(reader.consumed(), 11);
    assert_eq!(reader.rest(), "");
}

#[test]
fn reader_counts_characters() {
    let mut reader = LineReader::new("h\u{e9}\u{4e16}\nx");
    assert_eq!(reader.read_line(), Some("h\u{e9}\u{4e16}\n"));
    assert_eq!(reader.consumed(), 4);
    assert_eq!(reader.rest(), "x");
}

#[test]
fn reader_of_nothing_has_no_line() {
    let mut reader = LineReader::new("");
    assert_eq!(reader.read_line(), None);
    assert_eq!(reader.consumed(), 0);
}

#[test]
fn headers_behave_as_a_mapping() {
    let mut headers = Headers::new();
    assert!(headers.is_empty());
    assert_eq!(headers.len(), 0);
    assert!(!headers.contains_key("A"));
    assert_eq!(headers.get("A"), None);
    headers.insert("A".to_string(), "1".to_string());
    headers.insert("B".to_string(), "2".to_string());
    assert_eq!(headers.len(), 2);
    assert!(!headers.is_empty());
    assert!(headers.contains_key("A"));
    assert!(!headers.contains_key("a"));
    headers.insert("A".to_string(), "3".to_string());
    assert_eq!(headers.len(), 2);
    assert_eq!(headers.get("A"), Some(&"3".to_string()));
    assert_eq!(headers.get("B"), Some(&"2".to_string()));
    let expected = vec![("A".to_string(), "3".to_string()), ("B".to_string(), "2".to_string())];
    assert_eq!(headers.entries(), &expected);
}

#[test]
fn headers_append_to_a_present_name_only() {
    let mut headers = Headers::new();
    headers.insert("A".to_string(), "ab".to_string());
    assert!(headers.append("A", "cd"));
    assert_eq!(headers.get("A"), Some(&"abcd".to_string()));
    assert!(!headers.append("B", "x"));
    assert_eq!(headers.get("B"), None);
    assert_eq!(headers.len(), 1);
    assert!(headers.append("A", ""));
    assert_eq!(headers.get("A"), Some(&"abcd".to_string()));
}

#[test]
fn white_space_is_the_unicode_property() {
    for c in [' ', '\t', '\n', '\u{b}', '\u{c}', '\r', '\u{85}', '\u{a0}', '\u{1680}', '\u{2000}',
        '\u{2005}', '\u{200a}', '\u{2028}', '\u{2029}', '\u{202f}', '\u{205f}', '\u{3000}']
    {
        assert!(is_whitespace(c));
    }
    for c in ['a', '0', ':', '\u{8}', '\u{e}', '\u{1f}', '\u{84}', '\u{86}', '\u{200b}', '\u{180e}',
        '\u{2060}', '\u{feff}', '\u{3001}']
    {
        assert!(!is_whitespace(c));
    }
}

#[test]
fn white_space_agrees_with_std_on_every_character() {
    let mut code: u32 = 0;
    while code <= 0x10ffff {
        if let Some(c) = char::from_u32(code) {
            assert_eq!(is_whitespace(c), c.is_whitespace());
        }
        code += 1;
    }
}

#[test]
fn same_text_compares_characters() {
    assert!(same_text("", ""));
    assert!(same_text("Host", "Host"));
    assert!(!same_text("Host", "host"));
    assert!(!same_text("Host", "Hos"));
    assert!(!same_text("Hos", "Host"));
    assert!(same_text("h\u{e9}", "h\u{e9}"));
    assert!(!same_text("h\u{e9}", "h\u{e8}"));
}

#[test]
fn line_finds_and_trims() {
    let line = Text::new("  ab: c d \t");
    assert_eq!(line.len(), 11);
    assert_eq!(line.char_at(2), 'a');
    assert_eq!(line.slice(2, 4), "ab");
    assert_eq!(line.find(':', 0, 11), 4);
    assert_eq!(line.find(':', 5, 11), 11);
    assert_eq!(line.find('x', 0, 11), 11);
    assert_eq!(line.find_space(2, 11), 5);
    assert_eq!(line.find_space(2, 4), 4);
    assert_eq!(line.trim_start(0, 11), 2);
    assert_eq!(line.trim_end(0, 11), 9);
    assert_eq!(line.trim(0, 11), (2, 9));
    assert_eq!(line.trim(4, 11), (4, 9));
    assert_eq!(line.trim(9, 11), (11, 11));
    assert_eq!(line.trim(3, 3), (3, 3));
}

#[test]
fn line_splits_at_every_white_space() {
    let line = Text::new("a b  c\td ");
    assert_eq!(line.split(0, 9), vec!["a", "b", "", "c", "d", ""]);
    assert_eq!(line.split(0, 1), vec!["a"]);
    assert_eq!(line.split(2, 2), vec![""]);
    assert_eq!(line.split(1, 3), vec!["", "b"]);
    assert_eq!(Text::new("").split(0, 0), vec![""]);
    let text = "GET / HTTP/1.1";
    let pieces: Vec<&str> = text.split(char::is_whitespace).collect();
    assert_eq!(Text::new(text).split(0, text.len()), pieces);
}
